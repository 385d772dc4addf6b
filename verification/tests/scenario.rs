use tasking::repository::TaskRepository;
use tasking::status::TaskStatus;
use tasking::store::Tasks;
use tasking::summary::memo_text;

#[test]
fn buy_milk_and_call_bob() {
    let mut store = Tasks::new();
    assert_eq!(store.add_message("Buy milk".to_string()), 1);
    assert_eq!(store.add_message("Call Bob".to_string()), 2);
    {
        let all = store.to_vec();
        assert_eq!((all[0].id, all[0].content.as_str(), all[0].status), (1, "Buy milk", TaskStatus::New));
        assert_eq!((all[1].id, all[1].content.as_str(), all[1].status), (2, "Call Bob", TaskStatus::New));
    }
    assert!(store.cycle_status(2));
    assert_eq!(store.to_vec()[1].status, TaskStatus::Progress);
    store.remove_by_id(1);
    let all = store.to_vec();
    assert_eq!(all.len(), 1);
    assert_eq!((all[0].id, all[0].content.as_str(), all[0].status), (2, "Call Bob", TaskStatus::Progress));
    assert_eq!(store.id_counter, 2);

    let snapshot = TaskRepository::recover(Some(store.to_save_tasks()));
    let back = Tasks::from_save_tasks(snapshot);
    let all = back.to_vec();
    assert_eq!(back.id_counter, 2);
    assert_eq!(all.len(), 1);
    assert_eq!((all[0].id, all[0].content.as_str(), all[0].status), (2, "Call Bob", TaskStatus::Progress));
}

#[test]
fn a_day_with_the_list() {
    let mut store = Tasks::from_save_tasks(TaskRepository::recover(None));
    assert!(store.is_empty());
    for content in ["write report", "call Bob", "buy milk", "book flight"] {
        store.add_message(content.to_string());
    }
    store.cycle_status(2);
    store.cycle_status(3);
    store.cycle_status(3);
    store.cycle_status(3);
    store.sort(&TaskStatus::standard_order());
    let order: Vec<u32> = store.to_vec().iter().map(|t| t.id).collect();
    assert_eq!(order, vec![1, 4, 2, 3]);
    let summary = store.grouped_summary(&TaskStatus::standard_order());
    assert_eq!(
        memo_text(&summary),
        Some(
            "--- task ---\n# 新規タスク\n1. write report\n2. book flight\n\n\
             # 実行中タスク\n1. call Bob\n\n# 完了タスク\n1. buy milk\n------------"
                .to_string()
        )
    );
    store.clear();
    assert_eq!(memo_text(&store.grouped_summary(&TaskStatus::standard_order())), None);
    assert_eq!(store.add_message("next".to_string()), 5);
}
