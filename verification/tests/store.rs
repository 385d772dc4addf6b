use tasking::snapshot::SaveTasks;
use tasking::status::TaskStatus;
use tasking::store::rank_of;
use tasking::store::Tasks;
use tasking::task::Task;
use tasking::vector::has_other_id;

fn contents(store: &Tasks) -> Vec<(u32, String, TaskStatus)> {
    store.to_vec().into_iter().map(|t| (t.id, t.content, t.status)).collect()
}

fn store_with(statuses: &[TaskStatus]) -> Tasks {
    let mut store = Tasks::new();
    for (n, status) in statuses.iter().enumerate() {
        let id = store.add_message(format!("task {}", n + 1));
        assert!(store.change_status(id, *status));
    }
    store
}

fn ids(store: &Tasks) -> Vec<u32> {
    store.to_vec().iter().map(|t| t.id).collect()
}

#[test]
fn a_new_store_is_empty() {
    let store = Tasks::new();
    assert!(store.is_empty());
    assert_eq!(store.id_counter, 0);
    assert_eq!(store.tasks.len(), 0);
    assert!(store.to_vec().is_empty());
}

#[test]
fn the_default_store_is_empty() {
    let store = Tasks::default();
    assert!(store.is_empty());
    assert_eq!(store.id_counter, 0);
}

#[test]
fn add_gives_ids_from_one_and_appends() {
    let mut store = Tasks::new();
    assert_eq!(store.add_message("first".to_string()), 1);
    assert_eq!(store.add_message("second".to_string()), 2);
    assert_eq!(store.add_message("third".to_string()), 3);
    assert_eq!(store.id_counter, 3);
    assert!(!store.is_empty());
    assert_eq!(
        contents(&store),
        vec![
            (1, "first".to_string(), TaskStatus::New),
            (2, "second".to_string(), TaskStatus::New),
            (3, "third".to_string(), TaskStatus::New),
        ]
    );
}

#[test]
fn add_takes_empty_content() {
    let mut store = Tasks::new();
    let id = store.add_message(String::new());
    assert_eq!(id, 1);
    assert_eq!(contents(&store), vec![(1, String::new(), TaskStatus::New)]);
}

#[test]
fn ids_grow_whatever_happens_in_between() {
    let mut store = Tasks::new();
    let mut issued = Vec::new();
    issued.push(store.add_message("a".to_string()));
    issued.push(store.add_message("b".to_string()));
    store.remove_by_id(2);
    issued.push(store.add_message("c".to_string()));
    store.remove_by_id(1);
    store.remove_by_id(3);
    assert!(store.is_empty());
    issued.push(store.add_message("d".to_string()));
    store.clear();
    issued.push(store.add_message("e".to_string()));
    store.sort(&TaskStatus::standard_order());
    store.cycle_status(5);
    issued.push(store.add_message("f".to_string()));
    assert_eq!(issued, vec![1, 2, 3, 4, 5, 6]);
    for pair in issued.windows(2) {
        assert!(pair[0] < pair[1]);
    }
}

#[test]
fn remove_takes_the_task_away() {
    let mut store = Tasks::new();
    store.add_message("a".to_string());
    store.add_message("b".to_string());
    store.add_message("c".to_string());
    store.remove_by_id(2);
    assert!(store.find_by_id(2).is_none());
    assert_eq!(store.tasks.len(), 2);
    assert_eq!(ids(&store), vec![1, 3]);
    assert_eq!(store.id_counter, 3);
}

#[test]
fn remove_of_an_absent_id_changes_nothing() {
    let mut store = Tasks::new();
    store.add_message("a".to_string());
    store.add_message("b".to_string());
    store.remove_by_id(7);
    assert!(store.find_by_id(7).is_none());
    assert_eq!(store.tasks.len(), 2);
    assert_eq!(ids(&store), vec![1, 2]);
    store.remove_by_id(0);
    assert_eq!(ids(&store), vec![1, 2]);
}

#[test]
fn remove_on_an_empty_store_is_a_no_op() {
    let mut store = Tasks::new();
    store.remove_by_id(1);
    assert!(store.is_empty());
    assert_eq!(store.id_counter, 0);
}

#[test]
fn remove_takes_every_task_of_the_id() {
    let snapshot = SaveTasks {
        id_counter: 5,
        tasks: vec![
            Task::create(2, "a".to_string()),
            Task::create(4, "b".to_string()),
            Task::create(2, "c".to_string()),
        ],
    };
    let mut store = Tasks::from_save_tasks(snapshot);
    store.remove_by_id(2);
    assert_eq!(contents(&store), vec![(4, "b".to_string(), TaskStatus::New)]);
}

#[test]
fn clear_empties_the_store_and_keeps_the_counter() {
    let mut store = Tasks::new();
    store.add_message("a".to_string());
    store.add_message("b".to_string());
    store.clear();
    assert!(store.is_empty());
    assert_eq!(store.tasks.len(), 0);
    assert_eq!(store.id_counter, 2);
    assert_eq!(store.add_message("c".to_string()), 3);
    assert_eq!(contents(&store), vec![(3, "c".to_string(), TaskStatus::New)]);
}

#[test]
fn clear_of_an_empty_store() {
    let mut store = Tasks::new();
    store.clear();
    assert!(store.is_empty());
    assert_eq!(store.id_counter, 0);
}

#[test]
fn find_gives_the_task_to_change() {
    let mut store = Tasks::new();
    store.add_message("a".to_string());
    store.add_message("b".to_string());
    {
        let task = store.find_by_id(2).expect("task 2 is there");
        assert_eq!(task.id, 2);
        assert_eq!(task.content, "b");
        assert_eq!(task.status, TaskStatus::New);
        task.change_status(TaskStatus::Done);
    }
    assert_eq!(
        contents(&store),
        vec![(1, "a".to_string(), TaskStatus::New), (2, "b".to_string(), TaskStatus::Done)]
    );
    assert!(store.find_by_id(3).is_none());
    assert!(store.find_by_id(0).is_none());
}

#[test]
fn find_gives_the_first_of_two_with_the_same_id() {
    let snapshot = SaveTasks {
        id_counter: 9,
        tasks: vec![
            Task::create(1, "x".to_string()),
            Task::create(5, "first".to_string()),
            Task::create(5, "second".to_string()),
        ],
    };
    let mut store = Tasks::from_save_tasks(snapshot);
    assert_eq!(store.find_by_id(5).expect("there").content, "first");
    assert!(store.cycle_status(5));
    assert_eq!(
        contents(&store),
        vec![
            (1, "x".to_string(), TaskStatus::New),
            (5, "first".to_string(), TaskStatus::Progress),
            (5, "second".to_string(), TaskStatus::New),
        ]
    );
}

#[test]
fn change_status_sets_the_status_of_one_task() {
    let mut store = Tasks::new();
    store.add_message("a".to_string());
    store.add_message("b".to_string());
    assert!(store.change_status(1, TaskStatus::Stop));
    assert_eq!(
        contents(&store),
        vec![(1, "a".to_string(), TaskStatus::Stop), (2, "b".to_string(), TaskStatus::New)]
    );
    assert_eq!(store.id_counter, 2);
}

#[test]
fn change_status_of_an_absent_id_changes_nothing() {
    let mut store = Tasks::new();
    store.add_message("a".to_string());
    assert!(!store.change_status(2, TaskStatus::Done));
    assert!(!store.cycle_status(2));
    assert_eq!(contents(&store), vec![(1, "a".to_string(), TaskStatus::New)]);
}

#[test]
fn cycle_moves_one_step() {
    let mut store = Tasks::new();
    store.add_message("a".to_string());
    assert!(store.cycle_status(1));
    assert_eq!(store.to_vec()[0].status, TaskStatus::Progress);
    assert!(store.cycle_status(1));
    assert_eq!(store.to_vec()[0].status, TaskStatus::Stop);
    assert!(store.cycle_status(1));
    assert_eq!(store.to_vec()[0].status, TaskStatus::Done);
    assert!(store.cycle_status(1));
    assert_eq!(store.to_vec()[0].status, TaskStatus::New);
}

#[test]
fn four_cycles_leave_the_store_as_it_was() {
    let mut store = store_with(&[TaskStatus::Stop, TaskStatus::Done, TaskStatus::New]);
    let before = contents(&store);
    for id in 1..=3 {
        for _ in 0..4 {
            assert!(store.cycle_status(id));
        }
        assert_eq!(contents(&store), before);
    }
    assert_eq!(store.id_counter, 3);
}

#[test]
fn rank_is_the_first_place_or_the_length() {
    let order = vec![TaskStatus::Stop, TaskStatus::New, TaskStatus::Stop];
    assert_eq!(rank_of(&order, TaskStatus::Stop), 0);
    assert_eq!(rank_of(&order, TaskStatus::New), 1);
    assert_eq!(rank_of(&order, TaskStatus::Done), 3);
    assert_eq!(rank_of(&order, TaskStatus::Progress), 3);
    assert_eq!(rank_of(&Vec::new(), TaskStatus::New), 0);
}

#[test]
fn sort_by_the_standard_order_is_stable() {
    let mut store = store_with(&[
        TaskStatus::Done,
        TaskStatus::New,
        TaskStatus::Stop,
        TaskStatus::New,
        TaskStatus::Progress,
        TaskStatus::Done,
        TaskStatus::Stop,
    ]);
    store.sort(&TaskStatus::standard_order());
    assert_eq!(ids(&store), vec![2, 4, 5, 3, 7, 1, 6]);
    let statuses: Vec<TaskStatus> = store.to_vec().iter().map(|t| t.status).collect();
    assert_eq!(
        statuses,
        vec![
            TaskStatus::New,
            TaskStatus::New,
            TaskStatus::Progress,
            TaskStatus::Stop,
            TaskStatus::Stop,
            TaskStatus::Done,
            TaskStatus::Done,
        ]
    );
    assert_eq!(store.id_counter, 7);
    assert_eq!(store.to_vec()[0].content, "task 2");
}

#[test]
fn sort_keeps_a_sorted_store() {
    let mut store = store_with(&[TaskStatus::New, TaskStatus::New, TaskStatus::Done]);
    store.sort(&TaskStatus::standard_order());
    assert_eq!(ids(&store), vec![1, 2, 3]);
    store.sort(&TaskStatus::standard_order());
    assert_eq!(ids(&store), vec![1, 2, 3]);
}

#[test]
fn sort_by_a_reversed_order() {
    let mut store = store_with(&[
        TaskStatus::New,
        TaskStatus::Done,
        TaskStatus::New,
        TaskStatus::Stop,
        TaskStatus::Done,
    ]);
    let order = vec![TaskStatus::Done, TaskStatus::Stop, TaskStatus::Progress, TaskStatus::New];
    store.sort(&order);
    assert_eq!(ids(&store), vec![2, 5, 4, 1, 3]);
}

#[test]
fn sort_puts_unnamed_statuses_last() {
    let mut store = store_with(&[
        TaskStatus::New,
        TaskStatus::Done,
        TaskStatus::Progress,
        TaskStatus::Done,
        TaskStatus::Stop,
    ]);
    store.sort(&vec![TaskStatus::Done]);
    assert_eq!(ids(&store), vec![2, 4, 1, 3, 5]);
}

#[test]
fn sort_by_an_empty_order_changes_nothing() {
    let mut store = store_with(&[TaskStatus::Done, TaskStatus::New, TaskStatus::Stop]);
    store.sort(&Vec::new());
    assert_eq!(ids(&store), vec![1, 2, 3]);
}

#[test]
fn sort_goes_by_the_first_occurrence_in_the_order() {
    let mut store = store_with(&[TaskStatus::Done, TaskStatus::New, TaskStatus::Done]);
    store.sort(&vec![TaskStatus::New, TaskStatus::Done, TaskStatus::New, TaskStatus::Done]);
    assert_eq!(ids(&store), vec![2, 1, 3]);
}

#[test]
fn sort_of_an_empty_store() {
    let mut store = Tasks::new();
    store.sort(&TaskStatus::standard_order());
    assert!(store.is_empty());
}

#[test]
fn sort_of_many_tasks_loses_none() {
    let cycle = TaskStatus::standard_order();
    let mut store = Tasks::new();
    for n in 0..200usize {
        let id = store.add_message(format!("t{}", n));
        store.change_status(id, cycle[(n * 7 + 3) % 4]);
    }
    let before = store.to_vec();
    store.sort(&cycle);
    let after = store.to_vec();
    assert_eq!(after.len(), 200);
    let mut expected: Vec<u32> = Vec::new();
    for status in cycle.iter() {
        for task in before.iter() {
            if task.status == *status {
                expected.push(task.id);
            }
        }
    }
    assert_eq!(ids(&store), expected);
}

#[test]
fn a_clone_holds_the_same_and_goes_its_own_way() {
    let mut store = Tasks::new();
    store.add_message("a".to_string());
    store.add_message("b".to_string());
    let copy = store.clone();
    assert_eq!(contents(&copy), contents(&store));
    assert_eq!(copy.id_counter, 2);
    store.remove_by_id(1);
    store.cycle_status(2);
    assert_eq!(
        contents(&copy),
        vec![(1, "a".to_string(), TaskStatus::New), (2, "b".to_string(), TaskStatus::New)]
    );
}

#[test]
fn has_other_id_tells_ids_apart() {
    let task = Task::create(4, "a".to_string());
    assert!(has_other_id(&task, 5));
    assert!(!has_other_id(&task, 4));
}
