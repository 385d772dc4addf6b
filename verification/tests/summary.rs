use tasking::status::TaskStatus;
use tasking::store::Tasks;
use tasking::summary::memo_text;
use tasking::text::decimal_string;
use tasking::text::trim;

fn store_of(tasks: &[(&str, TaskStatus)]) -> Tasks {
    let mut store = Tasks::new();
    for (content, status) in tasks {
        let id = store.add_message(content.to_string());
        store.change_status(id, *status);
    }
    store
}

#[test]
fn decimal_string_writes_numbers() {
    assert_eq!(decimal_string(0), "0");
    assert_eq!(decimal_string(1), "1");
    assert_eq!(decimal_string(9), "9");
    assert_eq!(decimal_string(10), "10");
    assert_eq!(decimal_string(12), "12");
    assert_eq!(decimal_string(100), "100");
    assert_eq!(decimal_string(1234567890), "1234567890");
    assert_eq!(decimal_string(usize::MAX), usize::MAX.to_string());
}

#[test]
fn trim_cuts_white_space_at_both_ends() {
    assert_eq!(trim(""), "");
    assert_eq!(trim("abc"), "abc");
    assert_eq!(trim("  abc"), "abc");
    assert_eq!(trim("abc \n\n"), "abc");
    assert_eq!(trim("\t a b  c \r\n"), "a b  c");
    assert_eq!(trim(" \n\t "), "");
    assert_eq!(trim("x"), "x");
    assert_eq!(trim(" x"), "x");
    assert_eq!(trim("x "), "x");
}

#[test]
fn trim_knows_the_white_space_of_unicode() {
    let samples = [
        "\u{3000}全角\u{3000}",
        "\u{a0}nbsp\u{a0}",
        "\u{2003}em space\u{2028}",
        "\u{feff}not white space\u{200b}",
        "  日本語 🍣  ",
        "\u{85}next line\u{1680}",
    ];
    for sample in samples {
        assert_eq!(trim(sample), sample.trim());
    }
    assert_eq!(trim("\u{3000}全角\u{3000}"), "全角");
    assert_eq!(trim("\u{feff}x\u{200b}"), "\u{feff}x\u{200b}");
}

#[test]
fn sections_stand_before_the_summary_is_trimmed() {
    let store = store_of(&[("Buy milk", TaskStatus::New), ("Call Bob", TaskStatus::Progress)]);
    assert_eq!(
        store.grouped_sections(&TaskStatus::standard_order()),
        "# 新規タスク\n1. Buy milk\n\n# 実行中タスク\n1. Call Bob\n\n"
    );
    assert_eq!(Tasks::new().grouped_sections(&TaskStatus::standard_order()), "");
    assert_eq!(store.grouped_sections(&Vec::new()), "");
}

#[test]
fn summary_groups_by_status_and_numbers_each_group() {
    let store = store_of(&[
        ("Buy milk", TaskStatus::New),
        ("Call Bob", TaskStatus::Progress),
        ("Write home", TaskStatus::New),
        ("Sleep", TaskStatus::Done),
        ("Eat", TaskStatus::Progress),
        ("Read", TaskStatus::New),
    ]);
    assert_eq!(
        store.grouped_summary(&TaskStatus::standard_order()),
        "# 新規タスク\n1. Buy milk\n2. Write home\n3. Read\n\n\
         # 実行中タスク\n1. Call Bob\n2. Eat\n\n\
         # 完了タスク\n1. Sleep"
    );
}

#[test]
fn summary_leaves_out_a_status_without_tasks() {
    let store = store_of(&[("only", TaskStatus::Stop)]);
    assert_eq!(store.grouped_summary(&TaskStatus::standard_order()), "# 停止タスク\n1. only");
    let store = store_of(&[("a", TaskStatus::New), ("b", TaskStatus::Done)]);
    assert_eq!(
        store.grouped_summary(&TaskStatus::standard_order()),
        "# 新規タスク\n1. a\n\n# 完了タスク\n1. b"
    );
}

#[test]
fn summary_of_an_empty_store_is_empty() {
    assert_eq!(Tasks::new().grouped_summary(&TaskStatus::standard_order()), "");
}

#[test]
fn summary_follows_the_given_order() {
    let store = store_of(&[("a", TaskStatus::New), ("b", TaskStatus::Done)]);
    assert_eq!(
        store.grouped_summary(&vec![TaskStatus::Done, TaskStatus::New]),
        "# 完了タスク\n1. b\n\n# 新規タスク\n1. a"
    );
    assert_eq!(store.grouped_summary(&vec![TaskStatus::Done]), "# 完了タスク\n1. b");
    assert_eq!(store.grouped_summary(&vec![TaskStatus::Stop]), "");
    assert_eq!(store.grouped_summary(&Vec::new()), "");
}

#[test]
fn summary_numbers_go_past_nine() {
    let mut store = Tasks::new();
    for n in 1..=11 {
        store.add_message(format!("t{}", n));
    }
    store.change_status(5, TaskStatus::Done);
    let summary = store.grouped_summary(&TaskStatus::standard_order());
    assert_eq!(
        summary,
        "# 新規タスク\n1. t1\n2. t2\n3. t3\n4. t4\n5. t6\n6. t7\n7. t8\n8. t9\n9. t10\n10. t11\n\n\
         # 完了タスク\n1. t5"
    );
}

#[test]
fn summary_is_trimmed_at_its_end() {
    let store = store_of(&[("first", TaskStatus::New), ("last \u{3000}\n", TaskStatus::New)]);
    assert_eq!(
        store.grouped_summary(&TaskStatus::standard_order()),
        "# 新規タスク\n1. first\n2. last"
    );
    let store = store_of(&[("", TaskStatus::Done)]);
    assert_eq!(store.grouped_summary(&TaskStatus::standard_order()), "# 完了タスク\n1.");
}

#[test]
fn summary_keeps_white_space_inside() {
    let store = store_of(&[("  padded  ", TaskStatus::New), ("x", TaskStatus::Stop)]);
    assert_eq!(
        store.grouped_summary(&TaskStatus::standard_order()),
        "# 新規タスク\n1.   padded  \n\n# 停止タスク\n1. x"
    );
}

#[test]
fn summary_agrees_with_formatting_by_hand() {
    let tasks = [
        ("  lead", TaskStatus::Done),
        ("日本語", TaskStatus::New),
        ("tail  ", TaskStatus::Done),
        ("", TaskStatus::Progress),
    ];
    let store = store_of(&tasks);
    let mut text = String::new();
    for status in TaskStatus::standard_order() {
        let mut part = format!("# {}タスク\n", status.to_string());
        let mut counter = 0;
        for (content, s) in tasks.iter() {
            if *s == status {
                counter += 1;
                part = part + format!("{}. {}\n", counter, content).as_str();
            }
        }
        if counter != 0 {
            text = text + part.as_str() + "\n";
        }
    }
    assert_eq!(store.grouped_summary(&TaskStatus::standard_order()), text.trim());
}

#[test]
fn memo_frames_a_summary() {
    assert_eq!(
        memo_text("# 新規タスク\n1. a"),
        Some("--- task ---\n# 新規タスク\n1. a\n------------".to_string())
    );
    assert_eq!(memo_text("x"), Some("--- task ---\nx\n------------".to_string()));
}

#[test]
fn memo_of_an_empty_summary_is_none() {
    assert_eq!(memo_text(""), None);
}
