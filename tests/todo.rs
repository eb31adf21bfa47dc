use todo_list::input::{index_of_number, parse_command, parse_number, Command};
use todo_list::list::{TaskError, ToDoList};
use todo_list::task::Task;

fn add(list: &mut ToDoList, description: &str, due: Option<&str>) {
    list.add_task(description.to_string(), due.map(|d| d.to_string()));
}

#[test]
fn empty_list_shows_message() {
    let list = ToDoList::new();
    assert_eq!(list.list_tasks(), "No tasks found!\n");
}

#[test]
fn add_then_list_shows_new_task() {
    let mut list = ToDoList::new();
    add(&mut list, "Buy milk", None);
    assert_eq!(list.list_tasks(), "1. [ ] Buy milk - No Due Date\n");
}

#[test]
fn mark_first_of_two() {
    let mut list = ToDoList::new();
    add(&mut list, "Pay rent", Some("2024-05-01"));
    add(&mut list, "Call mom", None);
    assert_eq!(list.mark_complete(0), Ok(()));
    assert_eq!(
        list.list_tasks(),
        "1. [x] Pay rent - 2024-05-01\n2. [ ] Call mom - No Due Date\n"
    );
    assert!(list.tasks[0].completed);
    assert!(!list.tasks[1].completed);
}

#[test]
fn remove_out_of_range_is_refused() {
    let mut list = ToDoList::new();
    add(&mut list, "Pay rent", Some("2024-05-01"));
    add(&mut list, "Call mom", None);
    let before = list.save_text();
    let r = list.remove_task(4);
    assert_eq!(r, Err(TaskError::InvalidIndex));
    assert_eq!(TaskError::InvalidIndex.message(), "Invalid task index!");
    assert_eq!(list.save_text(), before);
    assert_eq!(list.tasks.len(), 2);
}

#[test]
fn remove_in_range_shifts_positions() {
    let mut list = ToDoList::new();
    add(&mut list, "a", None);
    add(&mut list, "b", None);
    add(&mut list, "c", None);
    assert_eq!(list.remove_task(1), Ok(()));
    assert_eq!(list.list_tasks(), "1. [ ] a - No Due Date\n2. [ ] c - No Due Date\n");
}

#[test]
fn mark_out_of_range_is_refused() {
    let mut list = ToDoList::new();
    add(&mut list, "a", None);
    let before = list.save_text();
    assert_eq!(list.mark_complete(1), Err(TaskError::InvalidIndex));
    assert_eq!(list.save_text(), before);
}

#[test]
fn mark_twice_changes_nothing_more() {
    let mut list = ToDoList::new();
    add(&mut list, "a", None);
    add(&mut list, "b", Some("2024-01-02"));
    assert_eq!(list.mark_complete(1), Ok(()));
    let once = list.save_text();
    assert_eq!(list.mark_complete(1), Ok(()));
    assert_eq!(list.save_text(), once);
    assert_eq!(once, "a|false|\nb|true|2024-01-02\n");
}

#[test]
fn adds_keep_order_and_due_dates() {
    let mut list = ToDoList::new();
    add(&mut list, "first", Some("2024-03-04"));
    add(&mut list, "second", None);
    add(&mut list, "third", Some(""));
    assert_eq!(list.tasks.len(), 3);
    assert_eq!(list.tasks[0].description, "first");
    assert_eq!(list.tasks[0].due_date, Some("2024-03-04".to_string()));
    assert_eq!(list.tasks[1].due_date, None);
    assert_eq!(list.tasks[2].due_date, None);
    assert!(list.tasks.iter().all(|t| !t.completed));
    assert_eq!(
        list.list_tasks(),
        "1. [ ] first - 2024-03-04\n2. [ ] second - No Due Date\n3. [ ] third - No Due Date\n"
    );
}

#[test]
fn save_and_load_round_trip() {
    let mut list = ToDoList::new();
    add(&mut list, "Pay rent", Some("2024-05-01"));
    add(&mut list, "Call mom", None);
    list.mark_complete(0).unwrap();
    let text = list.save_text();
    let loaded = ToDoList::from_text(&text);
    assert_eq!(loaded.list_tasks(), list.list_tasks());
    assert_eq!(loaded.save_text(), text);
}

#[test]
fn round_trip_with_delimiters_in_text() {
    let mut list = ToDoList::new();
    add(&mut list, "a|b\\c\nd", Some("x|y"));
    let text = list.save_text();
    assert_eq!(text, "a\\|b\\\\c\\nd|false|x\\|y\n");
    let loaded = ToDoList::from_text(&text);
    assert_eq!(loaded.tasks.len(), 1);
    assert_eq!(loaded.tasks[0].description, "a|b\\c\nd");
    assert_eq!(loaded.tasks[0].due_date, Some("x|y".to_string()));
    assert!(!loaded.tasks[0].completed);
}

#[test]
fn load_skips_malformed_lines() {
    let list = ToDoList::from_text("only one field\nx|true|\na|b|c|d\ny|maybe|2024-01-01");
    assert_eq!(list.tasks.len(), 2);
    assert_eq!(list.tasks[0].description, "x");
    assert!(list.tasks[0].completed);
    assert_eq!(list.tasks[0].due_date, None);
    assert_eq!(list.tasks[1].description, "y");
    assert!(!list.tasks[1].completed);
    assert_eq!(list.tasks[1].due_date, Some("2024-01-01".to_string()));
}

#[test]
fn load_of_empty_text_is_empty() {
    let list = ToDoList::from_text("");
    assert!(list.tasks.is_empty());
}

#[test]
fn load_text_appends() {
    let mut list = ToDoList::new();
    add(&mut list, "kept", None);
    list.load_text("new|true|\n");
    assert_eq!(list.list_tasks(), "1. [ ] kept - No Due Date\n2. [x] new - No Due Date\n");
}

#[test]
fn filter_same_due_date() {
    let mut list = ToDoList::new();
    add(&mut list, "Submit report", Some("2024-05-01"));
    add(&mut list, "Clean desk", Some("2024-05-01"));
    let hits = list.filter_by_due_date("2024-05-01");
    assert_eq!(hits, vec![0, 1]);
    assert_eq!(
        list.listing(&hits),
        "1. [ ] Submit report - 2024-05-01\n2. [ ] Clean desk - 2024-05-01\n"
    );
    let none = list.filter_by_due_date("2099-01-01");
    assert!(none.is_empty());
}

#[test]
fn filter_and_search_leave_list_unchanged() {
    let mut list = ToDoList::new();
    add(&mut list, "Buy milk", Some("2024-05-01"));
    add(&mut list, "Walk dog", None);
    let before = list.save_text();
    let _ = list.filter_by_due_date("2024-05-01");
    let _ = list.filter_by_due_date("nope");
    let _ = list.search_tasks("milk");
    let _ = list.search_tasks("zzz");
    assert_eq!(list.save_text(), before);
}

#[test]
fn search_is_case_sensitive_substring() {
    let mut list = ToDoList::new();
    add(&mut list, "Buy milk", None);
    add(&mut list, "buy bread", None);
    add(&mut list, "Walk", None);
    assert_eq!(list.search_tasks("Buy"), vec![0]);
    assert_eq!(list.search_tasks("uy"), vec![0, 1]);
    assert_eq!(list.search_tasks("k"), vec![0, 2]);
    assert_eq!(list.search_tasks("milk and more"), Vec::<usize>::new());
    assert_eq!(list.search_tasks(""), vec![0, 1, 2]);
}

#[test]
fn sort_puts_incomplete_first_and_is_stable() {
    let mut list = ToDoList::new();
    add(&mut list, "a", None);
    add(&mut list, "b", None);
    add(&mut list, "c", None);
    add(&mut list, "d", None);
    list.mark_complete(0).unwrap();
    list.mark_complete(2).unwrap();
    list.sort_by_completion();
    let once = list.save_text();
    assert_eq!(once, "b|false|\nd|false|\na|true|\nc|true|\n");
    list.sort_by_completion();
    assert_eq!(list.save_text(), once);
}

#[test]
fn sort_empty_list() {
    let mut list = ToDoList::new();
    list.sort_by_completion();
    assert!(list.tasks.is_empty());
}

#[test]
fn mark_all_complete_marks_every_task() {
    let mut list = ToDoList::new();
    add(&mut list, "a", None);
    add(&mut list, "b", Some("2024-02-02"));
    list.mark_all_complete();
    assert_eq!(list.list_tasks(), "1. [x] a - No Due Date\n2. [x] b - 2024-02-02\n");
    let mut empty = ToDoList::new();
    empty.mark_all_complete();
    assert!(empty.tasks.is_empty());
}

#[test]
fn task_new_and_display() {
    let mut t = Task::new("Read".to_string(), Some(String::new()));
    assert_eq!(t.due_date, None);
    assert!(!t.completed);
    assert_eq!(t.display(), "[ ] Read - No Due Date");
    t.mark_complete();
    assert_eq!(t.display(), "[x] Read - No Due Date");
    let u = Task::new("Write".to_string(), Some("2030-12-31".to_string()));
    assert_eq!(u.display(), "[ ] Write - 2030-12-31");
}

#[test]
fn listing_numbers_past_nine() {
    let mut list = ToDoList::new();
    for i in 0..12 {
        add(&mut list, &format!("t{}", i), None);
    }
    let text = list.listing(&vec![11, 9]);
    assert_eq!(text, "12. [ ] t11 - No Due Date\n10. [ ] t9 - No Due Date\n");
}

#[test]
fn parse_number_cases() {
    assert_eq!(parse_number("42"), Some(42));
    assert_eq!(parse_number("0"), Some(0));
    assert_eq!(parse_number("007"), Some(7));
    assert_eq!(parse_number(""), None);
    assert_eq!(parse_number("4a"), None);
    assert_eq!(parse_number("-1"), None);
    assert_eq!(parse_number(" 1"), None);
    assert_eq!(parse_number(&usize::MAX.to_string()), Some(usize::MAX));
    assert_eq!(parse_number("99999999999999999999999999"), None);
}

#[test]
fn parse_command_cases() {
    assert_eq!(parse_command("1"), Some(Command::Add));
    assert_eq!(parse_command("4"), Some(Command::MarkComplete));
    assert_eq!(parse_command("10"), Some(Command::Exit));
    assert_eq!(parse_command("11"), None);
    assert_eq!(parse_command("0"), None);
    assert_eq!(parse_command("add"), None);
}

#[test]
fn task_numbers_to_positions() {
    assert_eq!(index_of_number(0), None);
    assert_eq!(index_of_number(1), Some(0));
    assert_eq!(index_of_number(5), Some(4));
}

#[test]
fn unpaired_backslash_ends_its_line() {
    let list = ToDoList::from_text("\\\n||\n");
    assert_eq!(list.tasks.len(), 1);
    assert_eq!(list.tasks[0].description, "");
    assert!(!list.tasks[0].completed);
    assert_eq!(list.tasks[0].due_date, None);
}

#[test]
fn malformed_line_with_backslash_does_not_join_next() {
    let list = ToDoList::from_text("Buy milk\\\nPay rent|false|\n");
    assert_eq!(list.tasks.len(), 1);
    assert_eq!(list.tasks[0].description, "Pay rent");
    assert_eq!(list.list_tasks(), "1. [ ] Pay rent - No Due Date\n");
}

#[test]
fn unknown_escape_reads_as_the_character() {
    let list = ToDoList::from_text("a\\xb|true|\n");
    assert_eq!(list.tasks.len(), 1);
    assert_eq!(list.tasks[0].description, "axb");
    assert!(list.tasks[0].completed);
}
