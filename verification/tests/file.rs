use ado::codec::{decimal_len, decode, encode, name_of, parse_id, path_of};
use ado::error::Error;
use ado::file::{ids, is_ascending, FileTask, FileTodoList, FileWrite};
use ado::status::{Status, Transition};
use ado::store::TodoList;
use ado::task::{BasicTask, Task};

fn names(list: &[&str]) -> Vec<String> {
    list.iter().map(|name| String::from(*name)).collect()
}

fn listed(store: &FileTodoList) -> Vec<(usize, String, Status)> {
    store
        .enumerate()
        .into_iter()
        .map(|(id, task)| {
            let plain = task.projection();
            (id, plain.name, plain.status)
        })
        .collect()
}

fn message(error: Error) -> String {
    match error {
        Error::External(cause) => cause,
        other => panic!("not an outside failure: {:?}", other),
    }
}

#[test]
fn entry_names_are_five_digits_wide() {
    assert_eq!(name_of(0), "00000");
    assert_eq!(name_of(7), "00007");
    assert_eq!(name_of(42), "00042");
    assert_eq!(name_of(99999), "99999");
}

#[test]
fn entry_names_grow_past_five_digits() {
    assert_eq!(name_of(100000), "100000");
    assert_eq!(name_of(1234567), "1234567");
    assert_eq!(name_of(usize::MAX), format!("{}", usize::MAX));
}

#[test]
fn decimal_len_counts_digits() {
    assert_eq!(decimal_len(0), 1);
    assert_eq!(decimal_len(9), 1);
    assert_eq!(decimal_len(10), 2);
    assert_eq!(decimal_len(99999), 5);
    assert_eq!(decimal_len(100000), 6);
    assert_eq!(decimal_len(usize::MAX), format!("{}", usize::MAX).len());
}

#[test]
fn file_name_is_below_the_directory() {
    assert_eq!(FileTodoList::file_name("./.ado", 7), "./.ado/00007");
    assert_eq!(FileTodoList::file_name("./.ado/", 1), "./.ado//00001");
    assert_eq!(FileTodoList::file_name("", 12), "/00012");
    assert_eq!(path_of("tasks", 123456), "tasks/123456");
}

#[test]
fn parse_id_reads_decimal_names() {
    assert_eq!(parse_id("00007"), Some(7));
    assert_eq!(parse_id("7"), Some(7));
    assert_eq!(parse_id("0"), Some(0));
    assert_eq!(parse_id("00000"), Some(0));
    assert_eq!(parse_id("123456"), Some(123456));
    assert_eq!(parse_id("+12"), Some(12));
    assert_eq!(parse_id(&format!("{}", usize::MAX)), Some(usize::MAX));
}

#[test]
fn parse_id_passes_over_other_names() {
    assert_eq!(parse_id(""), None);
    assert_eq!(parse_id("+"), None);
    assert_eq!(parse_id("-1"), None);
    assert_eq!(parse_id("++1"), None);
    assert_eq!(parse_id("1+"), None);
    assert_eq!(parse_id("12a"), None);
    assert_eq!(parse_id("a12"), None);
    assert_eq!(parse_id(" 12"), None);
    assert_eq!(parse_id("12 "), None);
    assert_eq!(parse_id("1.5"), None);
    assert_eq!(parse_id("notes.txt"), None);
    assert_eq!(parse_id("١٢"), None);
    assert_eq!(parse_id("18446744073709551616"), None);
    assert_eq!(parse_id("99999999999999999999999999"), None);
}

#[test]
fn parse_id_agrees_with_the_names_written() {
    for id in [0usize, 1, 9, 10, 99, 12345, 99999, 100000, 4294967295, usize::MAX] {
        assert_eq!(parse_id(&name_of(id)), Some(id));
    }
}

#[test]
fn ids_are_sorted_and_skip_strangers() {
    let found = ids(&names(&["00003", "readme", "00001", ".hidden", "00002", "", "7x"]));
    assert_eq!(found, vec![1, 2, 3]);
    assert_eq!(ids(&names(&[])), Vec::<usize>::new());
    assert_eq!(ids(&names(&["x", "y"])), Vec::<usize>::new());
    assert_eq!(ids(&names(&["10", "9", "100", "+5"])), vec![5, 9, 10, 100]);
}

#[test]
fn ids_keep_what_is_named_twice() {
    let found = ids(&names(&["1", "00001", "2"]));
    assert_eq!(found, vec![1, 1, 2]);
    assert!(!is_ascending(&found));
}

#[test]
fn is_ascending_is_strict() {
    assert!(is_ascending(&vec![]));
    assert!(is_ascending(&vec![5]));
    assert!(is_ascending(&vec![1, 2, 3]));
    assert!(is_ascending(&vec![1, 5, 9, 100]));
    assert!(!is_ascending(&vec![1, 1]));
    assert!(!is_ascending(&vec![2, 1]));
    assert!(!is_ascending(&vec![1, 2, 3, 3]));
    assert!(!is_ascending(&vec![3, 1, 2]));
    assert!(!is_ascending(&vec![1, 3, 2, 4]));
}

#[test]
fn encode_writes_two_lines() {
    let task = BasicTask { status: Status::Open, name: String::from("Buy milk") };
    assert_eq!(encode(&task), "Buy milk\nOpen");
    let task = BasicTask { status: Status::Done, name: String::from("x") };
    assert_eq!(encode(&task), "x\nDone");
    let task = BasicTask { status: Status::Wont, name: String::new() };
    assert_eq!(encode(&task), "\nWont");
}

#[test]
fn decode_reads_two_lines() {
    let task = decode("Buy milk\nOpen").unwrap();
    assert_eq!(task.name, "Buy milk");
    assert_eq!(task.status, Status::Open);
    let task = decode("ü ber\nDone").unwrap();
    assert_eq!(task.name, "ü ber");
    assert_eq!(task.status, Status::Done);
    let task = decode("\nWont").unwrap();
    assert_eq!(task.name, "");
    assert_eq!(task.status, Status::Wont);
}

#[test]
fn decode_refuses_other_contents() {
    assert!(decode("").is_none());
    assert!(decode("Buy milk").is_none());
    assert!(decode("Buy milk\n").is_none());
    assert!(decode("Buy milk\nopen").is_none());
    assert!(decode("Buy milk\nOpen\n").is_none());
    assert!(decode("Buy milk\nOpen ").is_none());
    assert!(decode("Buy\nmilk\nOpen").is_none());
    assert!(decode("Buy milk\n\nOpen").is_none());
    assert!(decode("Buy milk\r\nOpen\r").is_none());
    assert!(decode("Open").is_none());
}

#[test]
fn decode_undoes_encode() {
    for status in [Status::Open, Status::Done, Status::Wont] {
        for name in ["", "a", "Buy milk", "tab\there", "ünïcödé", "Open"] {
            let task = BasicTask { status, name: String::from(name) };
            let back = decode(&encode(&task)).unwrap();
            assert_eq!(back.name, name);
            assert_eq!(back.status, status);
        }
    }
}

#[test]
fn file_task_saves_to_its_own_file() {
    let inner = BasicTask { status: Status::Done, name: String::from("Ship it") };
    let task = FileTask::new(inner, String::from("dir/00004"));
    assert_eq!(task.file_name(), "dir/00004");
    let FileWrite { file_name, content } = task.save();
    assert_eq!(file_name, "dir/00004");
    assert_eq!(content, "Ship it\nDone");
}

#[test]
fn file_task_moves_like_its_inner_task() {
    let mut task = FileTask::new(BasicTask::new("t"), String::from("dir/00001"));
    assert_eq!(task.goto_next_status(), Ok(()));
    assert_eq!(task.projection().status, Status::Done);
    assert_eq!(task.save().content, "t\nDone");
    assert_eq!(task.goto_next_status(), Err(Error::AlreadyDone));
    assert_eq!(task.goto_next_back_status(), Ok(()));
    assert_eq!(task.goto_next_back_status(), Ok(()));
    assert_eq!(task.goto_next_back_status(), Err(Error::AlreadyWont));
    assert_eq!(task.projection().status, Status::Wont);
    assert_eq!(task.file_name(), "dir/00001");
    assert_eq!(task.save().content, "t\nWont");
}

#[test]
fn save_map_err_wraps_the_cause() {
    let task = FileTask::new(BasicTask::new("t"), String::from("dir/00001"));
    assert_eq!(task.save_map_err(Ok(())), Ok(()));
    assert_eq!(
        task.save_map_err(Err(String::from("permission denied"))),
        Err(Error::External(String::from("permission denied")))
    );
}

#[test]
fn load_reads_one_task() {
    let task = FileTodoList::load("dir", 3, "Buy milk\nDone").unwrap();
    assert_eq!(task.file_name(), "dir/00003");
    assert_eq!(task.projection().name, "Buy milk");
    assert_eq!(task.projection().status, Status::Done);
}

#[test]
fn load_fails_on_a_malformed_file() {
    let error = FileTodoList::load("dir", 3, "Buy milk\nMaybe").err().unwrap();
    assert_eq!(message(error), "The task file is malformed");
    assert!(FileTodoList::load("dir", 3, "").is_err());
}

#[test]
fn empty_directory_starts_at_one() {
    let mut store = FileTodoList::new("dir", vec![], &vec![]).unwrap();
    assert_eq!(store.directory(), "dir");
    assert_eq!(store.next_id(), 1);
    assert!(store.ids().is_empty());
    assert_eq!(store.create("A"), Ok(1));
    assert_eq!(store.create("B"), Ok(2));
    assert_eq!(store.next_id(), 3);
}

#[test]
fn new_loads_every_file() {
    let contents = names(&["A\nOpen", "B\nDone", "C\nWont"]);
    let store = FileTodoList::new("dir", vec![2, 5, 9], &contents).unwrap();
    assert_eq!(
        listed(&store),
        vec![
            (2, String::from("A"), Status::Open),
            (5, String::from("B"), Status::Done),
            (9, String::from("C"), Status::Wont),
        ]
    );
    assert_eq!(store.next_id(), 10);
    assert_eq!(store.find(5).unwrap().file_name(), "dir/00005");
}

#[test]
fn new_fails_on_a_malformed_file() {
    let contents = names(&["A\nOpen", "B", "C\nWont"]);
    let error = FileTodoList::new("dir", vec![1, 2, 3], &contents).err().unwrap();
    assert_eq!(message(error), "The task file is malformed");
}

#[test]
fn load_all_fills_a_scanned_store() {
    let mut store = FileTodoList::scanned("dir", vec![4, 6]);
    assert_eq!(store.load_all(&names(&["A\nOpen", "B\nDone"])), Ok(()));
    assert_eq!(
        listed(&store),
        vec![(4, String::from("A"), Status::Open), (6, String::from("B"), Status::Done)]
    );
    assert_eq!(store.next_id(), 7);
}

#[test]
fn load_all_leaves_nothing_loaded_when_it_fails() {
    let mut store = FileTodoList::scanned("dir", vec![4, 6]);
    let error = store.load_all(&names(&["A\nOpen", "B\nNope"])).err().unwrap();
    assert_eq!(message(error), "The task file is malformed");
    assert_eq!(store.load_all(&names(&["A\nOpen", "B\nDone"])), Ok(()));
    assert_eq!(store.ids(), vec![4, 6]);
}

#[test]
fn creation_names_the_file_to_write_first() {
    let contents = names(&["A\nOpen"]);
    let mut store = FileTodoList::new("dir", vec![41], &contents).unwrap();
    let FileWrite { file_name, content } = store.creation("Buy milk");
    assert_eq!(file_name, "dir/00042");
    assert_eq!(content, "Buy milk\nOpen");
    assert_eq!(store.ids(), vec![41]);
    assert_eq!(store.create("Buy milk"), Ok(42));
    assert_eq!(store.find(42).unwrap().file_name(), "dir/00042");
    assert_eq!(store.find(42).unwrap().save().content, "Buy milk\nOpen");
}

#[test]
fn removal_names_the_file_to_delete_first() {
    let contents = names(&["A\nOpen", "B\nOpen"]);
    let mut store = FileTodoList::new("dir", vec![1, 2], &contents).unwrap();
    assert_eq!(store.removal(2), Ok(String::from("dir/00002")));
    assert_eq!(store.removal(3), Err(Error::NoSuchTask));
    assert_eq!(store.ids(), vec![1, 2]);
    let gone = store.remove(2).unwrap();
    assert_eq!(gone.file_name(), "dir/00002");
    assert_eq!(store.removal(2), Err(Error::NoSuchTask));
    assert_eq!(store.remove(2).err(), Some(Error::NoSuchTask));
}

#[test]
fn round_trip_through_the_files() {
    let mut store = FileTodoList::new("dir", vec![], &vec![]).unwrap();
    let written = store.creation("Buy milk");
    let id = store.create("Buy milk").unwrap();
    assert_eq!(written.file_name, FileTodoList::file_name("dir", id));

    let entry = written.file_name.strip_prefix("dir/").unwrap();
    let found = ids(&names(&[entry]));
    assert_eq!(found, vec![id]);
    let again = FileTodoList::new("dir", found, &vec![written.content]).unwrap();
    let task = again.find(id).unwrap();
    assert_eq!(task.projection().name, "Buy milk");
    assert_eq!(task.projection().status, Status::Open);
    assert_eq!(again.next_id(), id + 1);
}

#[test]
fn three_tasks_advance_and_remove() {
    let mut store = FileTodoList::new("dir", vec![], &vec![]).unwrap();
    assert_eq!(store.create("A"), Ok(1));
    assert_eq!(store.create("B"), Ok(2));
    assert_eq!(store.create("C"), Ok(3));
    assert_eq!(
        listed(&store),
        vec![
            (1, String::from("A"), Status::Open),
            (2, String::from("B"), Status::Open),
            (3, String::from("C"), Status::Open),
        ]
    );
    assert_eq!(store.find_mut(2).unwrap().goto_next_status(), Ok(()));
    assert_eq!(store.find(2).unwrap().projection().status, Status::Done);
    assert_eq!(store.find(2).unwrap().save().content, "B\nDone");
    assert_eq!(store.removal(1), Ok(String::from("dir/00001")));
    let gone = store.remove(1).unwrap();
    assert_eq!(gone.projection().name, "A");
    assert_eq!(
        listed(&store),
        vec![(2, String::from("B"), Status::Done), (3, String::from("C"), Status::Open)]
    );
}

#[test]
fn file_store_does_not_issue_an_id_again() {
    let mut store = FileTodoList::new("dir", vec![], &vec![]).unwrap();
    store.create("A").unwrap();
    store.create("B").unwrap();
    store.create("C").unwrap();
    store.remove(3).unwrap();
    assert_eq!(store.create("D"), Ok(4));
    assert_eq!(store.ids(), vec![1, 2, 4]);
    store.remove(1).unwrap();
    store.remove(2).unwrap();
    store.remove(4).unwrap();
    assert_eq!(store.create("E"), Ok(5));
}

#[test]
fn file_store_finds_nothing_under_a_strange_id() {
    let contents = names(&["A\nOpen", "B\nOpen", "C\nOpen"]);
    let mut store = FileTodoList::new("dir", vec![10, 20, 30], &contents).unwrap();
    for id in [0usize, 9, 11, 19, 21, 29, 31, usize::MAX] {
        assert_eq!(store.find(id).err(), Some(Error::NoSuchTask));
        assert!(store.find_mut(id).is_err());
        assert_eq!(store.remove(id).err(), Some(Error::NoSuchTask));
    }
    for id in [10usize, 20, 30] {
        assert!(store.find(id).is_ok());
    }
    assert_eq!(store.ids(), vec![10, 20, 30]);
}

#[test]
fn file_store_hands_its_tasks_out() {
    let contents = names(&["A\nOpen", "B\nDone"]);
    let store = FileTodoList::new("dir", vec![1, 2], &contents).unwrap();
    let sorted: Vec<String> = store.sorted().into_iter().map(|t| t.projection().name).collect();
    assert_eq!(sorted, vec!["A", "B"]);
    let tasks = TodoList::into_iter(store);
    assert_eq!(tasks.len(), 2);
    assert_eq!(tasks[1].projection().status, Status::Done);
}

#[test]
fn file_store_applies_a_move() {
    let contents = names(&["A\nOpen", "B\nWont"]);
    let mut store = FileTodoList::new("dir", vec![1, 2], &contents).unwrap();
    assert_eq!(store.apply(2, Transition::Advance), Ok(()));
    assert_eq!(store.find(2).unwrap().save().content, "B\nOpen");
    assert_eq!(store.find(2).unwrap().file_name(), "dir/00002");
    assert_eq!(store.apply(1, Transition::Retreat), Ok(()));
    assert_eq!(store.apply(1, Transition::Retreat), Err(Error::AlreadyWont));
    assert_eq!(store.apply(3, Transition::Retreat), Err(Error::NoSuchTask));
    assert_eq!(
        listed(&store),
        vec![(1, String::from("A"), Status::Wont), (2, String::from("B"), Status::Open)]
    );
}

#[test]
fn saving_names_the_file_to_write_after_a_change() {
    let contents = names(&["A\nOpen", "B\nOpen"]);
    let mut store = FileTodoList::new("dir", vec![3, 8], &contents).unwrap();
    store.apply(8, Transition::Advance).unwrap();
    let FileWrite { file_name, content } = store.saving(8).unwrap();
    assert_eq!(file_name, "dir/00008");
    assert_eq!(content, "B\nDone");
    let FileWrite { file_name, content } = store.saving(3).unwrap();
    assert_eq!(file_name, "dir/00003");
    assert_eq!(content, "A\nOpen");
    assert_eq!(store.saving(4).err(), Some(Error::NoSuchTask));
}
