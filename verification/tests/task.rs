use ado::error::Error;
use ado::status::Status;
use ado::task::{render, BasicTask, Task};

#[test]
fn new_task_is_open() {
    let task = BasicTask::new("Buy milk");
    assert_eq!(task.status, Status::Open);
    assert_eq!(task.name, "Buy milk");
}

#[test]
fn goto_next_status_walks_forward_and_stops() {
    let mut task = BasicTask { status: Status::Wont, name: String::from("t") };
    assert_eq!(task.goto_next_status(), Ok(()));
    assert_eq!(task.status, Status::Open);
    assert_eq!(task.goto_next_status(), Ok(()));
    assert_eq!(task.status, Status::Done);
    assert_eq!(task.goto_next_status(), Err(Error::AlreadyDone));
    assert_eq!(task.status, Status::Done);
    assert_eq!(task.name, "t");
}

#[test]
fn goto_next_back_status_walks_back_and_stops() {
    let mut task = BasicTask { status: Status::Done, name: String::from("t") };
    assert_eq!(task.goto_next_back_status(), Ok(()));
    assert_eq!(task.status, Status::Open);
    assert_eq!(task.goto_next_back_status(), Ok(()));
    assert_eq!(task.status, Status::Wont);
    assert_eq!(task.goto_next_back_status(), Err(Error::AlreadyWont));
    assert_eq!(task.status, Status::Wont);
    assert_eq!(task.name, "t");
}

#[test]
fn projection_copies_name_and_status() {
    let task = BasicTask { status: Status::Done, name: String::from("Write report") };
    let copy = task.projection();
    assert_eq!(copy.status, Status::Done);
    assert_eq!(copy.name, "Write report");
}

#[test]
fn render_unselected_lines() {
    let open = BasicTask { status: Status::Open, name: String::from("A") };
    let done = BasicTask { status: Status::Done, name: String::from("B") };
    let wont = BasicTask { status: Status::Wont, name: String::from("C") };
    assert_eq!(render(&open, false), "     [ ]       A");
    assert_eq!(render(&done, false), "           [x] B");
    assert_eq!(render(&wont, false), "----           C");
}

#[test]
fn render_selected_lines() {
    let open = BasicTask { status: Status::Open, name: String::from("A") };
    let done = BasicTask { status: Status::Done, name: String::from("B") };
    let wont = BasicTask { status: Status::Wont, name: String::from("C") };
    assert_eq!(render(&open, true), "     [ ]      >A");
    assert_eq!(render(&done, true), "           [x]>B");
    assert_eq!(render(&wont, true), "----          >C");
}

#[test]
fn render_keeps_the_name_verbatim() {
    let task = BasicTask { status: Status::Open, name: String::from("  two  words ü ") };
    assert_eq!(render(&task, false), "     [ ]         two  words ü ");
    let nameless = BasicTask { status: Status::Open, name: String::new() };
    assert_eq!(render(&nameless, true), "     [ ]      >");
}
