use todolist::Cmd;
use todolist::Importance;
use todolist::PromptStep;
use todolist::Task;
use todolist::add_task;
use todolist::complete_reply;
use todolist::confirmation_message;
use todolist::importance_of_token;
use todolist::load_from_text;
use todolist::parse_cmd;
use todolist::parse_tasks;
use todolist::prompt_step;
use todolist::read_reply;
use todolist::save_to_text;
use todolist::serialize_tasks;
use todolist::task_from_input;

fn task(desc: &str, completed: bool, importance: Importance) -> Task {
    Task { description: desc.to_string(), completed, importance }
}

fn assert_task_eq(t: &Task, desc: &str, completed: bool, importance: Importance) {
    assert_eq!(t.description, desc);
    assert_eq!(t.completed, completed);
    assert_eq!(t.importance, importance);
}

#[test]
fn fresh_add() {
    // Starting with no content: adding "Buy milk" with importance "high".
    let data = "";
    let mut list = load_from_text(data).unwrap();
    assert_eq!(list.len(), 0);
    let imp = match prompt_step("high\n") {
        PromptStep::Accept(imp) => imp,
        PromptStep::Reject(_) => panic!("high must be accepted"),
    };
    let t = task_from_input("Buy milk\n", imp);
    add_task(&mut list, t);
    let json = save_to_text(&list);
    assert_eq!(
        json,
        "[\n  {\n    \"description\": \"Buy milk\",\n    \"completed\": false,\n    \"importance\": \"HIGH\"\n  }\n]"
    );
    let back = parse_tasks(&json).unwrap();
    assert_eq!(back.len(), 1);
    assert_task_eq(&back[0], "Buy milk", false, Importance::High);
}

#[test]
fn append_to_existing() {
    let pre = "[{\"description\":\"A\",\"completed\":false,\"importance\":\"LOW\"}]";
    let mut list = load_from_text(pre).unwrap();
    assert_eq!(list.len(), 1);
    assert_task_eq(&list[0], "A", false, Importance::Low);
    let imp = match prompt_step("MID\n") {
        PromptStep::Accept(imp) => imp,
        PromptStep::Reject(_) => panic!("MID must be accepted"),
    };
    let t = task_from_input("B\n", imp);
    add_task(&mut list, t);
    assert_eq!(list.len(), 2);
    assert_task_eq(&list[0], "A", false, Importance::Low);
    assert_task_eq(&list[1], "B", false, Importance::Mid);
    let back = parse_tasks(&save_to_text(&list)).unwrap();
    assert_eq!(back.len(), 2);
    assert_task_eq(&back[1], "B", false, Importance::Mid);
}

#[test]
fn importance_reprompt() {
    match prompt_step("URGENT\n") {
        PromptStep::Accept(_) => panic!("URGENT is not an option"),
        PromptStep::Reject(msg) => {
            assert_eq!(msg, "URGENT was not an option. Choose from HIGH, MID, or LOW");
        },
    }
    let imp = match prompt_step("low\n") {
        PromptStep::Accept(imp) => imp,
        PromptStep::Reject(_) => panic!("low must be accepted"),
    };
    assert_eq!(imp, Importance::Low);
    let mut list = load_from_text("").unwrap();
    add_task(&mut list, task("task", false, imp));
    assert_eq!(list.len(), 1);
}

#[test]
fn empty_read() {
    assert_eq!(read_reply(""), "Your todo list is empty. Great job partner.");
    assert_eq!(load_from_text("").unwrap().len(), 0);
}

#[test]
fn nonempty_read() {
    let list = vec![task("A", false, Importance::Low)];
    let text = serialize_tasks(&list);
    assert_eq!(read_reply(&text), text);
}

#[test]
fn complete_is_a_stub() {
    assert_eq!(complete_reply(), "Task complete");
    assert_eq!(parse_cmd("complete"), Some(Cmd::Complete));
}

#[test]
fn importance_normalization() {
    assert_eq!(importance_of_token("HIGH"), Some(Importance::High));
    assert_eq!(importance_of_token("  high  "), Some(Importance::High));
    assert_eq!(importance_of_token("Mid\n"), Some(Importance::Mid));
    assert_eq!(importance_of_token("\tlow\r\n"), Some(Importance::Low));
    assert_eq!(importance_of_token(""), None);
    assert_eq!(importance_of_token("urgent"), None);
    assert_eq!(importance_of_token("HIGHER"), None);
    assert_eq!(importance_of_token("HI GH"), None);
}

#[test]
fn descriptions_are_trimmed() {
    let t = task_from_input("  spaced out \n", Importance::Mid);
    assert_task_eq(&t, "spaced out", false, Importance::Mid);
    let t2 = task_from_input("\n", Importance::Low);
    assert_task_eq(&t2, "", false, Importance::Low);
}

#[test]
fn escaping_round_trip() {
    let desc = "a \"quoted\" \\ back\\slash\ttab\nnewline \u{1} ctl";
    let list = vec![task(desc, true, Importance::High)];
    let text = serialize_tasks(&list);
    let back = parse_tasks(&text).unwrap();
    assert_eq!(back.len(), 1);
    assert_task_eq(&back[0], desc, true, Importance::High);
    assert!(text.contains("\\\"quoted\\\""));
    assert!(text.contains("\\t"));
    assert!(text.contains("\\n"));
    assert!(text.contains("\\u0001"));
}

#[test]
fn empty_list_serializes_to_brackets() {
    let list: Vec<Task> = Vec::new();
    assert_eq!(serialize_tasks(&list), "[]");
    assert_eq!(parse_tasks("[]").unwrap().len(), 0);
    assert_eq!(parse_tasks("  [ ]  ").unwrap().len(), 0);
}

#[test]
fn field_order_is_free_on_read() {
    let text = "[{\"importance\":\"MID\",\"completed\":true,\"description\":\"x\"}]";
    let back = parse_tasks(text).unwrap();
    assert_eq!(back.len(), 1);
    assert_task_eq(&back[0], "x", true, Importance::Mid);
}

#[test]
fn escape_sequences_are_read() {
    let text = "[{\"description\":\"a\\tb\\u0002c\\/d\",\"completed\":false,\"importance\":\"LOW\"}]";
    let back = parse_tasks(text).unwrap();
    assert_eq!(back[0].description, "a\tb\u{2}c/d");
}

#[test]
fn parse_errors() {
    assert!(parse_tasks("[").is_err());
    assert!(parse_tasks("not json").is_err());
    assert!(parse_tasks("{}").is_err());
    assert!(parse_tasks("[{}]").is_err());
    // a field missing
    assert!(parse_tasks("[{\"description\":\"A\",\"completed\":false}]").is_err());
    // a field repeated
    assert!(
        parse_tasks(
            "[{\"description\":\"A\",\"description\":\"B\",\"importance\":\"LOW\"}]"
        ).is_err()
    );
    // an unknown key
    assert!(
        parse_tasks(
            "[{\"description\":\"A\",\"completed\":false,\"priority\":\"LOW\"}]"
        ).is_err()
    );
    // an unknown importance label
    assert!(
        parse_tasks(
            "[{\"description\":\"A\",\"completed\":false,\"importance\":\"URGENT\"}]"
        ).is_err()
    );
    // trailing content
    assert!(parse_tasks("[] x").is_err());
    // load shares the parser's judgement on non-empty text
    assert!(load_from_text("[").is_err());
}

#[test]
fn subcommands() {
    assert_eq!(parse_cmd("add"), Some(Cmd::Add));
    assert_eq!(parse_cmd("read"), Some(Cmd::Read));
    assert_eq!(parse_cmd("complete"), Some(Cmd::Complete));
    assert_eq!(parse_cmd("drop"), None);
    assert_eq!(parse_cmd(""), None);
}

#[test]
fn confirmation_line() {
    let t = task("Buy milk", false, Importance::High);
    assert_eq!(
        confirmation_message(&t),
        "Adding task with description: 'Buy milk' and importance HIGH"
    );
}

#[test]
fn labels() {
    assert_eq!(Importance::High.label(), "HIGH");
    assert_eq!(Importance::Mid.label(), "MID");
    assert_eq!(Importance::Low.label(), "LOW");
}
