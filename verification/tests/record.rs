use rofi_taskwarrior::command::Mode;
use rofi_taskwarrior::document::{Document, Numeral};
use rofi_taskwarrior::error::Error;
use rofi_taskwarrior::taskwarrior::{is_named_key, Annotation, Carried, Status, Task};
use rofi_taskwarrior::timestamp::Timestamp;
use serde_json::Value;

const FULL: &str = r#"[{"id":7,"description":"Buy milk","entry":"20240101T120000Z",
"modified":"20240102T130000Z","status":"pending","uuid":"a1b2c3","urgency":3.1,
"project":"home","tags":["shop","food"],"due":"20240301T000000Z",
"annotations":[{"entry":"20240103T000000Z","description":"ask for oat milk"}],
"depends":["x","y"],"priority":"H","estimate":2.5,"nested":{"a":[1,-2,null,true,"s"]}}]"#;

const BARE: &str = r#"[{"id":1,"description":"d","entry":"20240101T120000Z",
"modified":"20240101T120000Z","status":"waiting","uuid":"u","urgency":0}]"#;

fn stamp(y: u16, mo: u8, d: u8, h: u8, mi: u8, s: u8) -> Timestamp {
    Timestamp::new(y, mo, d, h, mi, s).unwrap()
}

fn object(bytes: &[u8]) -> serde_json::Map<String, Value> {
    match serde_json::from_slice::<Value>(bytes).unwrap() {
        Value::Object(map) => map,
        other => panic!("no object: {:?}", other),
    }
}

fn first_object(text: &str) -> serde_json::Map<String, Value> {
    match serde_json::from_str::<Value>(text).unwrap() {
        Value::Array(mut items) => match items.remove(0) {
            Value::Object(map) => map,
            other => panic!("no object: {:?}", other),
        },
        other => panic!("no array: {:?}", other),
    }
}

fn written(task: &Task) -> serde_json::Map<String, Value> {
    let call = task.update().unwrap();
    object(&call.input)
}

#[test]
fn every_known_field_is_read() {
    let task = Task::from_id(FULL.as_bytes()).unwrap();
    assert_eq!(task.id, 7);
    assert_eq!(task.description, "Buy milk");
    assert_eq!(task.status, Status::Pending);
    assert_eq!(task.project, Some("home".to_string()));
    assert_eq!(task.start, None);
    assert_eq!(task.due, Some(stamp(2024, 3, 1, 0, 0, 0)));
    assert_eq!(task.end, None);
    assert_eq!(task.entry, stamp(2024, 1, 1, 12, 0, 0));
    assert_eq!(task.modified, stamp(2024, 1, 2, 13, 0, 0));
    assert_eq!(task.until, None);
    assert_eq!(task.mask, None);
    assert_eq!(task.imask, None);
    assert_eq!(task.parent, None);
    assert_eq!(task.recur, None);
    assert_eq!(task.tags, vec!["shop".to_string(), "food".to_string()]);
    assert_eq!(task.uuid, "a1b2c3");
    assert_eq!(task.urgency, Numeral::Real("3.1".to_string()));
    assert_eq!(
        task.annotations,
        vec![Annotation {
            entry: stamp(2024, 1, 3, 0, 0, 0),
            description: "ask for oat milk".to_string()
        }]
    );
}

#[test]
fn unknown_fields_are_kept_apart() {
    let task = Task::from_id(FULL.as_bytes()).unwrap();
    let keys: Vec<&str> = task.extra.iter().map(|(k, _)| k.as_str()).collect();
    assert_eq!(keys, vec!["depends", "estimate", "nested", "priority"]);
    assert_eq!(task.extra[3].1, Document::Text("H".to_string()));
    assert_eq!(
        task.extra[1].1,
        Document::Number(Numeral::Real("2.5".to_string()))
    );
}

#[test]
fn fields_that_may_be_missing_are_missing() {
    let task = Task::from_id(BARE.as_bytes()).unwrap();
    assert_eq!(task.project, None);
    assert_eq!(task.tags, Vec::<String>::new());
    assert_eq!(task.annotations, Vec::<Annotation>::new());
    assert_eq!(task.urgency, Numeral::Unsigned(0));
    assert_eq!(task.status, Status::Waiting);
    assert!(task.extra.is_empty());
}

#[test]
fn null_stands_for_a_missing_field() {
    let text = r#"[{"id":1,"description":"d","entry":"20240101T120000Z",
    "modified":"20240101T120000Z","status":"deleted","uuid":"u","urgency":1,
    "project":null,"start":null,"due":null,"end":null,"until":null,"mask":null,
    "imask":null,"parent":null,"recur":null}]"#;
    let task = Task::from_id(text.as_bytes()).unwrap();
    assert_eq!(task.project, None);
    assert_eq!(task.start, None);
    assert_eq!(task.imask, None);
    assert_eq!(task.recur, None);
    assert_eq!(task.status, Status::Deleted);
}

#[test]
fn each_status_is_read() {
    for (tag, status) in [
        ("pending", Status::Pending),
        ("waiting", Status::Waiting),
        ("deleted", Status::Deleted),
        ("completed", Status::Completed),
        ("recurring", Status::Recurring),
    ] {
        let text = BARE.replace("waiting", tag);
        assert_eq!(Task::from_id(text.as_bytes()).unwrap().status, status);
    }
}

#[test]
fn status_names_and_letters() {
    assert_eq!(Status::Pending.to_string(), "p");
    assert_eq!(Status::Waiting.to_string(), "w");
    assert_eq!(Status::Deleted.to_string(), "X");
    assert_eq!(Status::Completed.to_string(), "C");
    assert_eq!(Status::Recurring.to_string(), "r");
    assert_eq!(Status::Completed.name(), "completed");
    assert_eq!(Status::from_name("recurring"), Some(Status::Recurring));
    assert_eq!(Status::from_name("Pending"), None);
    assert_eq!(Status::from_name(""), None);
}

#[test]
fn malformed_records_are_format_errors() {
    for text in [
        "",
        "{",
        "7",
        "{}",
        "[7]",
        "[{}]",
        r#"[{"id":1}]"#,
        "[1, 2",
    ] {
        assert_eq!(
            Task::all_tasks(text.as_bytes()),
            Err(Error::Format),
            "text {:?}",
            text
        );
    }
}

#[test]
fn a_field_of_the_wrong_kind_is_a_format_error() {
    for (from, to) in [
        (r#""id":1"#, r#""id":"1""#),
        (r#""id":1"#, r#""id":65536"#),
        (r#""id":1"#, r#""id":-1"#),
        (r#""id":1"#, r#""id":1.5"#),
        (r#""id":1"#, r#""id":null"#),
        (r#""description":"d""#, r#""description":null"#),
        (r#""description":"d""#, r#""description":3"#),
        (r#""status":"waiting""#, r#""status":"sleeping""#),
        (r#""status":"waiting""#, r#""status":3"#),
        (r#""uuid":"u""#, r#""uuid":["u"]"#),
        (r#""urgency":0"#, r#""urgency":"high""#),
        (r#""urgency":0"#, r#""urgency":null"#),
        (r#""entry":"20240101T120000Z""#, r#""entry":"2024-01-01""#),
        (r#""entry":"20240101T120000Z""#, r#""entry":null"#),
        (r#""urgency":0"#, r#""urgency":0,"start":"soon""#),
        (r#""urgency":0"#, r#""urgency":0,"start":17"#),
        (r#""urgency":0"#, r#""urgency":0,"project":17"#),
        (r#""urgency":0"#, r#""urgency":0,"imask":"x""#),
        (r#""urgency":0"#, r#""urgency":0,"tags":null"#),
        (r#""urgency":0"#, r#""urgency":0,"tags":"x""#),
        (r#""urgency":0"#, r#""urgency":0,"tags":["x",1]"#),
        (r#""urgency":0"#, r#""urgency":0,"annotations":null"#),
        (r#""urgency":0"#, r#""urgency":0,"annotations":[{"entry":"20240101T120000Z"}]"#),
        (r#""urgency":0"#, r#""urgency":0,"annotations":["x"]"#),
    ] {
        let text = BARE.replace(from, to);
        assert_ne!(text, BARE);
        assert_eq!(
            Task::all_tasks(text.as_bytes()),
            Err(Error::Format),
            "after {:?}",
            to
        );
    }
}

#[test]
fn a_required_field_that_is_missing_is_a_format_error() {
    for field in [
        r#""id":1,"#,
        r#""description":"d","#,
        r#""entry":"20240101T120000Z","#,
        r#""status":"waiting","#,
        r#""uuid":"u","#,
    ] {
        let text = BARE.replace(field, "");
        assert_ne!(text, BARE);
        assert_eq!(Task::all_tasks(text.as_bytes()), Err(Error::Format));
    }
    let text = BARE.replace(r#","urgency":0"#, "");
    assert_eq!(Task::all_tasks(text.as_bytes()), Err(Error::Format));
}

#[test]
fn all_tasks_reads_every_record_in_order() {
    let text = format!(
        "[{},{}]",
        &FULL[1..FULL.len() - 1],
        &BARE[1..BARE.len() - 1]
    );
    let tasks = Task::all_tasks(text.as_bytes()).unwrap();
    assert_eq!(tasks.len(), 2);
    assert_eq!(tasks[0].id, 7);
    assert_eq!(tasks[1].id, 1);
}

#[test]
fn all_tasks_of_an_empty_list_is_empty() {
    assert_eq!(Task::all_tasks(b"[]"), Ok(Vec::new()));
    assert_eq!(Task::all_tasks(b" [ ] \n"), Ok(Vec::new()));
}

#[test]
fn one_bad_record_fails_the_list() {
    let text = format!("[{},{{}}]", &FULL[1..FULL.len() - 1]);
    assert_eq!(Task::all_tasks(text.as_bytes()), Err(Error::Format));
}

#[test]
fn from_id_takes_the_first_record() {
    let text = format!(
        "[{},{}]",
        &BARE[1..BARE.len() - 1],
        &FULL[1..FULL.len() - 1]
    );
    assert_eq!(Task::from_id(text.as_bytes()).unwrap().id, 1);
}

#[test]
fn from_id_of_an_empty_list_is_not_found() {
    assert_eq!(Task::from_id(b"[]"), Err(Error::NotFound));
}

#[test]
fn from_id_of_no_list_is_a_format_error() {
    assert_eq!(Task::from_id(b"nothing"), Err(Error::Format));
    assert_eq!(Task::from_id(b"{}"), Err(Error::Format));
}

#[test]
fn decode_one_of_an_empty_list_is_a_format_error() {
    assert_eq!(Task::decode_one(b"[]"), Err(Error::Format));
    assert_eq!(Task::decode_one(b"["), Err(Error::Format));
    assert_eq!(Task::decode_one(FULL.as_bytes()).unwrap().id, 7);
}

#[test]
fn written_record_has_the_keys_and_values_it_was_read_with() {
    let task = Task::from_id(FULL.as_bytes()).unwrap();
    assert_eq!(written(&task), first_object(FULL));
}

#[test]
fn unknown_fields_come_back_unchanged() {
    let task = Task::from_id(FULL.as_bytes()).unwrap();
    let before = first_object(FULL);
    let after = written(&task);
    for key in ["depends", "priority", "estimate", "nested"] {
        assert_eq!(after.get(key), before.get(key), "key {}", key);
    }
}

#[test]
fn missing_timestamps_are_left_out_not_written_as_null() {
    let task = Task::from_id(BARE.as_bytes()).unwrap();
    let after = written(&task);
    for key in [
        "start",
        "due",
        "end",
        "until",
        "mask",
        "imask",
        "parent",
        "recur",
        "annotations",
        "project",
        "tags",
    ] {
        assert!(!after.contains_key(key), "key {}", key);
    }
}

#[test]
fn a_record_without_project_and_tags_is_written_without_them() {
    let task = Task::from_id(BARE.as_bytes()).unwrap();
    let after = written(&task);
    assert_eq!(after, first_object(BARE));
    let mut keys: Vec<&str> = after.keys().map(String::as_str).collect();
    keys.sort();
    assert_eq!(
        keys,
        vec![
            "description",
            "entry",
            "id",
            "modified",
            "status",
            "urgency",
            "uuid"
        ]
    );
}

#[test]
fn a_field_that_was_there_holding_nothing_is_written_so() {
    let text = BARE.replace(
        r#""urgency":0"#,
        r#""urgency":0,"project":null,"mask":null,"imask":null,"parent":null,"recur":null,"tags":[],"annotations":[]"#,
    );
    let task = Task::from_id(text.as_bytes()).unwrap();
    assert_eq!(task.project, None);
    assert!(task.tags.is_empty());
    assert!(task.annotations.is_empty());
    assert_eq!(
        task.carried,
        Carried {
            project: true,
            mask: true,
            imask: true,
            parent: true,
            recur: true,
            tags: true,
            annotations: true
        }
    );
    assert_eq!(written(&task), first_object(&text));
}

#[test]
fn a_task_remembers_what_its_record_carried() {
    let none = Carried {
        project: false,
        mask: false,
        imask: false,
        parent: false,
        recur: false,
        tags: false,
        annotations: false,
    };
    assert_eq!(Task::from_id(BARE.as_bytes()).unwrap().carried, none);
    assert_eq!(
        Task::from_id(FULL.as_bytes()).unwrap().carried,
        Carried {
            project: true,
            tags: true,
            annotations: true,
            ..none
        }
    );
}

#[test]
fn a_null_timestamp_is_left_out_and_nothing_else() {
    let text = BARE.replace(
        r#""urgency":0"#,
        r#""urgency":0,"start":null,"due":null,"end":null,"until":null,"project":null"#,
    );
    let task = Task::from_id(text.as_bytes()).unwrap();
    let mut expected = first_object(BARE);
    expected.insert("project".to_string(), Value::Null);
    assert_eq!(written(&task), expected);
}

#[test]
fn a_field_that_is_set_is_written_though_the_record_had_none() {
    let mut task = Task::from_id(BARE.as_bytes()).unwrap();
    task.project = Some("home".to_string());
    task.tags.push("next".to_string());
    let after = written(&task);
    assert_eq!(after.get("project"), Some(&Value::from("home")));
    assert_eq!(
        after.get("tags"),
        Some(&Value::Array(vec![Value::from("next")]))
    );
}

#[test]
fn each_key_is_written_once() {
    let mut task = Task::from_id(FULL.as_bytes()).unwrap();
    task.extra
        .push(("priority".to_string(), Document::Text("L".to_string())));
    task.extra
        .push(("id".to_string(), Document::Number(Numeral::Unsigned(9))));
    task.extra
        .push(("colour".to_string(), Document::Text("red".to_string())));
    task.extra
        .push(("colour".to_string(), Document::Text("blue".to_string())));
    let entries = match task.to_document() {
        Document::Record(entries) => entries,
        other => panic!("no record: {:?}", other),
    };
    let mut keys: Vec<&str> = entries.iter().map(|(k, _)| k.as_str()).collect();
    let count = keys.len();
    keys.sort();
    keys.dedup();
    assert_eq!(keys.len(), count);
    let after = written(&task);
    assert_eq!(after.get("priority"), Some(&Value::from("H")));
    assert_eq!(after.get("id"), Some(&Value::from(7u64)));
    assert_eq!(after.get("colour"), Some(&Value::from("red")));
}

#[test]
fn a_document_with_a_key_twice_keeps_the_first() {
    let doc = match Task::from_id(BARE.as_bytes()).unwrap().to_document() {
        Document::Record(mut entries) => {
            entries.push(("x".to_string(), Document::Bool(true)));
            entries.push(("x".to_string(), Document::Bool(false)));
            Document::Record(entries)
        }
        other => panic!("no record: {:?}", other),
    };
    let task = Task::from_document(&doc).unwrap();
    assert_eq!(task.extra, vec![("x".to_string(), Document::Bool(true))]);
}

#[test]
fn a_known_field_wins_over_a_kept_entry_of_its_name() {
    let mut task = Task::from_id(BARE.as_bytes()).unwrap();
    task.extra
        .push(("status".to_string(), Document::Text("pending".to_string())));
    task.extra
        .push(("colour".to_string(), Document::Text("red".to_string())));
    let after = written(&task);
    assert_eq!(after.get("status"), Some(&Value::from("waiting")));
    assert_eq!(after.get("colour"), Some(&Value::from("red")));
}

#[test]
fn update_is_an_import_fed_with_the_record() {
    let task = Task::from_id(BARE.as_bytes()).unwrap();
    let call = task.update().unwrap();
    assert_eq!(call.program, "task");
    assert_eq!(call.args, vec!["import".to_string()]);
    assert_eq!(call.mode, Mode::Input);
    assert_eq!(call.unset, vec!["TASKRC".to_string()]);
    assert_ne!(call.input, BARE.as_bytes());
    assert_eq!(object(&call.input).get("id"), Some(&Value::from(1u64)));
}

#[test]
fn encode_writes_one_record() {
    let task = Task::from_id(BARE.as_bytes()).unwrap();
    let bytes = task.encode().unwrap();
    assert_eq!(task.update().unwrap().input, bytes);
    assert_eq!(
        String::from_utf8(bytes).unwrap(),
        [
            r#"{"description":"d","entry":"20240101T120000Z","id":1,"#,
            r#""modified":"20240101T120000Z","status":"waiting","#,
            r#""urgency":0,"uuid":"u"}"#
        ]
        .join("")
    );
}

#[test]
fn a_number_that_cannot_be_written_fails_the_update() {
    let mut task = Task::from_id(BARE.as_bytes()).unwrap();
    task.urgency = Numeral::Real("very".to_string());
    assert_eq!(task.update(), Err(Error::Format));
}

#[test]
fn complete_sets_the_status_and_nothing_else() {
    let task = Task::from_id(FULL.as_bytes()).unwrap();
    assert_eq!(task.id, 7);
    assert_eq!(task.status, Status::Pending);
    let call = task.done().unwrap();
    assert_eq!(call.args, vec!["import".to_string()]);
    let after = object(&call.input);
    let mut expected = first_object(FULL);
    expected.insert("status".to_string(), Value::from("completed"));
    assert_eq!(after, expected);
}

#[test]
fn begin_work_sets_start_and_nothing_else() {
    let task = Task::from_id(FULL.as_bytes()).unwrap();
    let call = task.start(stamp(2024, 5, 6, 7, 8, 9)).unwrap();
    let after = object(&call.input);
    let mut expected = first_object(FULL);
    expected.insert("start".to_string(), Value::from("20240506T070809Z"));
    assert_eq!(after, expected);
}

#[test]
fn end_work_clears_start_and_nothing_else() {
    let text = FULL.replace(r#""urgency":3.1"#, r#""urgency":3.1,"start":"20240506T070809Z""#);
    let task = Task::from_id(text.as_bytes()).unwrap();
    assert_eq!(task.start, Some(stamp(2024, 5, 6, 7, 8, 9)));
    let after = object(&task.stop().unwrap().input);
    assert_eq!(after, first_object(FULL));
}

#[test]
fn changed_copies_leave_the_task_as_it_was() {
    let task = Task::from_id(FULL.as_bytes()).unwrap();
    let done = task.completed();
    assert_eq!(task.status, Status::Pending);
    assert_eq!(done.status, Status::Completed);
    assert_eq!(done.extra, task.extra);
    let started = task.started(stamp(2024, 5, 6, 7, 8, 9));
    assert_eq!(started.start, Some(stamp(2024, 5, 6, 7, 8, 9)));
    assert_eq!(started.stopped().start, None);
    assert_eq!(task.duplicate(), task);
}

#[test]
fn edit_opens_a_terminal_and_is_not_waited_for() {
    let task = Task::from_id(FULL.as_bytes()).unwrap();
    let call = task.edit();
    assert_eq!(call.program, "rofi-sensible-terminal");
    assert_eq!(
        call.args,
        vec![
            "-e".to_string(),
            "task".to_string(),
            "edit".to_string(),
            "7".to_string()
        ]
    );
    assert_eq!(call.mode, Mode::Detached);
    assert!(call.input.is_empty());
}

#[test]
fn create_hands_the_text_to_the_task_store() {
    let call = Task::create("water the plants +home".to_string());
    assert_eq!(call.program, "task");
    assert_eq!(
        call.args,
        vec!["add".to_string(), "water the plants +home".to_string()]
    );
    assert_eq!(call.mode, Mode::Status);
}

#[test]
fn known_keys_are_told_from_unknown_ones() {
    for key in [
        "id",
        "description",
        "status",
        "project",
        "start",
        "due",
        "end",
        "entry",
        "modified",
        "until",
        "mask",
        "imask",
        "parent",
        "recur",
        "tags",
        "uuid",
        "urgency",
        "annotations",
    ] {
        assert!(is_named_key(key), "key {}", key);
    }
    for key in ["", "ID", "priority", "depends", "annotation", "urgency "] {
        assert!(!is_named_key(key), "key {}", key);
    }
}

#[test]
fn documents_and_tasks_convert_both_ways() {
    let task = Task::from_id(FULL.as_bytes()).unwrap();
    let doc = task.to_document();
    assert_eq!(Task::from_document(&doc), Ok(task));
    assert_eq!(Task::from_document(&Document::Null), Err(Error::Format));
    assert_eq!(
        Task::list_from_document(&Document::Record(Vec::new())),
        Err(Error::Format)
    );
}

#[test]
fn annotations_convert_both_ways() {
    let note = Annotation {
        entry: stamp(2024, 1, 3, 0, 0, 0),
        description: "n".to_string(),
    };
    let doc = note.to_document();
    assert_eq!(
        doc,
        Document::Record(vec![
            (
                "entry".to_string(),
                Document::Text("20240103T000000Z".to_string())
            ),
            ("description".to_string(), Document::Text("n".to_string())),
        ])
    );
    assert_eq!(Annotation::from_document(&doc), Ok(note));
    assert_eq!(
        Annotation::from_document(&Document::Text("n".to_string())),
        Err(Error::Format)
    );
}
