use rofi_taskwarrior::command::{Call, Mode};
use rofi_taskwarrior::document::Numeral;
use rofi_taskwarrior::error::Error;
use rofi_taskwarrior::menu::{
    act_on_task, add_task, all_tasks, apply, dispatch, fallback, key_operation, listing,
    options_list, pending_by_urgency, show_list, warn_no_key, Operation, Step,
};
use rofi_taskwarrior::rofi::{dec, Invocation};
use rofi_taskwarrior::table::Sheet;
use rofi_taskwarrior::taskwarrior::Task;
use rofi_taskwarrior::timestamp::Timestamp;
use rofi_taskwarrior::token::Info;

fn record(id: u16, description: &str, status: &str, urgency: &str, project: Option<&str>) -> String {
    let project = match project {
        Some(p) => format!(r#","project":"{}""#, p),
        None => String::new(),
    };
    format!(
        r#"{{"id":{},"description":"{}","entry":"20240101T120000Z","modified":"20240101T120000Z","status":"{}","uuid":"u{}","urgency":{}{}}}"#,
        id, description, status, id, urgency, project
    )
}

fn export(records: &[String]) -> Vec<u8> {
    format!("[{}]", records.join(",")).into_bytes()
}

fn three() -> Vec<u8> {
    export(&[
        record(1, "middle", "pending", "3.1", Some("home")),
        record(2, "top", "pending", "9.0", None),
        record(3, "bottom", "pending", "0.4", Some("work")),
    ])
}

fn descriptions(rows: &[Vec<String>]) -> Vec<&str> {
    rows.iter().map(|row| row[1].as_str()).collect()
}

fn token_of(row: &[String]) -> Info {
    let meta = &row[2];
    assert!(meta.starts_with("info\u{1f}"));
    dec(meta["info\u{1f}".len()..].to_string()).unwrap()
}

#[test]
fn tasks_are_listed_by_descending_urgency() {
    let tasks = Task::all_tasks(&three()).unwrap();
    assert_eq!(pending_by_urgency(&tasks), vec![1, 0, 2]);
    let rows = listing(&tasks).unwrap();
    assert_eq!(descriptions(&rows), vec!["top", "middle", "bottom"]);
}

#[test]
fn each_row_carries_the_token_that_picks_its_task() {
    let tasks = Task::all_tasks(&three()).unwrap();
    let rows = listing(&tasks).unwrap();
    assert_eq!(token_of(&rows[0]), Info::Choose(2));
    assert_eq!(token_of(&rows[1]), Info::Choose(1));
    assert_eq!(token_of(&rows[2]), Info::Choose(3));
}

#[test]
fn a_task_without_project_shows_a_blank() {
    let tasks = Task::all_tasks(&three()).unwrap();
    let rows = listing(&tasks).unwrap();
    assert_eq!(rows[0][0], " ");
    assert_eq!(rows[1][0], "home");
    assert_eq!(rows[2][0], "work");
}

#[test]
fn only_pending_tasks_are_listed() {
    let tasks = Task::all_tasks(&export(&[
        record(1, "a", "completed", "50", None),
        record(2, "b", "pending", "1", None),
        record(3, "c", "waiting", "40", None),
        record(4, "d", "deleted", "30", None),
        record(5, "e", "recurring", "20", None),
        record(6, "f", "pending", "2", None),
    ]))
    .unwrap();
    assert_eq!(pending_by_urgency(&tasks), vec![5, 1]);
    assert_eq!(descriptions(&listing(&tasks).unwrap()), vec!["f", "b"]);
}

#[test]
fn tasks_of_one_urgency_keep_their_order() {
    let tasks = Task::all_tasks(&export(&[
        record(1, "a", "pending", "2", None),
        record(2, "b", "pending", "2.0", None),
        record(3, "c", "pending", "5", None),
        record(4, "d", "pending", "2", None),
    ]))
    .unwrap();
    assert_eq!(pending_by_urgency(&tasks), vec![2, 0, 1, 3]);
}

#[test]
fn whole_and_fractional_and_negative_urgencies_mix() {
    let tasks = Task::all_tasks(&export(&[
        record(1, "a", "pending", "-3", None),
        record(2, "b", "pending", "10", None),
        record(3, "c", "pending", "9.99", None),
        record(4, "d", "pending", "1e1", None),
        record(5, "e", "pending", "-2.5", None),
        record(6, "f", "pending", "0", None),
        record(7, "g", "pending", "1e-7", None),
        record(8, "h", "pending", "-0.0", None),
        record(9, "i", "pending", "100.25", None),
    ]))
    .unwrap();
    assert_eq!(
        descriptions(&listing(&tasks).unwrap()),
        vec!["i", "b", "d", "c", "g", "f", "h", "e", "a"]
    );
}

#[test]
fn an_urgency_that_is_no_number_sorts_lowest() {
    let mut tasks = Task::all_tasks(&three()).unwrap();
    tasks[1].urgency = Numeral::Real("NaN".to_string());
    assert_eq!(pending_by_urgency(&tasks), vec![0, 2, 1]);
    tasks[0].urgency = Numeral::Negative(i64::MIN);
    assert_eq!(pending_by_urgency(&tasks), vec![2, 0, 1]);
}

#[test]
fn no_tasks_no_rows() {
    assert_eq!(listing(&Vec::new()), Ok(Vec::new()));
    assert_eq!(pending_by_urgency(&Vec::new()), Vec::<usize>::new());
}

#[test]
fn ranks_follow_the_numbers() {
    let texts = [
        "-1.5e300", "-1e10", "-10.5", "-10", "-9.75", "-1", "-1e-7", "0", "5e-324", "1e-7",
        "0.001", "0.4", "0.40001", "1", "3.1", "9", "9.0001", "10", "11", "99.9", "100",
        "18446744073709551615", "1.8446744073709552e19", "1e20", "1.7976931348623157e308",
    ];
    let ranks: Vec<i128> = texts
        .iter()
        .map(|t| Numeral::Real(t.to_string()).rank().expect(t))
        .collect();
    for i in 1..ranks.len() {
        assert!(ranks[i - 1] < ranks[i], "{} before {}", texts[i - 1], texts[i]);
    }
}

#[test]
fn one_number_written_in_many_ways_has_one_rank() {
    let nine = Numeral::Unsigned(9).rank();
    assert!(nine.is_some());
    for text in ["9", "9.0", "9.000", "0.9e1", "90e-1", "0.0009e4", "9E0", "9e+0", "009"] {
        assert_eq!(Numeral::Real(text.to_string()).rank(), nine, "text {}", text);
    }
    assert_eq!(Numeral::Negative(-9).rank(), Numeral::Real("-9.0".to_string()).rank());
    assert_eq!(Numeral::Negative(9).rank(), nine);
    assert_eq!(Numeral::Unsigned(0).rank(), Some(0));
    assert_eq!(Numeral::Real("-0.0".to_string()).rank(), Some(0));
    assert_eq!(Numeral::Real("0e999".to_string()).rank(), Some(0));
}

#[test]
fn whole_numbers_rank_as_they_count() {
    let numbers = [0u64, 1, 9, 10, 11, 99, 100, 12345, u64::MAX - 1, u64::MAX];
    for pair in numbers.windows(2) {
        assert!(Numeral::Unsigned(pair[0]).rank() < Numeral::Unsigned(pair[1]).rank());
        assert!(
            Numeral::Negative(-(pair[1].min(i64::MAX as u64) as i64)).rank()
                <= Numeral::Negative(-(pair[0].min(i64::MAX as u64) as i64)).rank()
        );
    }
    assert!(Numeral::Negative(i64::MIN).rank() < Numeral::Negative(i64::MIN + 1).rank());
}

#[test]
fn what_is_no_decimal_text_has_no_rank() {
    for text in [
        "", "-", ".", ".5", "5.", "1e", "1e+", "e5", "1.5.2", "1,5", " 1", "1 ", "NaN", "inf",
        "0x10", "1e12345", "--1", "+1",
        "123456789012345678901",
        "0.0000000000000000000000000000000000000000000000000000000000000001",
    ] {
        assert_eq!(Numeral::Real(text.to_string()).rank(), None, "text {:?}", text);
    }
}

#[test]
fn a_number_out_of_reach_has_no_rank() {
    assert_eq!(Numeral::Real("1e999".to_string()).rank(), None);
    assert_eq!(Numeral::Real("1e-1020".to_string()).rank(), None);
    assert!(Numeral::Real("1e998".to_string()).rank().is_some());
}

#[test]
fn score_puts_the_unranked_below_all() {
    let lowest = Numeral::Real("junk".to_string()).score();
    assert!(lowest < Numeral::Real("-9.9e998".to_string()).score());
    assert!(lowest < Numeral::Negative(i64::MIN).score());
    assert_eq!(Numeral::Unsigned(3).score(), Numeral::Unsigned(3).rank().unwrap());
}

#[test]
fn the_menu_of_operations_has_four_rows() {
    let text = options_list(7).unwrap();
    let lines: Vec<&str> = text.lines().collect();
    assert_eq!(lines.len(), 4);
    let expected = [
        ("Alt-1 Start", Info::Start(7)),
        ("Alt-2 Stop ", Info::Stop(7)),
        ("Alt-3 Done ", Info::Done(7)),
        ("Alt-4 Edit ", Info::Edit(7)),
    ];
    for (line, (label, info)) in lines.iter().zip(expected) {
        let (shown, meta) = line.split_once('\0').unwrap();
        assert_eq!(shown, label);
        let token = meta.strip_prefix("info\u{1f}").unwrap();
        assert_eq!(dec(token.trim_end().to_string()), Ok(info));
    }
}

#[test]
fn the_menu_of_operations_is_what_the_table_prints() {
    let mut table = tabular::Table::new("{:>} {:<}\0{:<}");
    for (key, name, token) in [
        ("Alt-1", "Start", "gaVTdGFydAc="),
        ("Alt-2", "Stop", "gaRTdG9wBw=="),
        ("Alt-3", "Done", "gaREb25lBw=="),
        ("Alt-4", "Edit", "gaRFZGl0Bw=="),
    ] {
        table.add_row(
            tabular::Row::new()
                .with_cell(key)
                .with_cell(name)
                .with_cell(format!("info\u{1f}{}", token)),
        );
    }
    assert_eq!(options_list(7).unwrap(), table.to_string());
}

#[test]
fn the_list_is_added_to_the_table() {
    let mut table = Sheet::new("{:>}\u{239c}{:<}\0{:<}").unwrap();
    let text = all_tasks(&mut table, &three()).unwrap();
    assert_eq!(text, table.text());
    let lines: Vec<&str> = text.lines().collect();
    assert_eq!(
        lines,
        vec![
            "    \u{239c}top   \0info\u{1f}gaZDaG9vc2UC",
            "home\u{239c}middle\0info\u{1f}gaZDaG9vc2UB",
            "work\u{239c}bottom\0info\u{1f}gaZDaG9vc2UD",
        ]
    );
}

#[test]
fn the_list_comes_behind_what_the_table_held() {
    let mut table = Sheet::new("{:>}  {:<}  {:<}").unwrap();
    warn_no_key(&mut table);
    let text = all_tasks(&mut table, &three()).unwrap();
    let lines: Vec<&str> = text.lines().collect();
    assert_eq!(lines.len(), 4);
    assert_eq!(lines[0], "No binding for that key");
    assert!(lines[1].ends_with("top     info\u{1f}gaZDaG9vc2UC"));
}

#[test]
fn a_table_of_another_width_is_a_format_error() {
    let mut table = Sheet::new("{:>} {:<}").unwrap();
    assert_eq!(all_tasks(&mut table, &three()), Err(Error::Format));
    assert_eq!(table.text(), "");
}

#[test]
fn an_export_that_is_no_list_is_a_format_error() {
    let mut table = Sheet::new("{:>}  {:<}  {:<}").unwrap();
    assert_eq!(all_tasks(&mut table, b"oops"), Err(Error::Format));
    assert_eq!(show_list(true, false, b"{}"), Err(Error::Format));
}

#[test]
fn a_sheet_prints_what_the_outside_table_prints() {
    let mut sheet = Sheet::new("{:>} | {:<}").unwrap();
    assert_eq!(sheet.column_count(), 2);
    sheet.add_heading("head");
    assert!(sheet.add_row(&vec!["a".to_string(), "bcd".to_string()]));
    assert!(sheet.add_row(&vec!["12345".to_string(), "x".to_string()]));
    let table = tabular::Table::new("{:>} | {:<}")
        .with_heading("head")
        .with_row(tabular::Row::new().with_cell("a").with_cell("bcd"))
        .with_row(tabular::Row::new().with_cell("12345").with_cell("x"));
    assert_eq!(sheet.text(), table.to_string());
    assert_eq!(sheet.text(), "head\n    a | bcd\n12345 | x\n");
}

#[test]
fn a_row_of_another_width_is_not_added() {
    let mut sheet = Sheet::new("{:>} {:<}").unwrap();
    assert!(!sheet.add_row(&vec!["a".to_string()]));
    assert!(!sheet.add_row(&vec!["a".to_string(), "b".to_string(), "c".to_string()]));
    assert!(!sheet.add_row(&Vec::new()));
    assert_eq!(sheet.text(), "");
    assert!(sheet.add_row(&vec!["a".to_string(), "b".to_string()]));
    assert_eq!(sheet.text(), "a b\n");
}

#[test]
fn a_format_that_the_table_refuses_makes_no_sheet() {
    assert!(Sheet::new("{:>} {").is_none());
    assert!(Sheet::new("{:x}").is_none());
    assert!(Sheet::new("}").is_none());
    assert_eq!(Sheet::new("{{}}").unwrap().column_count(), 0);
    assert_eq!(Sheet::new("").unwrap().column_count(), 0);
}

#[test]
fn show_list_in_both_formats() {
    let menu = show_list(false, false, &three()).unwrap();
    assert!(menu.starts_with("    \u{239c}top   \0info\u{1f}"));
    let plain = show_list(true, false, &three()).unwrap();
    assert!(plain.starts_with("      top     info\u{1f}"));
    let warned = show_list(false, true, &three()).unwrap();
    assert_eq!(warned, format!("No binding for that key\n{}", menu));
    assert_eq!(show_list(false, false, b"[]").unwrap(), "");
}

#[test]
fn a_picked_task_shows_its_operations() {
    assert_eq!(
        act_on_task(Info::Choose(7)),
        Ok(Step::Show(options_list(7).unwrap()))
    );
}

#[test]
fn an_operation_fetches_its_task_first() {
    for (info, operation) in [
        (Info::Start(7), Operation::Start),
        (Info::Stop(7), Operation::Stop),
        (Info::Done(7), Operation::Done),
        (Info::Edit(7), Operation::Edit),
    ] {
        assert_eq!(
            act_on_task(info),
            Ok(Step::Fetch {
                call: Call::export(Some(7)),
                operation
            })
        );
    }
}

#[test]
fn a_create_token_adds_a_task() {
    assert_eq!(
        act_on_task(Info::Create("x y".to_string())),
        Ok(Step::Run(Call::add("x y".to_string())))
    );
    assert_eq!(add_task("x y".to_string()), Call::add("x y".to_string()));
}

#[test]
fn export_commands() {
    let all = Call::export(None);
    assert_eq!(all.program, "task");
    assert_eq!(all.args, vec!["export".to_string()]);
    assert_eq!(all.mode, Mode::Output);
    assert!(all.unset.is_empty());
    let one = Call::export(Some(65535));
    assert_eq!(one.args, vec!["65535".to_string(), "export".to_string()]);
    assert_eq!(Call::export(Some(0)).args[0], "0");
    assert_eq!(Call::export(Some(10)).args[0], "10");
}

#[test]
fn import_command() {
    let call = Call::import(vec![1, 2, 3]);
    assert_eq!(call.args, vec!["import".to_string()]);
    assert_eq!(call.input, vec![1, 2, 3]);
    assert_eq!(call.mode, Mode::Input);
    assert_eq!(call.unset, vec!["TASKRC".to_string()]);
}

#[test]
fn keys_and_their_operations() {
    assert_eq!(key_operation(0), Some(Operation::Start));
    assert_eq!(key_operation(1), Some(Operation::Stop));
    assert_eq!(key_operation(2), Some(Operation::Done));
    assert_eq!(key_operation(3), Some(Operation::Edit));
    assert_eq!(key_operation(4), None);
    assert_eq!(key_operation(18), None);
}

fn invocation(retv: &str, info: Option<Info>, selected: Option<&str>) -> Invocation {
    let mut r = Invocation::env(
        Some("1".to_string()),
        Some(retv.to_string()),
        None,
        selected.map(str::to_string),
    )
    .unwrap();
    r.info = info;
    r
}

#[test]
fn before_any_menu_the_tasks_are_listed() {
    assert_eq!(
        dispatch(invocation("0", None, None)),
        Ok(Step::List {
            call: Call::export(None),
            plain: false,
            warn: false
        })
    );
}

#[test]
fn a_chosen_row_leads_where_its_token_leads() {
    assert_eq!(
        dispatch(invocation("1", Some(Info::Done(4)), Some("row"))),
        Ok(Step::Fetch {
            call: Call::export(Some(4)),
            operation: Operation::Done
        })
    );
    assert_eq!(
        dispatch(invocation("1", None, Some("row"))),
        Err(Error::InvalidInput)
    );
}

#[test]
fn typed_text_adds_a_task() {
    assert_eq!(
        dispatch(invocation("2", None, Some("feed the cat"))),
        Ok(Step::Run(Call::add("feed the cat".to_string())))
    );
}

#[test]
fn a_key_binding_acts_on_the_task_of_the_row() {
    for (retv, operation) in [
        ("10", Operation::Start),
        ("11", Operation::Stop),
        ("12", Operation::Done),
        ("13", Operation::Edit),
    ] {
        assert_eq!(
            dispatch(invocation(retv, Some(Info::Choose(9)), Some("row"))),
            Ok(Step::Fetch {
                call: Call::export(Some(9)),
                operation
            })
        );
    }
}

#[test]
fn a_key_binding_needs_a_token_that_names_a_task() {
    assert_eq!(
        dispatch(invocation("10", None, Some("row"))),
        Err(Error::InvalidInput)
    );
    assert_eq!(
        dispatch(invocation("10", Some(Info::Create("x".to_string())), None)),
        Err(Error::InvalidInput)
    );
}

#[test]
fn a_key_without_operation_lists_under_a_warning() {
    assert_eq!(
        dispatch(invocation("14", Some(Info::Choose(9)), None)),
        Ok(Step::List {
            call: Call::export(None),
            plain: false,
            warn: true
        })
    );
    assert_eq!(
        dispatch(invocation("28", None, None)),
        Ok(Step::List {
            call: Call::export(None),
            plain: false,
            warn: true
        })
    );
}

#[test]
fn without_the_launcher_the_list_is_plain() {
    assert_eq!(
        fallback(),
        Step::List {
            call: Call::export(None),
            plain: true,
            warn: false
        }
    );
}

#[test]
fn apply_carries_each_operation_out() {
    let now = Timestamp::new(2024, 5, 6, 7, 8, 9).unwrap();
    let bytes = export(&[record(7, "t", "pending", "1", None)]);
    let task = Task::from_id(&bytes).unwrap();
    assert_eq!(apply(Operation::Start, &bytes, now), task.start(now));
    assert_eq!(apply(Operation::Stop, &bytes, now), task.stop());
    assert_eq!(apply(Operation::Done, &bytes, now), task.done());
    assert_eq!(apply(Operation::Edit, &bytes, now), Ok(task.edit()));
    let started = apply(Operation::Start, &bytes, now).unwrap();
    assert!(String::from_utf8(started.input)
        .unwrap()
        .contains(r#""start":"20240506T070809Z""#));
}

#[test]
fn apply_without_a_task_is_not_found() {
    let now = Timestamp::new(2024, 5, 6, 7, 8, 9).unwrap();
    assert_eq!(apply(Operation::Done, b"[]", now), Err(Error::NotFound));
    assert_eq!(apply(Operation::Edit, b"[]", now), Err(Error::NotFound));
    assert_eq!(apply(Operation::Done, b"[", now), Err(Error::Format));
}

#[test]
fn every_error_has_its_words() {
    let all = [
        Error::Config,
        Error::Format,
        Error::Decode,
        Error::NotFound,
        Error::ExternalTool,
        Error::InvalidInput,
    ];
    for (i, a) in all.iter().enumerate() {
        assert!(!a.to_string().is_empty());
        for b in &all[i + 1..] {
            assert_ne!(a.to_string(), b.to_string());
        }
    }
}
