use stickies::model::geometry::{Monitor, Placement};
use stickies::placement::{
    parse_monitors, parse_placement, parse_query_all, window_object_path, CallError, FailureLog,
    LogLine, Outcome, Request, Shell,
};
use stickies::wire::Value;

fn text(s: &str) -> Value {
    Value::Str(s.to_string())
}

fn array(element: &str, items: Vec<Value>) -> Value {
    Value::Array(element.to_string(), items)
}

fn boxed(v: Value) -> Value {
    Value::Boxed(Box::new(v))
}

fn monitors_reply(entries: Vec<(&str, &str, bool, i32, i32, i32, i32)>) -> Value {
    let rows = entries
        .into_iter()
        .map(|(c, d, p, x, y, w, h)| {
            Value::Tuple(vec![
                text(c),
                text(d),
                Value::Bool(p),
                Value::Int32(x),
                Value::Int32(y),
                Value::Int32(w),
                Value::Int32(h),
            ])
        })
        .collect();
    Value::Tuple(vec![array("(ssbiiii)", rows)])
}

fn placement_reply(found: bool, connector: &str, x: i32, y: i32, w: i32, h: i32) -> Value {
    Value::Tuple(vec![
        Value::Bool(found),
        text(connector),
        Value::Int32(x),
        Value::Int32(y),
        Value::Int32(w),
        Value::Int32(h),
    ])
}

fn windows_reply(entries: Vec<(&str, &str, i32, i32, i32, i32)>) -> Value {
    let rows = entries
        .into_iter()
        .map(|(path, c, x, y, w, h)| {
            Value::Tuple(vec![
                text(path),
                text(c),
                Value::Int32(x),
                Value::Int32(y),
                Value::Int32(w),
                Value::Int32(h),
            ])
        })
        .collect();
    Value::Tuple(vec![array("(ssiiii)", rows)])
}

#[test]
fn window_object_paths_match_gtks_scheme() {
    assert_eq!(window_object_path(1), "/us/hagreli/Stickies/window/1");
    assert_eq!(window_object_path(42), "/us/hagreli/Stickies/window/42");
}

#[test]
fn monitors_decode_from_the_wire_format() {
    let reply = monitors_reply(vec![
        ("DP-1", "Dell U4924DW", true, 72, 37, 5048, 1403),
        ("eDP-1", "Built-in display", false, 0, 1440, 1920, 1043),
    ]);
    let monitors = parse_monitors(&reply);
    assert_eq!(monitors.len(), 2);
    assert_eq!(
        monitors[0],
        Monitor {
            connector: "DP-1".into(),
            display_name: "Dell U4924DW".into(),
            primary: true,
            x: 72,
            y: 37,
            width: 5048,
            height: 1403,
        }
    );
    assert!(!monitors[1].primary);
}

#[test]
fn an_empty_monitor_list_decodes_to_nothing() {
    assert!(parse_monitors(&monitors_reply(vec![])).is_empty());
}

#[test]
fn degenerate_monitors_are_dropped_not_fatal() {
    let reply = monitors_reply(vec![
        ("DP-1", "Good", true, 0, 0, 2560, 1440),
        ("DP-9", "Zero width", false, 0, 0, 0, 1440),
        ("DP-8", "Negative height", false, 0, 0, 800, -1),
    ]);
    let monitors = parse_monitors(&reply);
    assert_eq!(monitors.len(), 1);
    assert_eq!(monitors[0].connector, "DP-1");
}

#[test]
fn a_reply_of_the_wrong_shape_yields_no_monitors() {
    assert!(parse_monitors(&text("not a monitor list")).is_empty());
    assert!(parse_monitors(&Value::Tuple(vec![text("nor this")])).is_empty());
    assert!(parse_monitors(&Value::Tuple(vec![])).is_empty());
}

#[test]
fn a_row_of_the_wrong_shape_costs_only_that_monitor() {
    let Value::Tuple(mut parts) = monitors_reply(vec![
        ("DP-1", "First", true, 0, 0, 100, 100),
        ("DP-2", "Second", false, 0, 0, 100, 100),
    ]) else {
        unreachable!()
    };
    let Some(Value::Array(_, mut rows)) = parts.pop() else {
        unreachable!()
    };
    rows.insert(1, text("rubbish"));
    rows.insert(1, Value::Tuple(vec![text("DP-9"), text("too short")]));
    let monitors = parse_monitors(&Value::Tuple(vec![array("?", rows)]));
    let connectors: Vec<&str> = monitors.iter().map(|m| m.connector.as_str()).collect();
    assert_eq!(connectors, ["DP-1", "DP-2"]);
}

#[test]
fn placement_decodes_when_the_window_was_found() {
    let reply = placement_reply(true, "DP-1", 400, 300, 320, 340);
    assert_eq!(
        parse_placement(&reply),
        Some(Placement {
            connector: "DP-1".into(),
            x: 400,
            y: 300,
            width: 320,
            height: 340,
        })
    );
}

#[test]
fn placement_is_none_when_the_window_was_not_found() {
    let reply = placement_reply(false, "", 0, 0, 0, 0);
    assert_eq!(parse_placement(&reply), None);
}

#[test]
fn placement_rejects_a_zero_sized_result() {
    // An unmapped window can report a 0x0 frame; treating that as real
    // would shrink the note to nothing on the next save.
    let reply = placement_reply(true, "DP-1", 10, 10, 0, 0);
    assert_eq!(parse_placement(&reply), None);
}

#[test]
fn placement_rejects_a_malformed_reply() {
    assert_eq!(parse_placement(&Value::Int32(42)), None);
}

#[test]
fn a_window_that_was_not_found_has_no_placement_whatever_else_is_said() {
    assert_eq!(
        parse_placement(&placement_reply(false, "DP-1", 1, 2, 300, 320)),
        None
    );
}

#[test]
fn query_all_decodes_every_window() {
    let decoded = parse_query_all(&windows_reply(vec![
        ("/us/hagreli/Stickies/window/1", "DP-1", 10, 20, 300, 320),
        ("/us/hagreli/Stickies/window/2", "eDP-1", 40, 50, 280, 300),
    ]));
    assert_eq!(decoded.len(), 2);
    assert_eq!(decoded[0].0, "/us/hagreli/Stickies/window/1");
    assert_eq!(decoded[0].1.connector, "DP-1");
    assert_eq!(decoded[1].1.x, 40);
}

#[test]
fn query_all_skips_unmapped_windows() {
    let decoded = parse_query_all(&windows_reply(vec![
        ("/us/hagreli/Stickies/window/1", "DP-1", 0, 0, 0, 0),
        ("/us/hagreli/Stickies/window/2", "DP-1", 5, 5, 300, 320),
    ]));
    assert_eq!(decoded.len(), 1);
    assert_eq!(decoded[0].0, "/us/hagreli/Stickies/window/2");
}

#[test]
fn query_all_tolerates_a_malformed_reply() {
    assert!(parse_query_all(&text("nope")).is_empty());
    assert!(parse_query_all(&windows_reply(vec![])).is_empty());
}

#[test]
fn repeated_identical_failures_are_reported_once() {
    let mut log = FailureLog::new();
    // The sync tick runs every two seconds; without this a broken
    // extension floods the journal and hides everything else.
    assert!(
        log.first_time_seeing("QueryAll", "boom"),
        "first occurrence reports"
    );
    assert!(!log.first_time_seeing("QueryAll", "boom"), "repeat stays quiet");
    assert!(
        log.first_time_seeing("QueryAll", "different"),
        "a changed error is new information"
    );
    assert!(
        log.first_time_seeing("ListMonitors", "boom"),
        "methods are tracked independently"
    );
    assert!(
        log.first_time_seeing("QueryAll", "boom"),
        "and it reports again once the error changes back"
    );
}

#[test]
fn a_disconnected_client_degrades_to_no_ops() {
    let shell = Shell::disconnected();
    let path = "/us/hagreli/Stickies/window/1";
    let placement = Placement {
        connector: "DP-1".into(),
        x: 0,
        y: 0,
        width: 300,
        height: 320,
    };
    assert_eq!(shell.version(), None);
    assert_eq!(shell.list_monitors(), None);
    assert_eq!(shell.query_all(), None);
    assert_eq!(shell.query(path), None);
    assert_eq!(shell.place(path, &placement), None);
    assert_eq!(shell.set_pinned(path, true), None);

    let nothing = Outcome::NoBus;
    assert!(!Shell::is_available(Shell::version_from(&nothing)));
    assert_eq!(Shell::version_from(&nothing), None);
    assert!(Shell::monitors_from(&nothing).is_empty());
    assert!(Shell::windows_from(&nothing).is_empty());
    assert_eq!(Shell::placement_from(&nothing), None);
    assert!(!Shell::done_from(&nothing));
}

#[test]
fn a_failed_call_is_answered_like_no_call() {
    let failed = Outcome::Failed(CallError {
        absent: false,
        message: "Timeout was reached".into(),
    });
    assert_eq!(Shell::version_from(&failed), None);
    assert!(Shell::monitors_from(&failed).is_empty());
    assert!(Shell::windows_from(&failed).is_empty());
    assert_eq!(Shell::placement_from(&failed), None);
    assert!(!Shell::done_from(&failed));
}

#[test]
fn a_connected_client_asks_in_the_types_the_extension_declares() {
    let shell = Shell::session(true);
    let path = "/us/hagreli/Stickies/window/1";
    let placement = Placement {
        connector: "DP-1".into(),
        x: 1,
        y: -2,
        width: 300,
        height: 320,
    };
    let place = shell.place(path, &placement).unwrap();
    assert_eq!(
        place,
        Request {
            interface: "us.hagreli.Stickies.Shell",
            method: "Place",
            args: Some(Value::Tuple(vec![
                text(path),
                text("DP-1"),
                Value::Int32(1),
                Value::Int32(-2),
                Value::Int32(300),
                Value::Int32(320),
            ])),
            reply_type: "(b)",
        }
    );
    assert_eq!(place.args.unwrap().type_string(), "(ssiiii)");

    let version = shell.version().unwrap();
    assert_eq!(version.interface, "org.freedesktop.DBus.Properties");
    assert_eq!(version.method, "Get");
    assert_eq!(version.args.unwrap().type_string(), "(ss)");
    assert_eq!(version.reply_type, "(v)");

    let pin = shell.set_pinned(path, true).unwrap();
    assert_eq!(pin.method, "SetPinned");
    assert_eq!(pin.args, Some(Value::Tuple(vec![text(path), Value::Bool(true)])));
    assert_eq!(pin.reply_type, "(b)");

    let query = shell.query(path).unwrap();
    assert_eq!((query.method, query.reply_type), ("Query", "(bsiiii)"));
    assert_eq!(query.args, Some(Value::Tuple(vec![text(path)])));

    let all = shell.query_all().unwrap();
    assert_eq!((all.method, all.args, all.reply_type), ("QueryAll", None, "(a(ssiiii))"));
    let monitors = shell.list_monitors().unwrap();
    assert_eq!(
        (monitors.method, monitors.args, monitors.reply_type),
        ("ListMonitors", None, "(a(ssbiiii))")
    );
}

#[test]
fn answers_are_decoded() {
    let version = |v: Value| Outcome::Reply(Value::Tuple(vec![v]));
    assert_eq!(
        Shell::version_from(&version(boxed(Value::Uint32(1)))),
        Some(1)
    );
    assert_eq!(Shell::version_from(&version(boxed(text("1")))), None);
    assert_eq!(Shell::version_from(&version(Value::Uint32(1))), None);
    assert!(Shell::is_available(Some(1)));
    assert!(!Shell::is_available(Some(2)));
    assert!(!Shell::is_available(None));

    assert!(Shell::done_from(&version(Value::Bool(true))));
    assert!(!Shell::done_from(&version(Value::Bool(false))));
    assert!(!Shell::done_from(&version(Value::Int32(1))));

    let monitors = Outcome::Reply(monitors_reply(vec![("DP-1", "A", true, 0, 0, 10, 10)]));
    assert_eq!(Shell::monitors_from(&monitors).len(), 1);
    let windows = Outcome::Reply(windows_reply(vec![("/w/1", "DP-1", 0, 0, 10, 10)]));
    assert_eq!(Shell::windows_from(&windows).len(), 1);
    let placed = Outcome::Reply(placement_reply(true, "DP-1", 0, 0, 10, 10));
    assert!(Shell::placement_from(&placed).is_some());
}

#[test]
fn a_missing_extension_is_no_warning() {
    let mut log = FailureLog::new();
    let absent = CallError {
        absent: true,
        message: "The name is not activatable".into(),
    };
    for _ in 0..2 {
        assert_eq!(
            log.log_call_failure("QueryAll", &absent),
            LogLine::Debug("QueryAll: shell extension not running".into())
        );
    }
    let broken = CallError {
        absent: false,
        message: "boom".into(),
    };
    assert_eq!(
        log.log_call_failure("QueryAll", &broken),
        LogLine::Warning("shell extension call QueryAll failed: boom".into())
    );
    assert_eq!(log.log_call_failure("QueryAll", &broken), LogLine::Nothing);
}

#[test]
fn windows_have_different_paths() {
    let paths: std::collections::HashSet<String> = (0..2000).map(window_object_path).collect();
    assert_eq!(paths.len(), 2000);
    assert_eq!(
        window_object_path(u32::MAX),
        "/us/hagreli/Stickies/window/4294967295"
    );
}
