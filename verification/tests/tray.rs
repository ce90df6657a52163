use stickies::placement::{CallError, Outcome};
use stickies::tray::{
    bus_name, dispatch_event, entry_at, entry_properties, entry_property, group_properties,
    item_property, layout, menu_property, registration, watcher_present, watcher_question,
    MenuEntry, Tray, TrayHost, MENU_PATH,
};
use stickies::wire::Value;

fn text(s: &str) -> Value {
    Value::Str(s.to_string())
}

const HOST: TrayHost = TrayHost {
    opted_out: false,
    bus: true,
    watcher: true,
};

fn sample() -> Vec<MenuEntry> {
    vec![
        MenuEntry::item("New Note", "app.new-note"),
        MenuEntry::Separator,
        MenuEntry::info("2 notes"),
        MenuEntry::disabled("Show All Notes", "app.show-all"),
        MenuEntry::item("Quit", "app.quit"),
    ]
}

/// The ids in a `a(ia{sv})` reply, in order.
fn reply_ids(variant: &Value) -> Vec<i32> {
    (0..variant.n_children())
        .filter_map(|i| variant.child(i)?.child(0)?.get_i32())
        .collect()
}

fn lookup_str(props: &Value, key: &str) -> Option<String> {
    props.lookup(key)?.get_str().map(str::to_string)
}

fn lookup_bool(props: &Value, key: &str) -> Option<bool> {
    props.lookup(key)?.get_bool()
}

#[test]
fn the_layout_matches_the_type_dbusmenu_declares() {
    // A shape mismatch here means the menu silently never appears, which is
    // painful to debug against a live shell.
    let variant = layout(&sample());
    assert_eq!(variant.type_string(), "(ia{sv}av)");
    assert_eq!(layout(&[]).type_string(), "(ia{sv}av)");
}

#[test]
fn the_root_is_item_zero_and_holds_every_entry() {
    let variant = layout(&sample());
    let id = variant.child(0).unwrap().get_i32().unwrap();
    assert_eq!(id, 0, "the root is always id 0");

    let children = variant.child(2).unwrap();
    assert_eq!(children.n_children(), 5);
    assert_eq!(
        lookup_str(variant.child(1).unwrap(), "children-display").as_deref(),
        Some("submenu")
    );
    let second = children.child(1).unwrap().child(0).unwrap();
    assert_eq!(second.type_string(), "(ia{sv}av)");
    assert_eq!(second.child(0), Some(&Value::Int32(2)));
}

#[test]
fn ids_are_one_based_because_zero_is_the_root() {
    let entries = sample();
    assert!(
        entry_at(&entries, 0).is_none(),
        "0 is the root, not an entry"
    );
    assert_eq!(entry_at(&entries, 1), Some(&entries[0]));
    assert_eq!(entry_at(&entries, 5), Some(&entries[4]));
    assert!(entry_at(&entries, 6).is_none());
    assert!(
        entry_at(&entries, -1).is_none(),
        "negative ids must not panic"
    );
    assert!(entry_at(&entries, i32::MIN).is_none());
}

#[test]
fn a_separator_is_typed_rather_than_labelled() {
    let props = entry_properties(&MenuEntry::Separator);
    assert_eq!(lookup_str(&props, "type").as_deref(), Some("separator"));
    assert!(lookup_str(&props, "label").is_none());
    assert_eq!(lookup_bool(&props, "visible"), Some(true));
}

#[test]
fn an_info_row_is_shown_but_not_clickable() {
    let props = entry_properties(&MenuEntry::info("2 notes"));
    assert_eq!(lookup_str(&props, "label").as_deref(), Some("2 notes"));
    assert_eq!(lookup_bool(&props, "enabled"), Some(false));
    assert_eq!(lookup_bool(&props, "visible"), Some(true));
}

#[test]
fn a_disabled_item_reports_itself_as_disabled() {
    let entry = MenuEntry::disabled("Show All Notes", "app.show-all");
    let props = entry_properties(&entry);
    assert_eq!(lookup_bool(&props, "enabled"), Some(false));
    let props = entry_properties(&MenuEntry::item("Show All Notes", "app.show-all"));
    assert_eq!(lookup_bool(&props, "enabled"), Some(true));
}

#[test]
fn group_properties_matches_the_type_dbusmenu_declares() {
    let variant = group_properties(&sample(), &[]);
    assert_eq!(variant.type_string(), "a(ia{sv})");
    assert_eq!(variant.child(0).unwrap().type_string(), "(ia{sv})");
}

#[test]
fn group_properties_defaults_to_every_entry() {
    let entries = sample();
    assert_eq!(
        reply_ids(&group_properties(&entries, &[])),
        vec![1, 2, 3, 4, 5]
    );
    assert_eq!(reply_ids(&group_properties(&entries, &[1, 3])), vec![1, 3]);
}

#[test]
fn group_properties_skips_ids_that_do_not_exist() {
    // A host asking about a stale id after the menu shrank must not panic
    // or shift the remaining answers.
    assert_eq!(
        reply_ids(&group_properties(&sample(), &[1, 99, 4])),
        vec![1, 4]
    );
}

#[test]
fn individual_properties_can_be_fetched() {
    let entries = sample();
    assert_eq!(entry_property(&entries, 1, "label"), Some(text("New Note")));
    assert_eq!(entry_property(&entries, 1, "nonexistent"), None);
    assert_eq!(entry_property(&entries, 99, "label"), None);
    assert_eq!(
        entry_property(&entries, 4, "enabled"),
        Some(Value::Bool(false))
    );
}

#[test]
fn clicking_an_item_dispatches_its_action() {
    assert_eq!(
        dispatch_event(&sample(), 1, "clicked").as_deref(),
        Some("app.new-note")
    );
}

#[test]
fn a_handler_may_rebuild_the_menu_from_inside_the_click() {
    // "New Note" refreshes the menu to update its count, so whoever handles a
    // click must be free to change the entries.
    let mut entries = sample();
    if let Some(_action) = dispatch_event(&entries, 1, "clicked") {
        entries.push(MenuEntry::item("Added", "app.x"));
    }
    assert_eq!(entries.len(), 6, "the handler's edit took effect");
}

#[test]
fn disabled_and_non_click_events_do_nothing() {
    let entries = sample();
    assert_eq!(dispatch_event(&entries, 4, "clicked"), None); // "Show All Notes", disabled
    assert_eq!(dispatch_event(&entries, 2, "clicked"), None); // a separator
    assert_eq!(dispatch_event(&entries, 3, "clicked"), None); // an info row
    assert_eq!(dispatch_event(&entries, 99, "clicked"), None); // no such id
    assert_eq!(dispatch_event(&entries, 1, "hovered"), None); // not a click
    assert_eq!(
        dispatch_event(&entries, 5, "clicked").as_deref(), // "Quit", enabled
        Some("app.quit")
    );
}

#[test]
fn the_tray_can_be_opted_out_of() {
    // And no icon is made that nothing would show.
    assert!(Tray::new(sample(), TrayHost { opted_out: true, ..HOST }).is_none());
    assert!(Tray::new(sample(), TrayHost { bus: false, ..HOST }).is_none());
    assert!(Tray::new(sample(), TrayHost { watcher: false, ..HOST }).is_none());
    let tray = Tray::new(sample(), HOST).expect("a host that shows icons");
    assert_eq!(tray.revision, 1);
    assert_eq!(tray.entries, sample());
}

#[test]
fn the_icon_advertises_the_symbolic_variant() {
    // A full-colour icon in the panel looks wrong next to every other
    // status icon and will not follow the panel's foreground colour.
    let icon = item_property("IconName");
    let name = icon.get_str().unwrap();
    assert_eq!(name, "us.hagreli.Stickies-symbolic");
    assert!(name.ends_with("-symbolic"));
}

#[test]
fn the_item_points_at_the_menu_object_path() {
    let menu = item_property("Menu");
    assert_eq!(
        menu.type_string(),
        "o",
        "must be an object path, not a string"
    );
    assert_eq!(menu.get_str(), Some(MENU_PATH));
}

#[test]
fn left_click_opens_the_menu_rather_than_acting() {
    assert_eq!(item_property("ItemIsMenu").get_bool(), Some(true));
}

#[test]
fn unknown_properties_return_something_rather_than_panicking() {
    assert_eq!(item_property("Nonsense").get_str(), Some(""));
    assert_eq!(menu_property("Nonsense").get_str(), Some(""));
}

#[test]
fn known_properties_have_their_values() {
    assert_eq!(item_property("Category"), text("ApplicationStatus"));
    assert_eq!(item_property("Id"), text("us.hagreli.Stickies"));
    assert_eq!(item_property("Title"), text("Stickies"));
    assert_eq!(item_property("Status"), text("Active"));
    assert_eq!(menu_property("Version"), Value::Uint32(3));
    assert_eq!(menu_property("Status"), text("normal"));
    assert_eq!(menu_property("TextDirection"), text("ltr"));
    assert_eq!(menu_property("IconThemePath").type_string(), "as");
}

#[test]
fn an_unchanged_menu_is_not_announced() {
    let mut tray = Tray::new(sample(), HOST).unwrap();
    assert_eq!(tray.set_entries(sample()), None);
    assert_eq!(tray.revision, 1);

    let mut shorter = sample();
    shorter.pop();
    assert_eq!(
        tray.set_entries(shorter),
        Some(Value::Tuple(vec![Value::Uint32(2), Value::Int32(0)]))
    );
    assert_eq!(tray.entries.len(), 4);

    let mut relabelled = sample();
    relabelled.pop();
    relabelled[2] = MenuEntry::info("3 notes");
    assert!(tray.set_entries(relabelled).is_some());
    assert_eq!(tray.revision, 3);

    tray.revision = u32::MAX;
    assert!(tray.set_entries(Vec::new()).is_some());
    assert_eq!(tray.revision, 0, "the counter starts over");
}

#[test]
fn calls_of_the_menu_are_answered() {
    let tray = Tray::new(sample(), HOST).unwrap();
    let none = Value::Tuple(vec![]);

    let answer = tray.menu_call("GetLayout", &none);
    let reply = answer.reply.unwrap();
    assert_eq!(reply.type_string(), "(u(ia{sv}av))");
    assert_eq!(reply.child(0), Some(&Value::Uint32(1)));
    assert_eq!(answer.action, None);

    let ids = |ids: Vec<Value>| Value::Tuple(vec![Value::Array("i".into(), ids)]);
    let answer = tray.menu_call(
        "GetGroupProperties",
        &ids(vec![Value::Int32(5), Value::Int32(1)]),
    );
    let reply = answer.reply.unwrap();
    assert_eq!(reply.type_string(), "(a(ia{sv}))");
    assert_eq!(reply_ids(reply.child(0).unwrap()), vec![5, 1]);
    let reply = tray.menu_call("GetGroupProperties", &none).reply.unwrap();
    assert_eq!(reply_ids(reply.child(0).unwrap()).len(), 5);
    let odd = ids(vec![Value::Int32(5), text("x")]);
    let reply = tray.menu_call("GetGroupProperties", &odd).reply.unwrap();
    assert_eq!(reply_ids(reply.child(0).unwrap()).len(), 5, "not a list of numbers");

    let property = |id: i32, name: &str| Value::Tuple(vec![Value::Int32(id), text(name)]);
    let reply = tray
        .menu_call("GetProperty", &property(1, "label"))
        .reply
        .unwrap();
    assert_eq!(reply.type_string(), "(v)");
    let inner = reply.child(0).unwrap().child(0).unwrap();
    assert_eq!(inner.type_string(), "v");
    assert_eq!(inner.child(0), Some(&text("New Note")));
    let reply = tray
        .menu_call("GetProperty", &property(77, "label"))
        .reply
        .unwrap();
    let inner = reply.child(0).unwrap().child(0).unwrap();
    assert_eq!(inner.child(0), Some(&text("")));

    let answer = tray.menu_call("Event", &property(5, "clicked"));
    assert_eq!(answer.reply, None);
    assert_eq!(answer.action.as_deref(), Some("app.quit"));

    let answer = tray.menu_call("AboutToShow", &Value::Tuple(vec![Value::Int32(0)]));
    assert_eq!(answer.reply, Some(Value::Tuple(vec![Value::Bool(false)])));

    let answer = tray.menu_call("Nonsense", &none);
    assert_eq!((answer.reply, answer.action), (None, None));
}

#[test]
fn activating_the_icon_makes_a_note() {
    assert_eq!(Tray::item_call("Activate"), Some("app.new-note"));
    assert_eq!(Tray::item_call("Scroll"), None);
}

#[test]
fn the_icon_registers_under_the_name_of_its_process() {
    assert_eq!(bus_name(4711), "org.kde.StatusNotifierItem-4711-1");
    assert_eq!(
        registration("org.kde.StatusNotifierItem-4711-1"),
        Value::Tuple(vec![text("org.kde.StatusNotifierItem-4711-1")])
    );
    assert_eq!(
        watcher_question(),
        Value::Tuple(vec![text("org.kde.StatusNotifierWatcher")])
    );
    let answer = |b: bool| Outcome::Reply(Value::Tuple(vec![Value::Bool(b)]));
    assert!(watcher_present(&answer(true)));
    assert!(!watcher_present(&answer(false)));
    assert!(!watcher_present(&Outcome::NoBus));
    assert!(!watcher_present(&Outcome::Failed(CallError {
        absent: true,
        message: String::new(),
    })));
}

#[test]
fn a_copied_row_is_the_same_row() {
    let rows = [
        MenuEntry::Item {
            label: "New Note".into(),
            action: "app.new-note".into(),
            enabled: true,
        },
        MenuEntry::Info { label: "4 notes".into() },
        MenuEntry::Separator,
    ];
    assert_eq!(rows.clone(), rows);
}

#[test]
fn values_know_their_types() {
    let entry = Value::Entry(Box::new(text("k")), Box::new(Value::Int32(1)));
    assert_eq!(entry.type_string(), "{si}");
    assert_eq!(Value::Signature("ii".into()).type_string(), "g");
    assert_eq!(Value::Signature("ii".into()).get_str(), Some("ii"));
    assert_eq!(Value::Other("d".into()).type_string(), "d");
    assert_eq!(Value::Other("d".into()).child(0), None);
    assert_eq!(entry.child(1), Some(&Value::Int32(1)));
    assert_eq!(entry.child(2), None);
    assert_eq!(Value::Uint32(9).get_u32(), Some(9));
    assert_eq!(Value::Int32(9).get_u32(), None);
    assert_eq!(text("x").lookup("x"), None);
}
