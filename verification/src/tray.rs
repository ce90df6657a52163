//! The icon in the status bar: what it offers, and how its host is answered.
//!
//! Two interfaces make a tray icon. `org.kde.StatusNotifierItem` is the icon
//! itself, registered with a watcher; without a watcher there is no tray, and
//! the app carries on. `com.canonical.dbusmenu` is the menu: a tree of numbered
//! items whose properties are fetched on demand, with an invisible root as
//! item 0.

use crate::placement;
use crate::placement::{Outcome, Shell};
use crate::text;
use crate::wire;
use crate::wire::{Value, Wire};
use crate::APP_ID;
use vstd::prelude::*;
use vstd::string::StringExecFns;

verus! {

pub const ITEM_PATH: &'static str = "/StatusNotifierItem";

pub const MENU_PATH: &'static str = "/StatusNotifierMenu";

pub const ITEM_INTERFACE: &'static str = "org.kde.StatusNotifierItem";

pub const MENU_INTERFACE: &'static str = "com.canonical.dbusmenu";

pub const WATCHER_NAME: &'static str = "org.kde.StatusNotifierWatcher";

pub const WATCHER_PATH: &'static str = "/StatusNotifierWatcher";

/// What the icon exports.
pub const ITEM_XML: &'static str = r#"
<node>
  <interface name="org.kde.StatusNotifierItem">
    <property name="Category" type="s" access="read"/>
    <property name="Id" type="s" access="read"/>
    <property name="Title" type="s" access="read"/>
    <property name="Status" type="s" access="read"/>
    <property name="IconName" type="s" access="read"/>
    <property name="ItemIsMenu" type="b" access="read"/>
    <property name="Menu" type="o" access="read"/>
    <method name="Activate">
      <arg type="i" direction="in" name="x"/>
      <arg type="i" direction="in" name="y"/>
    </method>
    <method name="SecondaryActivate">
      <arg type="i" direction="in" name="x"/>
      <arg type="i" direction="in" name="y"/>
    </method>
    <method name="Scroll">
      <arg type="i" direction="in" name="delta"/>
      <arg type="s" direction="in" name="orientation"/>
    </method>
    <signal name="NewIcon"/>
    <signal name="NewStatus"><arg type="s" name="status"/></signal>
  </interface>
</node>"#;

/// What the menu exports.
pub const MENU_XML: &'static str = r#"
<node>
  <interface name="com.canonical.dbusmenu">
    <property name="Version" type="u" access="read"/>
    <property name="Status" type="s" access="read"/>
    <property name="TextDirection" type="s" access="read"/>
    <property name="IconThemePath" type="as" access="read"/>
    <method name="GetLayout">
      <arg type="i" direction="in" name="parentId"/>
      <arg type="i" direction="in" name="recursionDepth"/>
      <arg type="as" direction="in" name="propertyNames"/>
      <arg type="u" direction="out" name="revision"/>
      <arg type="(ia{sv}av)" direction="out" name="layout"/>
    </method>
    <method name="GetGroupProperties">
      <arg type="ai" direction="in" name="ids"/>
      <arg type="as" direction="in" name="propertyNames"/>
      <arg type="a(ia{sv})" direction="out" name="properties"/>
    </method>
    <method name="GetProperty">
      <arg type="i" direction="in" name="id"/>
      <arg type="s" direction="in" name="name"/>
      <arg type="v" direction="out" name="value"/>
    </method>
    <method name="Event">
      <arg type="i" direction="in" name="id"/>
      <arg type="s" direction="in" name="eventId"/>
      <arg type="v" direction="in" name="data"/>
      <arg type="u" direction="in" name="timestamp"/>
    </method>
    <method name="AboutToShow">
      <arg type="i" direction="in" name="id"/>
      <arg type="b" direction="out" name="needUpdate"/>
    </method>
    <signal name="LayoutUpdated">
      <arg type="u" name="revision"/>
      <arg type="i" name="parent"/>
    </signal>
    <signal name="ItemsPropertiesUpdated">
      <arg type="a(ia{sv})" name="updated"/>
      <arg type="a(ias)" name="removed"/>
    </signal>
  </interface>
</node>"#;

/// One row of the tray menu.
#[derive(Debug, Clone, PartialEq, Eq)]
pub enum MenuEntry {
    /// A row to click. `action` is a detailed action name (`"app.new-note"`).
    Item { label: String, action: String, enabled: bool },
    /// A line that only says something ("4 notes").
    Info { label: String },
    Separator,
}

/// A row of the menu, as a mathematical value.
pub enum Row {
    Item { label: Seq<char>, action: Seq<char>, enabled: bool },
    Info { label: Seq<char> },
    Separator,
}

impl View for MenuEntry {
    type V = Row;

    open spec fn view(&self) -> Row {
        match self {
            MenuEntry::Item { label, action, enabled } => Row::Item {
                label: label@,
                action: action@,
                enabled: *enabled,
            },
            MenuEntry::Info { label } => Row::Info { label: label@ },
            MenuEntry::Separator => Row::Separator,
        }
    }
}

/// Rows as mathematical values.
pub open spec fn rows(entries: Seq<MenuEntry>) -> Seq<Row> {
    entries.map_values(|e: MenuEntry| e@)
}

impl MenuEntry {
    /// A row that can be clicked.
    pub fn item(label: &str, action: &str) -> (r: Self)
        ensures
            r@ == (Row::Item { label: label@, action: action@, enabled: true }),
    {
        MenuEntry::Item { label: label.to_owned(), action: action.to_owned(), enabled: true }
    }

    /// A row that cannot be clicked now.
    pub fn disabled(label: &str, action: &str) -> (r: Self)
        ensures
            r@ == (Row::Item { label: label@, action: action@, enabled: false }),
    {
        MenuEntry::Item { label: label.to_owned(), action: action.to_owned(), enabled: false }
    }

    /// A line that only says something.
    pub fn info(label: &str) -> (r: Self)
        ensures
            r@ == (Row::Info { label: label@ }),
    {
        MenuEntry::Info { label: label.to_owned() }
    }

    fn same(&self, other: &MenuEntry) -> (r: bool)
        ensures
            r == (self@ == other@),
    {
        match (self, other) {
            (
                MenuEntry::Item { label, action, enabled },
                MenuEntry::Item { label: label2, action: action2, enabled: enabled2 },
            ) => *label == *label2 && *action == *action2 && *enabled == *enabled2,
            (MenuEntry::Info { label }, MenuEntry::Info { label: label2 }) => *label == *label2,
            (MenuEntry::Separator, MenuEntry::Separator) => true,
            _ => false,
        }
    }
}

// ---- properties of the icon and of the menu ----

/// A property of the icon.
pub open spec fn item_value(name: Seq<char>) -> Wire {
    if name == "Category"@ {
        Wire::Str("ApplicationStatus"@)
    } else if name == "Id"@ {
        Wire::Str(APP_ID@)
    } else if name == "Title"@ {
        Wire::Str("Stickies"@)
    } else if name == "Status"@ {
        Wire::Str("Active"@)
    } else if name == "IconName"@ {
        Wire::Str(APP_ID@ + "-symbolic"@)
    } else if name == "ItemIsMenu"@ {
        Wire::Bool(true)
    } else if name == "Menu"@ {
        Wire::ObjectPath(MENU_PATH@)
    } else {
        Wire::Str(""@)
    }
}

/// A property of the icon. An unknown one is an empty text.
pub fn item_property(name: &str) -> (r: Value)
    ensures
        r@ == item_value(name@),
{
    if *name == *"Category" {
        Value::Str("ApplicationStatus".to_owned())
    } else if *name == *"Id" {
        Value::Str(APP_ID.to_owned())
    } else if *name == *"Title" {
        Value::Str("Stickies".to_owned())
    } else if *name == *"Status" {
        Value::Str("Active".to_owned())
    } else if *name == *"IconName" {
        // Symbolic, so that it follows the colour of the panel.
        let mut icon = APP_ID.to_owned();
        icon.append("-symbolic");
        Value::Str(icon)
    } else if *name == *"ItemIsMenu" {
        // A left click opens the menu.
        Value::Bool(true)
    } else if *name == *"Menu" {
        Value::ObjectPath(MENU_PATH.to_owned())
    } else {
        Value::Str("".to_owned())
    }
}

/// A property of the menu.
pub open spec fn menu_value(name: Seq<char>) -> Wire {
    if name == "Version"@ {
        Wire::Uint32(3)
    } else if name == "Status"@ {
        Wire::Str("normal"@)
    } else if name == "TextDirection"@ {
        Wire::Str("ltr"@)
    } else if name == "IconThemePath"@ {
        Wire::Array("s"@, seq![])
    } else {
        Wire::Str(""@)
    }
}

/// A property of the menu. An unknown one is an empty text.
pub fn menu_property(name: &str) -> (r: Value)
    ensures
        r@ == menu_value(name@),
{
    if *name == *"Version" {
        Value::Uint32(3)
    } else if *name == *"Status" {
        Value::Str("normal".to_owned())
    } else if *name == *"TextDirection" {
        Value::Str("ltr".to_owned())
    } else if *name == *"IconThemePath" {
        let none: Vec<Value> = Vec::new();
        proof {
            wire::lemma_models(none@);
            assert(wire::models(none@) =~= seq![]);
        }
        Value::Array("s".to_owned(), none)
    } else {
        Value::Str("".to_owned())
    }
}

// ---- rows ----

/// The row with this number. The root is 0, so rows count from 1.
pub open spec fn row_at(rows: Seq<Row>, id: int) -> Option<Row> {
    if 1 <= id <= rows.len() {
        Some(rows[id - 1])
    } else {
        None
    }
}

/// The entry with this number.
pub fn entry_at(entries: &[MenuEntry], id: i32) -> (r: Option<&MenuEntry>)
    ensures
        match r {
            Some(e) => 1 <= id <= entries@.len() && *e == entries@[id - 1],
            None => !(1 <= id <= entries@.len()),
        },
        match r {
            Some(e) => row_at(rows(entries@), id as int) == Some(e@),
            None => row_at(rows(entries@), id as int) is None,
        },
{
    if id < 1 {
        return None;
    }
    let i: usize = (id - 1) as usize;
    if i < entries.len() {
        assert(rows(entries@)[i as int] == entries@[i as int]@);
        Some(&entries[i])
    } else {
        None
    }
}

/// An entry of a dictionary.
pub open spec fn dict_entry(key: Seq<char>, value: Wire) -> Wire {
    Wire::Entry(Box::new(Wire::Str(key)), Box::new(Wire::Boxed(Box::new(value))))
}

/// A dictionary with these entries.
pub open spec fn dict(entries: Seq<Wire>) -> Wire {
    Wire::Array("{sv}"@, entries)
}

/// The properties of a row.
pub open spec fn row_entries(row: Row) -> Seq<Wire> {
    match row {
        Row::Separator => seq![
            dict_entry("type"@, Wire::Str("separator"@)),
            dict_entry("visible"@, Wire::Bool(true)),
        ],
        Row::Info { label } => seq![
            dict_entry("label"@, Wire::Str(label)),
            dict_entry("enabled"@, Wire::Bool(false)),
            dict_entry("visible"@, Wire::Bool(true)),
        ],
        Row::Item { label, action, enabled } => seq![
            dict_entry("label"@, Wire::Str(label)),
            dict_entry("enabled"@, Wire::Bool(enabled)),
            dict_entry("visible"@, Wire::Bool(true)),
        ],
    }
}

fn make_entry(key: &str, value: Value) -> (r: Value)
    ensures
        r@ == dict_entry(key@, value@),
{
    proof {
        reveal_with_fuel(Value::model, 3);
    }
    Value::Entry(Box::new(Value::Str(key.to_owned())), Box::new(Value::Boxed(Box::new(value))))
}

fn add_entry(out: &mut Vec<Value>, key: &str, value: Value)
    ensures
        wire::models(final(out)@) == wire::models(old(out)@).push(dict_entry(key@, value@)),
{
    let entry = make_entry(key, value);
    proof {
        wire::lemma_models_push(out@, entry);
    }
    out.push(entry);
}

/// The properties of a row, as a dictionary. A separator has a type where
/// other rows have a label.
pub fn entry_properties(entry: &MenuEntry) -> (r: Value)
    ensures
        r@ == dict(row_entries(entry@)),
{
    let mut out: Vec<Value> = Vec::new();
    proof {
        wire::lemma_models(out@);
        assert(wire::models(out@) =~= seq![]);
    }
    match entry {
        MenuEntry::Separator => {
            add_entry(&mut out, "type", Value::Str("separator".to_owned()));
        },
        MenuEntry::Info { label } => {
            add_entry(&mut out, "label", Value::Str(label.clone()));
            add_entry(&mut out, "enabled", Value::Bool(false));
        },
        MenuEntry::Item { label, enabled, .. } => {
            add_entry(&mut out, "label", Value::Str(label.clone()));
            add_entry(&mut out, "enabled", Value::Bool(*enabled));
        },
    }
    add_entry(&mut out, "visible", Value::Bool(true));
    assert(wire::models(out@) =~= row_entries(entry@));
    Value::Array("{sv}".to_owned(), out)
}

/// One property of a row.
pub open spec fn row_property(rows: Seq<Row>, id: int, name: Seq<char>) -> Option<Wire> {
    match row_at(rows, id) {
        Some(row) => wire::lookup_from(row_entries(row), name, 0),
        None => None,
    }
}

/// One property of the row with this number.
pub fn entry_property(entries: &[MenuEntry], id: i32, name: &str) -> (r: Option<Value>)
    ensures
        match r {
            Some(v) => row_property(rows(entries@), id as int, name@) == Some(v@),
            None => row_property(rows(entries@), id as int, name@) is None,
        },
{
    match entry_at(entries, id) {
        Some(entry) => {
            let properties = entry_properties(entry);
            match properties.lookup(name) {
                Some(Value::Str(s)) => Some(Value::Str(s.clone())),
                Some(Value::Bool(b)) => Some(Value::Bool(*b)),
                Some(v) => {
                    proof {
                        lemma_plain_properties(entry@, name@, 0);
                    }
                    None
                },
                None => None,
            }
        },
        None => None,
    }
}

/// The properties of a row are texts and truth values.
pub proof fn lemma_plain_properties(row: Row, name: Seq<char>, from: int)
    requires
        0 <= from,
    ensures
        wire::lookup_from(row_entries(row), name, from) matches Some(v) ==> v is Str || v is Bool,
    decreases row_entries(row).len() - from,
{
    if from < row_entries(row).len() {
        lemma_plain_properties(row, name, from + 1);
    }
}

// ---- the tree of the menu ----

/// A node of the menu: its number, its properties and its children.
pub open spec fn menu_node(id: int, properties: Wire, children: Seq<Wire>) -> Wire {
    Wire::Tuple(seq![Wire::Int32(id), properties, Wire::Array("v"@, children)])
}

/// The node of the row at index `i`, boxed as a child of the root.
pub open spec fn row_node(rows: Seq<Row>, i: int) -> Wire {
    Wire::Boxed(Box::new(menu_node(i + 1, dict(row_entries(rows[i])), seq![])))
}

/// The whole menu: a root that holds every row.
pub open spec fn menu_layout(rows: Seq<Row>) -> Wire {
    menu_node(
        0,
        dict(seq![dict_entry("children-display"@, Wire::Str("submenu"@))]),
        Seq::new(rows.len(), |i: int| row_node(rows, i)),
    )
}

/// One `(ia{sv}av)` node of the menu.
pub fn node(id: i32, properties: Value, children: Vec<Value>) -> (r: Value)
    ensures
        r@ == menu_node(id as int, properties@, wire::models(children@)),
{
    let mut parts: Vec<Value> = Vec::new();
    parts.push(Value::Int32(id));
    parts.push(properties);
    parts.push(Value::Array("v".to_owned(), children));
    proof {
        wire::lemma_models(parts@);
        assert(wire::models(parts@) =~= menu_node(
            id as int,
            properties@,
            wire::models(children@),
        )->Tuple_0);
    }
    Value::Tuple(parts)
}

/// The tree that `GetLayout` returns: a root that holds every entry.
pub fn layout(entries: &[MenuEntry]) -> (r: Value)
    requires
        entries@.len() <= i32::MAX,
    ensures
        r@ == menu_layout(rows(entries@)),
{
    let ghost all = rows(entries@);
    let ghost nodes = Seq::new(all.len(), |i: int| row_node(all, i));
    let mut children: Vec<Value> = Vec::new();
    let mut i: usize = 0;
    proof {
        wire::lemma_models(children@);
    }
    while i < entries.len()
        invariant
            i <= entries@.len() <= i32::MAX,
            all == rows(entries@),
            nodes == Seq::new(all.len(), |i: int| row_node(all, i)),
            wire::models(children@) == nodes.take(i as int),
        decreases entries@.len() - i,
    {
        let none: Vec<Value> = Vec::new();
        let child = node(i as i32 + 1, entry_properties(&entries[i]), none);
        proof {
            wire::lemma_models(none@);
            assert(wire::models(none@) =~= seq![]);
            assert(all[i as int] == entries@[i as int]@);
        }
        let boxed = Value::Boxed(Box::new(child));
        proof {
            wire::lemma_models_push(children@, boxed);
            assert(boxed@ == row_node(all, i as int));
            assert(nodes.take(i + 1) =~= nodes.take(i as int).push(boxed@));
        }
        children.push(boxed);
        i += 1;
    }
    assert(nodes.take(i as int) =~= nodes);
    let mut root: Vec<Value> = Vec::new();
    proof {
        wire::lemma_models(root@);
        assert(wire::models(root@) =~= seq![]);
    }
    add_entry(&mut root, "children-display", Value::Str("submenu".to_owned()));
    assert(wire::models(root@) =~= seq![
        dict_entry("children-display"@, Wire::Str("submenu"@)),
    ]);
    node(0, Value::Array("{sv}".to_owned(), root), children)
}

/// What is said of the row with this number.
pub open spec fn group_row(rows: Seq<Row>, id: int) -> Option<Wire> {
    match row_at(rows, id) {
        Some(row) => Some(Wire::Tuple(seq![Wire::Int32(id), dict(row_entries(row))])),
        None => None,
    }
}

/// What is said of the rows with these numbers. Numbers of no row are skipped.
pub open spec fn group_rows(rows: Seq<Row>, ids: Seq<int>) -> Seq<Wire>
    decreases ids.len(),
{
    if ids.len() == 0 {
        seq![]
    } else {
        let before = group_rows(rows, ids.drop_last());
        match group_row(rows, ids.last()) {
            Some(row) => before.push(row),
            None => before,
        }
    }
}

/// The numbers asked about: every row's, when none is named.
pub open spec fn wanted_ids(rows: Seq<Row>, ids: Seq<int>) -> Seq<int> {
    if ids.len() == 0 {
        Seq::new(rows.len(), |i: int| i + 1)
    } else {
        ids
    }
}

/// The properties of the rows asked about.
pub open spec fn menu_group(rows: Seq<Row>, ids: Seq<int>) -> Wire {
    Wire::Array("(ia{sv})"@, group_rows(rows, wanted_ids(rows, ids)))
}

/// Numbers as mathematical values.
pub open spec fn numbers(ids: Seq<i32>) -> Seq<int> {
    ids.map_values(|n: i32| n as int)
}

fn all_ids(n: usize) -> (r: Vec<i32>)
    requires
        n <= i32::MAX,
    ensures
        numbers(r@) == Seq::new(n as nat, |i: int| i + 1),
{
    let mut out: Vec<i32> = Vec::new();
    let mut i: usize = 0;
    while i < n
        invariant
            i <= n <= i32::MAX,
            out@.len() == i,
            forall|j: int| 0 <= j < i ==> #[trigger] out@[j] == j + 1,
        decreases n - i,
    {
        out.push(i as i32 + 1);
        i += 1;
    }
    assert(numbers(out@) =~= Seq::new(n as nat, |i: int| i + 1));
    out
}

fn rows_of(entries: &[MenuEntry], ids: &[i32]) -> (r: Vec<Value>)
    ensures
        wire::models(r@) == group_rows(rows(entries@), numbers(ids@)),
{
    let ghost all = rows(entries@);
    let ghost wanted = numbers(ids@);
    let mut out: Vec<Value> = Vec::new();
    let mut i: usize = 0;
    proof {
        wire::lemma_models(out@);
        assert(wire::models(out@) =~= seq![]);
        assert(wanted.take(0) =~= seq![]);
    }
    while i < ids.len()
        invariant
            i <= ids@.len(),
            all == rows(entries@),
            wanted == numbers(ids@),
            wire::models(out@) == group_rows(all, wanted.take(i as int)),
        decreases ids@.len() - i,
    {
        proof {
            assert(wanted.take(i + 1).drop_last() =~= wanted.take(i as int));
            assert(wanted.take(i + 1).last() == ids@[i as int]);
        }
        if let Some(entry) = entry_at(entries, ids[i]) {
            let mut parts: Vec<Value> = Vec::new();
            parts.push(Value::Int32(ids[i]));
            parts.push(entry_properties(entry));
            proof {
                wire::lemma_models(parts@);
                assert(wire::models(parts@) =~= seq![
                    Wire::Int32(ids@[i as int] as int),
                    dict(row_entries(entry@)),
                ]);
            }
            let row = Value::Tuple(parts);
            proof {
                wire::lemma_models_push(out@, row);
            }
            out.push(row);
        }
        i += 1;
    }
    assert(wanted.take(i as int) =~= wanted);
    out
}

/// The `a(ia{sv})` array that `GetGroupProperties` returns. An empty list of
/// numbers asks about everything.
pub fn group_properties(entries: &[MenuEntry], ids: &[i32]) -> (r: Value)
    requires
        entries@.len() <= i32::MAX,
    ensures
        r@ == menu_group(rows(entries@), numbers(ids@)),
{
    if ids.len() == 0 {
        let all = all_ids(entries.len());
        assert(numbers(all@) =~= wanted_ids(rows(entries@), numbers(ids@)));
        Value::Array("(ia{sv})".to_owned(), rows_of(entries, all.as_slice()))
    } else {
        Value::Array("(ia{sv})".to_owned(), rows_of(entries, ids))
    }
}

// ---- clicks ----

/// The action that an event on a row sets off: that of an enabled item which
/// was clicked.
pub open spec fn clicked_action(rows: Seq<Row>, id: int, event: Seq<char>) -> Option<Seq<char>> {
    if event == "clicked"@ {
        match row_at(rows, id) {
            Some(Row::Item { action, enabled, .. }) if enabled => Some(action),
            _ => None,
        }
    } else {
        None
    }
}

/// The action that an event on a row sets off. It is handed back rather than
/// carried out here, so that whoever carries it out may change the menu.
pub fn dispatch_event(entries: &[MenuEntry], id: i32, event: &str) -> (r: Option<String>)
    ensures
        match r {
            Some(action) => clicked_action(rows(entries@), id as int, event@) == Some(action@),
            None => clicked_action(rows(entries@), id as int, event@) is None,
        },
{
    if *event == *"clicked" {
        match entry_at(entries, id) {
            Some(MenuEntry::Item { action, enabled, .. }) => {
                if *enabled {
                    Some(action.clone())
                } else {
                    None
                }
            },
            _ => None,
        }
    } else {
        None
    }
}

// ---- the icon ----

/// What the desktop has to offer a tray icon.
#[derive(Debug, Clone, Copy, PartialEq, Eq, Structural)]
pub struct TrayHost {
    /// The user asked for no tray.
    pub opted_out: bool,
    /// There is a session bus.
    pub bus: bool,
    /// Something shows tray icons.
    pub watcher: bool,
}

/// A live tray icon.
#[derive(Debug)]
pub struct Tray {
    pub entries: Vec<MenuEntry>,
    /// Counts the changes of the menu.
    pub revision: u32,
}

/// The answer to a call: the reply, and then an action to carry out.
#[derive(Debug, PartialEq, Eq)]
pub struct MenuAnswer {
    pub reply: Option<Value>,
    /// Carried out after the reply, which should not have to wait for it.
    pub action: Option<String>,
}

/// An answer, as a mathematical value.
pub struct Answered {
    pub reply: Option<Wire>,
    pub action: Option<Seq<char>>,
}

impl View for MenuAnswer {
    type V = Answered;

    open spec fn view(&self) -> Answered {
        Answered {
            reply: match self.reply {
                Some(v) => Some(v@),
                None => None,
            },
            action: match self.action {
                Some(s) => Some(s@),
                None => None,
            },
        }
    }
}

/// A number among the arguments of a call; 0 when it is not there.
pub open spec fn int_arg(params: Wire, i: int) -> int {
    match params.child(i) {
        Some(w) => match w.as_int32() {
            Some(n) => n,
            None => 0,
        },
        None => 0,
    }
}

/// A text among the arguments of a call; empty when it is not there.
pub open spec fn text_arg(params: Wire, i: int) -> Seq<char> {
    match params.child(i) {
        Some(w) => match w.as_text() {
            Some(s) => s,
            None => seq![],
        },
        None => seq![],
    }
}

/// Is every item a number?
pub open spec fn all_ints(items: Seq<Wire>) -> bool {
    forall|i: int| 0 <= i < items.len() ==> (#[trigger] items[i]) is Int32
}

/// The list of numbers that is the first argument of a call; empty when it is
/// no such list.
pub open spec fn ints_arg(params: Wire) -> Seq<int> {
    match params.child(0) {
        Some(w) => match w.children() {
            Some(items) if all_ints(items) => Seq::new(
                items.len(),
                |i: int| items[i].as_int32()->0,
            ),
            _ => seq![],
        },
        None => seq![],
    }
}

/// The answer to a call of the menu.
pub open spec fn menu_answer(
    rows: Seq<Row>,
    revision: int,
    method: Seq<char>,
    params: Wire,
) -> Answered {
    if method == "GetLayout"@ {
        Answered {
            reply: Some(Wire::Tuple(seq![Wire::Uint32(revision), menu_layout(rows)])),
            action: None,
        }
    } else if method == "GetGroupProperties"@ {
        Answered {
            reply: Some(Wire::Tuple(seq![menu_group(rows, ints_arg(params))])),
            action: None,
        }
    } else if method == "GetProperty"@ {
        let value = match row_property(rows, int_arg(params, 0), text_arg(params, 1)) {
            Some(v) => v,
            None => Wire::Str(""@),
        };
        Answered {
            reply: Some(
                Wire::Tuple(
                    seq![Wire::Boxed(Box::new(Wire::Boxed(Box::new(value))))],
                ),
            ),
            action: None,
        }
    } else if method == "Event"@ {
        Answered {
            reply: None,
            action: clicked_action(rows, int_arg(params, 0), text_arg(params, 1)),
        }
    } else if method == "AboutToShow"@ {
        Answered { reply: Some(Wire::Tuple(seq![Wire::Bool(false)])), action: None }
    } else {
        Answered { reply: None, action: None }
    }
}

fn int_of(params: &Value, i: usize) -> (r: i32)
    ensures
        r == int_arg(params@, i as int),
{
    match params.child(i) {
        Some(v) => match v.get_i32() {
            Some(n) => n,
            None => 0,
        },
        None => 0,
    }
}

fn text_of(params: &Value, i: usize) -> (r: String)
    ensures
        r@ == text_arg(params@, i as int),
{
    match params.child(i) {
        Some(v) => match v.get_str() {
            Some(s) => s.to_owned(),
            None => String::new(),
        },
        None => String::new(),
    }
}

fn ints_of(params: &Value) -> (r: Vec<i32>)
    ensures
        numbers(r@) == ints_arg(params@),
{
    let mut out: Vec<i32> = Vec::new();
    assert(numbers(out@) =~= seq![]);
    if let Some(list) = params.child(0) {
        let n: usize = list.n_children();
        if n == 0 {
            assert(numbers(out@) =~= ints_arg(params@));
            return out;
        }
        let ghost items = list@.children()->0;
        let mut i: usize = 0;
        while i < n
            invariant
                i <= n == items.len(),
                params@.child(0) == Some(list@),
                list@.children() == Some(items),
                out@.len() == i,
                forall|j: int|
                    0 <= j < i ==> #[trigger] items[j] is Int32 && items[j].as_int32() == Some(
                        out@[j] as int,
                    ),
            decreases n - i,
        {
            match list.child(i) {
                Some(v) => {
                    assert(v@ == items[i as int]);
                    match v.get_i32() {
                        Some(number) => {
                            out.push(number);
                        },
                        None => {
                            assert(!(items[i as int] is Int32));
                            let none: Vec<i32> = Vec::new();
                            assert(numbers(none@) =~= ints_arg(params@));
                            return none;
                        },
                    }
                },
                None => {},
            }
            i += 1;
        }
        assert(all_ints(items));
        assert(numbers(out@) =~= ints_arg(params@));
    }
    out
}

fn tuple_of(v: Value) -> (r: Value)
    ensures
        r@ == Wire::Tuple(seq![v@]),
{
    let mut parts: Vec<Value> = Vec::new();
    parts.push(v);
    proof {
        wire::lemma_models(parts@);
        assert(wire::models(parts@) =~= seq![v@]);
    }
    Value::Tuple(parts)
}

fn pair_of(a: Value, b: Value) -> (r: Value)
    ensures
        r@ == Wire::Tuple(seq![a@, b@]),
{
    let mut parts: Vec<Value> = Vec::new();
    parts.push(a);
    parts.push(b);
    proof {
        wire::lemma_models(parts@);
        assert(wire::models(parts@) =~= seq![a@, b@]);
    }
    Value::Tuple(parts)
}

impl Tray {
    /// Does every row have a number?
    pub open spec fn numbered(self) -> bool {
        self.entries@.len() <= i32::MAX
    }

    /// The icon with this menu, if it can be shown.
    ///
    /// The caller takes a live tray for a reason to keep running with no window
    /// on screen, so an icon that nothing shows must not be made: it would leave
    /// the app with no way to reach it.
    pub fn new(entries: Vec<MenuEntry>, host: TrayHost) -> (r: Option<Tray>)
        ensures
            match r {
                Some(tray) => {
                    &&& !host.opted_out && host.bus && host.watcher
                    &&& tray.entries == entries
                    &&& tray.revision == 1
                },
                None => host.opted_out || !host.bus || !host.watcher,
            },
    {
        if host.opted_out || !host.bus || !host.watcher {
            None
        } else {
            Some(Tray { entries, revision: 1 })
        }
    }

    fn shows(&self, entries: &Vec<MenuEntry>) -> (r: bool)
        ensures
            r == (rows(self.entries@) == rows(entries@)),
    {
        if self.entries.len() != entries.len() {
            assert(rows(self.entries@).len() != rows(entries@).len());
            return false;
        }
        let mut i: usize = 0;
        while i < entries.len()
            invariant
                i <= entries@.len() == self.entries@.len(),
                forall|j: int|
                    0 <= j < i ==> #[trigger] rows(self.entries@)[j] == rows(entries@)[j],
            decreases entries@.len() - i,
        {
            if !self.entries[i].same(&entries[i]) {
                assert(rows(self.entries@)[i as int] != rows(entries@)[i as int]);
                return false;
            }
            i += 1;
        }
        assert(rows(self.entries@) =~= rows(entries@));
        true
    }

    /// Replace the menu. The result, if any, is what to tell the host, so that
    /// it reads the menu again: the revision, and the root.
    pub fn set_entries(&mut self, entries: Vec<MenuEntry>) -> (r: Option<Value>)
        ensures
            rows(final(self).entries@) == rows(entries@),
            if rows(old(self).entries@) == rows(entries@) {
                r is None && *final(self) == *old(self)
            } else {
                &&& final(self).revision == old(self).revision.wrapping_add(1)
                &&& r matches Some(v) && v@ == Wire::Tuple(
                    seq![Wire::Uint32(final(self).revision as int), Wire::Int32(0)],
                )
            },
    {
        if self.shows(&entries) {
            return None;
        }
        self.entries = entries;
        self.revision = self.revision.wrapping_add(1);
        Some(pair_of(Value::Uint32(self.revision), Value::Int32(0)))
    }

    /// Answer a call of the menu.
    pub fn menu_call(&self, method: &str, params: &Value) -> (r: MenuAnswer)
        requires
            self.numbered(),
        ensures
            r@ == menu_answer(rows(self.entries@), self.revision as int, method@, params@),
    {
        let entries = self.entries.as_slice();
        if *method == *"GetLayout" {
            let reply = pair_of(Value::Uint32(self.revision), layout(entries));
            MenuAnswer { reply: Some(reply), action: None }
        } else if *method == *"GetGroupProperties" {
            let ids = ints_of(params);
            let reply = tuple_of(group_properties(entries, ids.as_slice()));
            MenuAnswer { reply: Some(reply), action: None }
        } else if *method == *"GetProperty" {
            let name = text_of(params, 1);
            let value = match entry_property(entries, int_of(params, 0), name.as_str()) {
                Some(v) => v,
                None => Value::Str("".to_owned()),
            };
            proof {
                reveal_with_fuel(Value::model, 3);
            }
            let reply = tuple_of(Value::Boxed(Box::new(Value::Boxed(Box::new(value)))));
            MenuAnswer { reply: Some(reply), action: None }
        } else if *method == *"Event" {
            let event = text_of(params, 1);
            let action = dispatch_event(entries, int_of(params, 0), event.as_str());
            MenuAnswer { reply: None, action }
        } else if *method == *"AboutToShow" {
            // The host fetches properties itself; nothing is rebuilt between
            // opening the menu and drawing it.
            MenuAnswer { reply: Some(tuple_of(Value::Bool(false))), action: None }
        } else {
            MenuAnswer { reply: None, action: None }
        }
    }

    /// The action that a call of the icon sets off. The host normally opens the
    /// menu on a click, but some send `Activate` all the same.
    pub fn item_call(method: &str) -> (r: Option<&'static str>)
        ensures
            match r {
                Some(action) => method@ == "Activate"@ && action@ == "app.new-note"@,
                None => method@ != "Activate"@,
            },
    {
        if *method == *"Activate" {
            Some("app.new-note")
        } else {
            None
        }
    }
}

/// The name that the icon of process `pid` claims on the bus.
pub open spec fn item_bus_name(pid: int) -> Seq<char> {
    "org.kde.StatusNotifierItem-"@ + text::decimal(pid) + "-1"@
}

/// The name that the icon claims on the bus: items are named after their
/// process, so that several can coexist.
pub fn bus_name(pid: u32) -> (r: String)
    ensures
        r@ == item_bus_name(pid as int),
{
    let mut out = "org.kde.StatusNotifierItem-".to_owned();
    out.append(text::decimal_u64(pid as u64).as_str());
    out.append("-1");
    out
}

/// The arguments that ask the bus whether anything shows tray icons.
pub fn watcher_question() -> (r: Value)
    ensures
        r@ == Wire::Tuple(seq![Wire::Str(WATCHER_NAME@)]),
{
    tuple_of(Value::Str(WATCHER_NAME.to_owned()))
}

/// Does anything show tray icons, by the bus's answer?
pub fn watcher_present(outcome: &Outcome) -> (r: bool)
    ensures
        r == placement::answered_yes(outcome.answer()),
{
    Shell::done_from(outcome)
}

/// The arguments that register the icon under this name.
pub fn registration(name: &str) -> (r: Value)
    ensures
        r@ == Wire::Tuple(seq![Wire::Str(name@)]),
{
    tuple_of(Value::Str(name.to_owned()))
}

} // verus!
