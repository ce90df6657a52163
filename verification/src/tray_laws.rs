//! What holds of the tray menu as a whole.

use crate::tray;
use crate::tray::{MenuAnswer, MenuEntry, Row};
use crate::wire;
use crate::wire::Wire;
use vstd::prelude::*;

verus! {

proof fn lemma_dict_entry(key: Seq<char>, value: Wire)
    requires
        value is Str || value is Bool,
    ensures
        tray::dict_entry(key, value).kind() == "{sv}"@,
        tray::dict_entry(key, value).sound(),
{
    reveal_strlit("{sv}");
    reveal_with_fuel(Wire::kind, 3);
    reveal_with_fuel(Wire::sound, 4);
    assert(tray::dict_entry(key, value).kind() =~= "{sv}"@);
}

proof fn lemma_dict(row: Row)
    ensures
        tray::dict(tray::row_entries(row)).kind() == seq!['a', '{', 's', 'v', '}'],
        tray::dict(tray::row_entries(row)).sound(),
{
    reveal_strlit("{sv}");
    let entries = tray::row_entries(row);
    assert forall|i: int| 0 <= i < entries.len() implies (#[trigger] entries[i]).kind() == "{sv}"@
        && entries[i].sound() by {
        match row {
            Row::Separator => {
                lemma_dict_entry("type"@, Wire::Str("separator"@));
                lemma_dict_entry("visible"@, Wire::Bool(true));
            },
            Row::Info { label } => {
                lemma_dict_entry("label"@, Wire::Str(label));
                lemma_dict_entry("enabled"@, Wire::Bool(false));
                lemma_dict_entry("visible"@, Wire::Bool(true));
            },
            Row::Item { label, action, enabled } => {
                lemma_dict_entry("label"@, Wire::Str(label));
                lemma_dict_entry("enabled"@, Wire::Bool(enabled));
                lemma_dict_entry("visible"@, Wire::Bool(true));
            },
        }
    }
    assert(wire::all_sound(entries));
    assert(tray::dict(entries).kind() =~= seq!['a', '{', 's', 'v', '}']);
}

proof fn lemma_node(id: int, properties: Wire, children: Seq<Wire>)
    requires
        properties.kind() == seq!['a', '{', 's', 'v', '}'],
        properties.sound(),
        wire::all_sound(children),
        forall|i: int| 0 <= i < children.len() ==> (#[trigger] children[i]) is Boxed,
    ensures
        tray::menu_node(id, properties, children).kind() == "(ia{sv}av)"@,
        tray::menu_node(id, properties, children).sound(),
{
    reveal_strlit("(ia{sv}av)");
    reveal_strlit("v");
    let parts = tray::menu_node(id, properties, children)->Tuple_0;
    wire::lemma_kinds_take(parts, 0);
    wire::lemma_kinds_take(parts, 1);
    wire::lemma_kinds_take(parts, 2);
    assert(parts.take(3) =~= parts);
    assert(parts[0].kind() =~= seq!['i']);
    assert(parts[2].kind() =~= seq!['a', 'v']);
    assert(wire::kinds(parts) =~= seq!['i', 'a', '{', 's', 'v', '}', 'a', 'v']);
    assert(tray::menu_node(id, properties, children).kind() =~= "(ia{sv}av)"@);
    assert forall|i: int| 0 <= i < children.len() implies (#[trigger] children[i]).kind()
        == "v"@ by {
        assert(children[i].kind() =~= "v"@);
    }
    assert(parts[2].sound());
    assert(wire::all_sound(parts));
}

/// The menu always has the type that the interface declares. A menu of any
/// other type would silently never appear.
pub proof fn the_layout_has_the_declared_type(rows: Seq<Row>)
    ensures
        tray::menu_layout(rows).kind() == "(ia{sv}av)"@,
        tray::menu_layout(rows).sound(),
{
    let root = seq![tray::dict_entry("children-display"@, Wire::Str("submenu"@))];
    lemma_dict_entry("children-display"@, Wire::Str("submenu"@));
    reveal_strlit("{sv}");
    assert(wire::all_sound(root));
    assert(tray::dict(root).kind() =~= seq!['a', '{', 's', 'v', '}']);
    assert(tray::dict(root).sound());
    let children = Seq::new(rows.len(), |i: int| tray::row_node(rows, i));
    assert forall|i: int| 0 <= i < children.len() implies (#[trigger] children[i]).sound() by {
        lemma_dict(rows[i]);
        let none = Seq::<Wire>::empty();
        assert(wire::all_sound(none));
        lemma_node(i + 1, tray::dict(tray::row_entries(rows[i])), none);
        assert(children[i] == tray::row_node(rows, i));
    }
    lemma_node(0, tray::dict(root), children);
}

/// The properties of a group of rows always have the type that the interface
/// declares.
pub proof fn a_group_has_the_declared_type(rows: Seq<Row>, ids: Seq<int>)
    ensures
        tray::menu_group(rows, ids).kind() == "a(ia{sv})"@,
        tray::menu_group(rows, ids).sound(),
{
    reveal_strlit("a(ia{sv})");
    reveal_strlit("(ia{sv})");
    let group = tray::group_rows(rows, tray::wanted_ids(rows, ids));
    lemma_group_rows(rows, tray::wanted_ids(rows, ids));
    assert(tray::menu_group(rows, ids).kind() =~= "a(ia{sv})"@);
    assert(wire::all_sound(group));
}

proof fn lemma_group_rows(rows: Seq<Row>, ids: Seq<int>)
    ensures
        forall|i: int|
            0 <= i < tray::group_rows(rows, ids).len() ==> {
                let row = #[trigger] tray::group_rows(rows, ids)[i];
                row.kind() == "(ia{sv})"@ && row.sound()
            },
    decreases ids.len(),
{
    if ids.len() > 0 {
        lemma_group_rows(rows, ids.drop_last());
        if let Some(row) = tray::row_at(rows, ids.last()) {
            lemma_dict(row);
            reveal_strlit("(ia{sv})");
            let parts = tray::group_row(rows, ids.last())->0->Tuple_0;
            wire::lemma_kinds_take(parts, 0);
            wire::lemma_kinds_take(parts, 1);
            assert(parts.take(2) =~= parts);
            assert(parts[0].kind() =~= seq!['i']);
            assert(wire::kinds(parts) =~= seq!['i', 'a', '{', 's', 'v', '}']);
            assert(Wire::Tuple(parts).kind() =~= "(ia{sv})"@);
            assert(parts[0].sound() && parts[1].sound());
            assert(wire::all_sound(parts));
            assert(Wire::Tuple(parts).sound());
        }
    }
}

proof fn lemma_single(v: Wire)
    requires
        v.sound(),
    ensures
        Wire::Tuple(seq![v]).kind() == seq!['('] + v.kind() + seq![')'],
        Wire::Tuple(seq![v]).sound(),
{
    wire::lemma_kinds_take(seq![v], 0);
    assert(seq![v].take(1) =~= seq![v]);
    assert(wire::kinds(seq![v]) =~= v.kind());
    assert(wire::all_sound(seq![v]));
}

/// Whatever the call, the menu's reply has the type that the interface
/// declares for it.
pub proof fn replies_have_the_declared_types(
    rows: Seq<Row>,
    revision: int,
    method: Seq<char>,
    params: Wire,
)
    ensures
        tray::menu_answer(rows, revision, method, params).reply matches Some(reply) ==> {
            &&& reply.sound()
            &&& method == "GetLayout"@ ==> reply.kind() == "(u(ia{sv}av))"@
            &&& method == "GetGroupProperties"@ ==> reply.kind() == "(a(ia{sv}))"@
            &&& method == "GetProperty"@ ==> reply.kind() == "(v)"@
            &&& method == "AboutToShow"@ ==> reply.kind() == "(b)"@
        },
{
    reveal_strlit("GetLayout");
    reveal_strlit("GetGroupProperties");
    reveal_strlit("GetProperty");
    reveal_strlit("AboutToShow");
    reveal_strlit("Event");
    assert("GetLayout"@.len() == 9 && "GetGroupProperties"@.len() == 18 && "GetProperty"@.len()
        == 11 && "AboutToShow"@.len() == 11 && "Event"@.len() == 5);
    assert("GetProperty"@[0] == 'G' && "AboutToShow"@[0] == 'A');
    if method == "GetLayout"@ {
        the_layout_has_the_declared_type(rows);
        reveal_strlit("(ia{sv}av)");
        reveal_strlit("(u(ia{sv}av))");
        let parts = seq![Wire::Uint32(revision), tray::menu_layout(rows)];
        wire::lemma_kinds_take(parts, 0);
        wire::lemma_kinds_take(parts, 1);
        assert(parts.take(2) =~= parts);
        assert(parts[0].kind() =~= seq!['u']);
        assert(wire::kinds(parts) =~= seq!['u'] + "(ia{sv}av)"@);
        assert(Wire::Tuple(parts).kind() =~= "(u(ia{sv}av))"@);
        assert(parts[0].sound() && parts[1].sound());
        assert(wire::all_sound(parts));
    } else if method == "GetGroupProperties"@ {
        let group = tray::menu_group(rows, tray::ints_arg(params));
        a_group_has_the_declared_type(rows, tray::ints_arg(params));
        lemma_single(group);
        reveal_strlit("a(ia{sv})");
        reveal_strlit("(a(ia{sv}))");
        assert(Wire::Tuple(seq![group]).kind() =~= "(a(ia{sv}))"@);
    } else if method == "GetProperty"@ {
        let found = tray::row_property(
            rows,
            tray::int_arg(params, 0),
            tray::text_arg(params, 1),
        );
        let value = match found {
            Some(v) => v,
            None => Wire::Str(""@),
        };
        assert(value is Str || value is Bool) by {
            if let Some(row) = tray::row_at(rows, tray::int_arg(params, 0)) {
                tray::lemma_plain_properties(row, tray::text_arg(params, 1), 0);
            }
        }
        let boxed = Wire::Boxed(Box::new(Wire::Boxed(Box::new(value))));
        reveal_with_fuel(Wire::sound, 4);
        assert(boxed.sound());
        lemma_single(boxed);
        reveal_strlit("(v)");
        assert(Wire::Tuple(seq![boxed]).kind() =~= "(v)"@);
    } else if method == "AboutToShow"@ {
        lemma_single(Wire::Bool(false));
        reveal_strlit("(b)");
        assert(Wire::Tuple(seq![Wire::Bool(false)]).kind() =~= "(b)"@);
    }
}

/// The root is item 0 and holds every row: row `i` is its child `i`, numbered
/// one more.
pub proof fn the_root_holds_every_row(rows: Seq<Row>, i: int)
    requires
        0 <= i < rows.len(),
    ensures
        tray::menu_layout(rows).child(0) == Some(Wire::Int32(0)),
        tray::menu_layout(rows).child(2) matches Some(children) && {
            &&& children.children() matches Some(all) && all.len() == rows.len()
            &&& children.child(i) matches Some(boxed) && boxed.unboxed() matches Some(child)
                && child.child(0) == Some(Wire::Int32(i + 1))
        },
        tray::row_at(rows, i + 1) == Some(rows[i]),
{
}

/// Only an enabled item that was clicked acts.
pub proof fn only_enabled_items_act(rows: Seq<Row>, id: int, event: Seq<char>)
    ensures
        match tray::clicked_action(rows, id, event) {
            Some(action) => {
                &&& event == "clicked"@
                &&& 1 <= id <= rows.len()
                &&& rows[id - 1] matches Row::Item { action: a, enabled, .. } && enabled && a
                    == action
            },
            None => event != "clicked"@ || !(1 <= id <= rows.len()) || !(
            rows[id - 1] matches Row::Item { enabled, .. } && enabled),
        },
{
}

/// A number that no row has is skipped, and shifts no other answer.
pub proof fn stale_numbers_are_skipped(rows: Seq<Row>, before: Seq<int>, stale: int, after: Seq<int>)
    requires
        tray::row_at(rows, stale) is None,
    ensures
        tray::group_rows(rows, before.push(stale) + after) == tray::group_rows(
            rows,
            before + after,
        ),
    decreases after.len(),
{
    let with = before.push(stale) + after;
    let without = before + after;
    if after.len() == 0 {
        assert(with.drop_last() =~= before);
        assert(with.last() == stale);
        assert(without =~= before);
    } else {
        stale_numbers_are_skipped(rows, before, stale, after.drop_last());
        assert(with.drop_last() =~= before.push(stale) + after.drop_last());
        assert(without.drop_last() =~= before + after.drop_last());
    }
}

// ---- what each row shows ----

/// Is this an entry of a dictionary, with this key and this value?
pub open spec fn entry_of(w: Wire, key: Seq<char>, value: Wire) -> bool {
    w is Entry && *w->Entry_0 == Wire::Str(key) && *w->Entry_1 == Wire::Boxed(Box::new(value))
}

/// Does the dictionary say `value` under `key`, and nothing else under it?
pub open spec fn says(properties: Wire, key: Seq<char>, value: Wire) -> bool {
    &&& properties is Array
    &&& exists|i: int|
        0 <= i < properties->Array_1.len() && entry_of(#[trigger] properties->Array_1[i], key, value)
    &&& forall|i: int|
        0 <= i < properties->Array_1.len() && (#[trigger] properties->Array_1[i]) is Entry
            && *properties->Array_1[i]->Entry_0 == Wire::Str(key) ==> entry_of(
            properties->Array_1[i],
            key,
            value,
        )
}

/// Does the dictionary say nothing under `key`?
pub open spec fn silent_on(properties: Wire, key: Seq<char>) -> bool {
    &&& properties is Array
    &&& forall|i: int|
        0 <= i < properties->Array_1.len() ==> (#[trigger] properties->Array_1[i]) is Entry
            && *properties->Array_1[i]->Entry_0 != Wire::Str(key)
}

/// Are these the properties of `row`? Every row shows. An item has its label
/// and can be clicked if it is enabled; a line that only says something has its
/// label and never can; a separator is one, and has neither.
pub open spec fn shows_row(properties: Wire, row: Row) -> bool {
    &&& says(properties, "visible"@, Wire::Bool(true))
    &&& match row {
        Row::Item { label, enabled, .. } => {
            &&& says(properties, "label"@, Wire::Str(label))
            &&& says(properties, "enabled"@, Wire::Bool(enabled))
            &&& silent_on(properties, "type"@)
        },
        Row::Info { label } => {
            &&& says(properties, "label"@, Wire::Str(label))
            &&& says(properties, "enabled"@, Wire::Bool(false))
            &&& silent_on(properties, "type"@)
        },
        Row::Separator => {
            &&& says(properties, "type"@, Wire::Str("separator"@))
            &&& silent_on(properties, "label"@)
            &&& silent_on(properties, "enabled"@)
        },
    }
}

proof fn lemma_keys()
    ensures
        "label"@ != "enabled"@ && "label"@ != "visible"@ && "label"@ != "type"@,
        "enabled"@ != "visible"@ && "enabled"@ != "type"@ && "visible"@ != "type"@,
{
    reveal_strlit("label");
    reveal_strlit("enabled");
    reveal_strlit("visible");
    reveal_strlit("type");
    assert("label"@.len() == 5 && "enabled"@.len() == 7 && "visible"@.len() == 7 && "type"@.len()
        == 4);
    assert("enabled"@[0] == 'e' && "visible"@[0] == 'v');
}

proof fn lemma_shows_row(row: Row)
    ensures
        shows_row(tray::dict(tray::row_entries(row)), row),
{
    lemma_keys();
    let p = tray::dict(tray::row_entries(row));
    let all = p->Array_1;
    match row {
        Row::Item { label, enabled, .. } => {
            assert(entry_of(all[0], "label"@, Wire::Str(label)));
            assert(entry_of(all[1], "enabled"@, Wire::Bool(enabled)));
            assert(entry_of(all[2], "visible"@, Wire::Bool(true)));
        },
        Row::Info { label } => {
            assert(entry_of(all[0], "label"@, Wire::Str(label)));
            assert(entry_of(all[1], "enabled"@, Wire::Bool(false)));
            assert(entry_of(all[2], "visible"@, Wire::Bool(true)));
        },
        Row::Separator => {
            assert(entry_of(all[0], "type"@, Wire::Str("separator"@)));
            assert(entry_of(all[1], "visible"@, Wire::Bool(true)));
        },
    }
}

/// The layout is a root, number 0, that opens as a menu and holds a child for
/// every row. The child of row `i` has the next number and the properties of
/// that very row, and holds nothing.
pub proof fn every_row_shows_what_it_is(rows: Seq<Row>, i: int)
    requires
        0 <= i < rows.len(),
    ensures
        ({
            let root = tray::menu_layout(rows);
            let children = root->Tuple_0[2]->Array_1;
            let child = *children[i]->Boxed_0;
            &&& root is Tuple && root->Tuple_0.len() == 3
            &&& root->Tuple_0[0] == Wire::Int32(0)
            &&& says(root->Tuple_0[1], "children-display"@, Wire::Str("submenu"@))
            &&& root->Tuple_0[2] is Array
            &&& children.len() == rows.len()
            &&& children[i] is Boxed
            &&& child is Tuple && child->Tuple_0.len() == 3
            &&& child->Tuple_0[0] == Wire::Int32(i + 1)
            &&& shows_row(child->Tuple_0[1], rows[i])
            &&& child->Tuple_0[2] is Array && child->Tuple_0[2]->Array_1.len() == 0
        }),
{
    lemma_shows_row(rows[i]);
    let root = tray::menu_layout(rows);
    let properties = root->Tuple_0[1];
    assert(entry_of(properties->Array_1[0], "children-display"@, Wire::Str("submenu"@)));
}

/// A menu without rows is a root that holds nothing.
pub proof fn an_empty_menu_holds_nothing()
    ensures
        ({
            let root = tray::menu_layout(seq![]);
            &&& root is Tuple && root->Tuple_0.len() == 3
            &&& root->Tuple_0[0] == Wire::Int32(0)
            &&& root->Tuple_0[2] is Array && root->Tuple_0[2]->Array_1.len() == 0
        }),
{
}

proof fn lemma_lookup(row: Row, name: Seq<char>)
    ensures
        wire::lookup_from(tray::row_entries(row), name, 0) == (if name == "visible"@ {
            Some(Wire::Bool(true))
        } else {
            match row {
                Row::Item { label, enabled, .. } => if name == "label"@ {
                    Some(Wire::Str(label))
                } else if name == "enabled"@ {
                    Some(Wire::Bool(enabled))
                } else {
                    None
                },
                Row::Info { label } => if name == "label"@ {
                    Some(Wire::Str(label))
                } else if name == "enabled"@ {
                    Some(Wire::Bool(false))
                } else {
                    None
                },
                Row::Separator => if name == "type"@ {
                    Some(Wire::Str("separator"@))
                } else {
                    None
                },
            }
        }),
{
    lemma_keys();
    reveal_with_fuel(wire::lookup_from, 4);
}

/// Asked for one property of a row, the menu says what the row with that number
/// is, and nothing of a number that no row has or a property that it has not.
pub proof fn single_properties_are_those_of_the_row(rows: Seq<Row>, id: int, name: Seq<char>)
    ensures
        ({
            let value = tray::row_property(rows, id, name);
            &&& !(1 <= id <= rows.len()) ==> value is None
            &&& 1 <= id <= rows.len() ==> {
                let row = rows[id - 1];
                &&& name == "visible"@ ==> value == Some(Wire::Bool(true))
                &&& name == "type"@ ==> value == if row is Separator {
                    Some(Wire::Str("separator"@))
                } else {
                    None
                }
                &&& name == "label"@ ==> match row {
                    Row::Item { label, .. } => value == Some(Wire::Str(label)),
                    Row::Info { label } => value == Some(Wire::Str(label)),
                    Row::Separator => value is None,
                }
                &&& name == "enabled"@ ==> match row {
                    Row::Item { enabled, .. } => value == Some(Wire::Bool(enabled)),
                    Row::Info { .. } => value == Some(Wire::Bool(false)),
                    Row::Separator => value is None,
                }
                &&& name != "visible"@ && name != "type"@ && name != "label"@ && name != "enabled"@
                    ==> value is None
            }
        }),
{
    lemma_keys();
    if 1 <= id <= rows.len() {
        lemma_lookup(rows[id - 1], name);
    }
}

/// Is this what is said of the row with number `id`?
pub open spec fn describes_row(w: Wire, rows: Seq<Row>, id: int) -> bool {
    &&& 1 <= id <= rows.len()
    &&& w is Tuple && w->Tuple_0.len() == 2
    &&& w->Tuple_0[0] == Wire::Int32(id)
    &&& shows_row(w->Tuple_0[1], rows[id - 1])
}

/// Asked for the properties of some rows, the menu describes each of them, in
/// the order in which they were asked for. Numbers of no row are skipped.
pub proof fn groups_describe_the_rows_asked_for(rows: Seq<Row>, ids: Seq<int>, id: int)
    ensures
        ({
            let one = tray::menu_group(rows, seq![id]);
            &&& one is Array
            &&& 1 <= id <= rows.len() ==> one->Array_1.len() == 1 && describes_row(
                one->Array_1[0],
                rows,
                id,
            )
            &&& !(1 <= id <= rows.len()) ==> one->Array_1.len() == 0
        }),
        ids.len() > 0 ==> {
            let fewer = tray::menu_group(rows, ids)->Array_1;
            let more = tray::menu_group(rows, ids.push(id))->Array_1;
            &&& tray::menu_group(rows, ids) is Array && tray::menu_group(rows, ids.push(id)) is Array
            &&& 1 <= id <= rows.len() ==> more.len() == fewer.len() + 1 && more.drop_last() == fewer
                && describes_row(more.last(), rows, id)
            &&& !(1 <= id <= rows.len()) ==> more == fewer
        },
{
    if 1 <= id <= rows.len() {
        lemma_shows_row(rows[id - 1]);
    }
    let single = seq![id];
    assert(single.drop_last() =~= seq![]);
    assert(tray::group_rows(rows, single.drop_last()) =~= seq![]);
    assert(ids.push(id).drop_last() =~= ids);
    if 1 <= id <= rows.len() && ids.len() > 0 {
        let fewer = tray::menu_group(rows, ids)->Array_1;
        let more = tray::menu_group(rows, ids.push(id))->Array_1;
        assert(more.drop_last() =~= fewer);
    }
}

/// Asked for none in particular, the menu describes every row, in order.
pub proof fn groups_describe_every_row(rows: Seq<Row>, i: int)
    ensures
        ({
            let all = tray::menu_group(rows, seq![]);
            &&& all is Array && all->Array_1.len() == rows.len()
            &&& 0 <= i < rows.len() ==> describes_row(all->Array_1[i], rows, i + 1)
        }),
{
    let ids = tray::wanted_ids(rows, seq![]);
    lemma_all_rows(rows, rows.len() as int, i);
    assert(ids.take(rows.len() as int) =~= ids);
}

proof fn lemma_all_rows(rows: Seq<Row>, n: int, i: int)
    requires
        0 <= n <= rows.len(),
    ensures
        ({
            let some = tray::group_rows(rows, tray::wanted_ids(rows, seq![]).take(n));
            &&& some.len() == n
            &&& 0 <= i < n ==> describes_row(some[i], rows, i + 1)
        }),
    decreases n,
{
    let ids = tray::wanted_ids(rows, seq![]);
    if n > 0 {
        lemma_all_rows(rows, n - 1, i);
        lemma_shows_row(rows[n - 1]);
        assert(ids.take(n).drop_last() =~= ids.take(n - 1));
        assert(ids.take(n).last() == n);
    }
}

// ---- what each call is answered ----

proof fn lemma_methods()
    ensures
        "GetLayout"@.len() == 9,
        "GetGroupProperties"@.len() == 18,
        "GetProperty"@.len() == 11 && "GetProperty"@[0] == 'G',
        "AboutToShow"@.len() == 11 && "AboutToShow"@[0] == 'A',
        "Event"@.len() == 5,
{
    reveal_strlit("GetLayout");
    reveal_strlit("GetGroupProperties");
    reveal_strlit("GetProperty");
    reveal_strlit("AboutToShow");
    reveal_strlit("Event");
}

/// Asked for the layout, the menu gives it with the revision. Before it is
/// shown there is nothing to update. Neither does anything, nor does a call that
/// the menu does not know.
pub proof fn questions_are_answered(rows: Seq<Row>, revision: int, method: Seq<char>, params: Wire)
    ensures
        ({
            let a = tray::menu_answer(rows, revision, method, params);
            &&& method == "GetLayout"@ ==> a.reply == Some(
                Wire::Tuple(seq![Wire::Uint32(revision), tray::menu_layout(rows)]),
            )
            &&& method == "AboutToShow"@ ==> a.reply == Some(Wire::Tuple(seq![Wire::Bool(false)]))
            &&& method != "Event"@ ==> a.action is None
            &&& method == "Event"@ ==> a.reply is None
            &&& method != "GetLayout"@ && method != "GetGroupProperties"@ && method
                != "GetProperty"@ && method != "AboutToShow"@ ==> a.reply is None
        }),
{
    lemma_methods();
}

/// Asked for a property of a row, or for those of some rows, the menu gives just
/// those.
pub proof fn properties_are_answered(
    rows: Seq<Row>,
    revision: int,
    args: Seq<Wire>,
    id: int,
    name: Seq<char>,
    element: Seq<char>,
    ids: Seq<int>,
)
    ensures
        args.len() >= 2 && args[0] == Wire::Int32(id) && args[1] == Wire::Str(name) ==> {
            let a = tray::menu_answer(rows, revision, "GetProperty"@, Wire::Tuple(args));
            let value = match tray::row_property(rows, id, name) {
                Some(v) => v,
                None => Wire::Str(seq![]),
            };
            a.reply == Some(
                Wire::Tuple(seq![Wire::Boxed(Box::new(Wire::Boxed(Box::new(value))))]),
            )
        },
        args.len() >= 1 && args[0] == Wire::Array(
            element,
            ids.map_values(|n: int| Wire::Int32(n)),
        ) ==> {
            let a = tray::menu_answer(rows, revision, "GetGroupProperties"@, Wire::Tuple(args));
            a.reply == Some(Wire::Tuple(seq![tray::menu_group(rows, ids)]))
        },
{
    lemma_methods();
    reveal_strlit("");
    assert(""@ =~= seq![]);
    let items = ids.map_values(|n: int| Wire::Int32(n));
    if args.len() >= 1 && args[0] == Wire::Array(element, items) {
        assert(tray::all_ints(items));
        assert(tray::ints_arg(Wire::Tuple(args)) =~= ids);
    }
}

/// A click on a row that is enabled sets off its action. Nothing else does
/// anything: no other event, no other row, no number that no row has.
pub proof fn clicks_set_off_their_action(
    rows: Seq<Row>,
    revision: int,
    args: Seq<Wire>,
    id: int,
    event: Seq<char>,
)
    requires
        args.len() >= 2,
        args[0] == Wire::Int32(id),
        args[1] == Wire::Str(event),
    ensures
        ({
            let a = tray::menu_answer(rows, revision, "Event"@, Wire::Tuple(args));
            let row = rows[id - 1];
            let acts = event == "clicked"@ && 1 <= id <= rows.len() && row is Item && row->enabled;
            &&& a.reply is None
            &&& acts ==> a.action == Some(row->Item_action)
            &&& !acts ==> a.action is None
        }),
{
    lemma_methods();
}

/// Rows and answers are handed out as they are.
pub proof fn rows_are_handed_out_as_they_are(
    entries: Seq<MenuEntry>,
    i: int,
    answer: MenuAnswer,
)
    ensures
        tray::rows(entries).len() == entries.len(),
        0 <= i < entries.len() ==> match entries[i] {
            MenuEntry::Item { label, action, enabled } => tray::rows(entries)[i] == (Row::Item {
                label: label@,
                action: action@,
                enabled,
            }),
            MenuEntry::Info { label } => tray::rows(entries)[i] == (Row::Info { label: label@ }),
            MenuEntry::Separator => tray::rows(entries)[i] is Separator,
        },
        answer.reply is None == answer@.reply is None,
        answer.action is None == answer@.action is None,
        answer.reply is Some ==> answer@.reply == Some(answer.reply->0@),
        answer.action is Some ==> answer@.action == Some(answer.action->0@),
{
}

} // verus!
