//! What can be done, and the ways to ask for it: keys, menus, the command line.

use crate::session;
use crate::tray::Row;
use vstd::prelude::*;

verus! {

// ---- actions ----

/// What the application can be asked to do.
#[derive(Debug, Clone, Copy, PartialEq, Eq, Structural)]
pub enum AppAction {
    NewNote,
    ShowAll,
    HideAll,
    DuplicateNote,
    About,
    Shortcuts,
    Quit,
}

/// What a note's window can be asked to do.
#[derive(Debug, Clone, Copy, PartialEq, Eq, Structural)]
pub enum NoteAction {
    SetPalette,
    TogglePin,
    Hide,
    Delete,
    Duplicate,
}

impl AppAction {
    pub const ALL: [AppAction; 7] = [
        AppAction::NewNote,
        AppAction::ShowAll,
        AppAction::HideAll,
        AppAction::DuplicateNote,
        AppAction::About,
        AppAction::Shortcuts,
        AppAction::Quit,
    ];

    /// The bare name.
    pub open spec fn bare(self) -> Seq<char> {
        match self {
            AppAction::NewNote => "new-note"@,
            AppAction::ShowAll => "show-all"@,
            AppAction::HideAll => "hide-all"@,
            AppAction::DuplicateNote => "duplicate-note"@,
            AppAction::About => "about"@,
            AppAction::Shortcuts => "shortcuts"@,
            AppAction::Quit => "quit"@,
        }
    }

    /// The name as menus and keys give it.
    pub open spec fn detailed(self) -> Seq<char> {
        "app."@ + self.bare()
    }

    /// The bare name, which the action group goes by.
    pub fn name(self) -> (r: &'static str)
        ensures
            r@ == self.bare(),
    {
        match self {
            AppAction::NewNote => "new-note",
            AppAction::ShowAll => "show-all",
            AppAction::HideAll => "hide-all",
            AppAction::DuplicateNote => "duplicate-note",
            AppAction::About => "about",
            AppAction::Shortcuts => "shortcuts",
            AppAction::Quit => "quit",
        }
    }

    /// Does the action need to be told which note is meant?
    pub fn takes_note(self) -> (r: bool)
        ensures
            r == (self == AppAction::DuplicateNote),
    {
        match self {
            AppAction::DuplicateNote => true,
            _ => false,
        }
    }
}

impl NoteAction {
    /// The bare name.
    pub open spec fn bare(self) -> Seq<char> {
        match self {
            NoteAction::SetPalette => "set-palette"@,
            NoteAction::TogglePin => "toggle-pin"@,
            NoteAction::Hide => "hide"@,
            NoteAction::Delete => "delete"@,
            NoteAction::Duplicate => "duplicate"@,
        }
    }

    /// The name as menus and keys give it.
    pub open spec fn detailed(self) -> Seq<char> {
        "note."@ + self.bare()
    }

    /// The bare name, which the action group goes by.
    pub fn name(self) -> (r: &'static str)
        ensures
            r@ == self.bare(),
    {
        match self {
            NoteAction::SetPalette => "set-palette",
            NoteAction::TogglePin => "toggle-pin",
            NoteAction::Hide => "hide",
            NoteAction::Delete => "delete",
            NoteAction::Duplicate => "duplicate",
        }
    }
}

/// Is this the name of something that can be done?
pub open spec fn does_something(action: Seq<char>) -> bool {
    (exists|a: AppAction| action == #[trigger] a.detailed()) || (exists|a: NoteAction|
        action == #[trigger] a.detailed())
}

// ---- keys ----

/// A key combination for an action.
#[derive(Debug, Clone, Copy, PartialEq, Eq)]
pub struct Accelerator {
    /// Detailed action name.
    pub action: &'static str,
    pub keys: &'static str,
}

/// A line of the shortcuts dialog.
#[derive(Debug, Clone, Copy, PartialEq, Eq)]
pub struct Shortcut {
    pub section: &'static str,
    pub keys: &'static str,
    pub title: &'static str,
}

/// An accelerator, as a mathematical value.
pub open spec fn bound(a: Accelerator) -> (Seq<char>, Seq<char>) {
    (a.action@, a.keys@)
}

/// A line of the dialog, as a mathematical value.
pub open spec fn listed(s: Shortcut) -> (Seq<char>, Seq<char>, Seq<char>) {
    (s.section@, s.keys@, s.title@)
}

/// The keys of every action that has some.
pub open spec fn all_bound() -> Seq<(Seq<char>, Seq<char>)> {
    seq![
        ("app.new-note"@, "<Control>n"@),
        ("app.show-all"@, "<Control><Shift>a"@),
        ("app.quit"@, "<Control>q"@),
        ("app.shortcuts"@, "<Control>question"@),
        ("note.hide"@, "<Control>w"@),
        ("note.delete"@, "<Control>Delete"@),
        ("note.toggle-pin"@, "<Control>t"@),
    ]
}

/// What the shortcuts dialog lists: by section, the keys and what they do.
pub open spec fn all_listed() -> Seq<(Seq<char>, Seq<char>, Seq<char>)> {
    seq![
        ("General"@, "<Control>n"@, "New note"@),
        ("General"@, "<Control>w"@, "Put note away (× deletes)"@),
        ("General"@, "<Control><Shift>a"@, "Show all notes"@),
        ("General"@, "<Control>q"@, "Quit"@),
        ("Note"@, "<Control>t"@, "Keep on top"@),
        ("Note"@, "<Control>Delete"@, "Delete note"@),
    ]
}

/// The keys of every action that has some.
pub fn accelerators() -> (r: Vec<Accelerator>)
    ensures
        r@.map_values(|a: Accelerator| bound(a)) == all_bound(),
{
    let mut out: Vec<Accelerator> = Vec::new();
    out.push(Accelerator { action: "app.new-note", keys: "<Control>n" });
    out.push(Accelerator { action: "app.show-all", keys: "<Control><Shift>a" });
    out.push(Accelerator { action: "app.quit", keys: "<Control>q" });
    out.push(Accelerator { action: "app.shortcuts", keys: "<Control>question" });
    out.push(Accelerator { action: "note.hide", keys: "<Control>w" });
    out.push(Accelerator { action: "note.delete", keys: "<Control>Delete" });
    out.push(Accelerator { action: "note.toggle-pin", keys: "<Control>t" });
    assert(out@.map_values(|a: Accelerator| bound(a)) =~= all_bound());
    out
}

/// What the shortcuts dialog lists.
pub fn shortcuts() -> (r: Vec<Shortcut>)
    ensures
        r@.map_values(|s: Shortcut| listed(s)) == all_listed(),
{
    let mut out: Vec<Shortcut> = Vec::new();
    out.push(Shortcut { section: "General", keys: "<Control>n", title: "New note" });
    out.push(
        Shortcut { section: "General", keys: "<Control>w", title: "Put note away (× deletes)" },
    );
    out.push(
        Shortcut { section: "General", keys: "<Control><Shift>a", title: "Show all notes" },
    );
    out.push(Shortcut { section: "General", keys: "<Control>q", title: "Quit" });
    out.push(Shortcut { section: "Note", keys: "<Control>t", title: "Keep on top" });
    out.push(Shortcut { section: "Note", keys: "<Control>Delete", title: "Delete note" });
    assert(out@.map_values(|s: Shortcut| listed(s)) =~= all_listed());
    out
}

/// Every shortcut that the dialog lists does something.
pub proof fn every_listed_shortcut_is_bound(i: int)
    requires
        0 <= i < all_listed().len(),
    ensures
        exists|k: int| 0 <= k < all_bound().len() && #[trigger] all_bound()[k].1 == all_listed()[i].1,
{
    let at: int = if i == 0 {
        0
    } else if i == 1 {
        4
    } else if i == 2 {
        1
    } else if i == 3 {
        2
    } else if i == 4 {
        6
    } else {
        5
    };
    assert(all_bound()[at].1 == all_listed()[i].1);
}

// ---- the menu of a note ----

/// A line of a note's menu.
#[derive(Debug, Clone, Copy, PartialEq, Eq)]
pub struct MenuLine {
    /// Lines of one section stand together.
    pub section: u8,
    pub label: &'static str,
    pub action: &'static str,
}

/// A line of a note's menu, as a mathematical value.
pub open spec fn shown(l: MenuLine) -> (int, Seq<char>, Seq<char>) {
    (l.section as int, l.label@, l.action@)
}

/// The menu of a note, below its colours.
pub open spec fn all_shown() -> Seq<(int, Seq<char>, Seq<char>)> {
    seq![
        (0int, "_New Note"@, "app.new-note"@),
        (0int, "_Duplicate Note"@, "note.duplicate"@),
        (0int, "Put _Away"@, "note.hide"@),
        (0int, "_Show All Notes"@, "app.show-all"@),
        (1int, "_Delete Note…"@, "note.delete"@),
        (2int, "_Keyboard Shortcuts"@, "app.shortcuts"@),
        (2int, "_About Stickies"@, "app.about"@),
    ]
}

/// The menu of a note, below its colours.
pub fn note_menu() -> (r: Vec<MenuLine>)
    ensures
        r@.map_values(|l: MenuLine| shown(l)) == all_shown(),
{
    let mut out: Vec<MenuLine> = Vec::new();
    out.push(MenuLine { section: 0, label: "_New Note", action: "app.new-note" });
    out.push(MenuLine { section: 0, label: "_Duplicate Note", action: "note.duplicate" });
    out.push(MenuLine { section: 0, label: "Put _Away", action: "note.hide" });
    out.push(MenuLine { section: 0, label: "_Show All Notes", action: "app.show-all" });
    out.push(MenuLine { section: 1, label: "_Delete Note…", action: "note.delete" });
    out.push(MenuLine { section: 2, label: "_Keyboard Shortcuts", action: "app.shortcuts" });
    out.push(MenuLine { section: 2, label: "_About Stickies", action: "app.about" });
    assert(out@.map_values(|l: MenuLine| shown(l)) =~= all_shown());
    out
}

// ---- the command line ----

/// An option of the command line.
#[derive(Debug, Clone, Copy, PartialEq, Eq)]
pub struct CommandOption {
    pub name: &'static str,
    /// The one-letter form.
    pub letter: u8,
    pub description: &'static str,
}

/// An option, as a mathematical value.
pub open spec fn offered(o: CommandOption) -> (Seq<char>, int, Seq<char>) {
    (o.name@, o.letter as int, o.description@)
}

/// Every option of the command line: `-n`, `-d` and `-a`.
pub open spec fn all_offered() -> Seq<(Seq<char>, int, Seq<char>)> {
    seq![
        ("new-note"@, 0x6eint, "Create a new note"@),
        ("diagnose"@, 0x64int, "Report the state of both halves and exit"@),
        ("show-all"@, 0x61int, "Show every saved note"@),
    ]
}

/// Every option of the command line.
pub fn command_options() -> (r: Vec<CommandOption>)
    ensures
        r@.map_values(|o: CommandOption| offered(o)) == all_offered(),
{
    let mut out: Vec<CommandOption> = Vec::new();
    out.push(
        CommandOption { name: "new-note", letter: 0x6e, description: "Create a new note" },
    );
    out.push(
        CommandOption {
            name: "diagnose",
            letter: 0x64,
            description: "Report the state of both halves and exit",
        },
    );
    out.push(
        CommandOption { name: "show-all", letter: 0x61, description: "Show every saved note" },
    );
    assert(out@.map_values(|o: CommandOption| offered(o)) =~= all_offered());
    out
}

// ---- everything that is offered can be done ----

proof fn lemma_app_names()
    ensures
        "app.new-note"@ == AppAction::NewNote.detailed(),
        "app.show-all"@ == AppAction::ShowAll.detailed(),
        "app.hide-all"@ == AppAction::HideAll.detailed(),
        "app.about"@ == AppAction::About.detailed(),
        "app.shortcuts"@ == AppAction::Shortcuts.detailed(),
        "app.quit"@ == AppAction::Quit.detailed(),
{
    reveal_strlit("app.");
    reveal_strlit("new-note");
    reveal_strlit("show-all");
    reveal_strlit("hide-all");
    reveal_strlit("about");
    reveal_strlit("shortcuts");
    reveal_strlit("quit");
    reveal_strlit("app.new-note");
    reveal_strlit("app.show-all");
    reveal_strlit("app.hide-all");
    reveal_strlit("app.about");
    reveal_strlit("app.shortcuts");
    reveal_strlit("app.quit");
    assert("app.new-note"@ =~= AppAction::NewNote.detailed());
    assert("app.show-all"@ =~= AppAction::ShowAll.detailed());
    assert("app.hide-all"@ =~= AppAction::HideAll.detailed());
    assert("app.about"@ =~= AppAction::About.detailed());
    assert("app.shortcuts"@ =~= AppAction::Shortcuts.detailed());
    assert("app.quit"@ =~= AppAction::Quit.detailed());
}

proof fn lemma_note_names()
    ensures
        "note.toggle-pin"@ == NoteAction::TogglePin.detailed(),
        "note.hide"@ == NoteAction::Hide.detailed(),
        "note.delete"@ == NoteAction::Delete.detailed(),
        "note.duplicate"@ == NoteAction::Duplicate.detailed(),
{
    reveal_strlit("note.");
    reveal_strlit("toggle-pin");
    reveal_strlit("hide");
    reveal_strlit("delete");
    reveal_strlit("duplicate");
    reveal_strlit("note.toggle-pin");
    reveal_strlit("note.hide");
    reveal_strlit("note.delete");
    reveal_strlit("note.duplicate");
    assert("note.toggle-pin"@ =~= NoteAction::TogglePin.detailed());
    assert("note.hide"@ =~= NoteAction::Hide.detailed());
    assert("note.delete"@ =~= NoteAction::Delete.detailed());
    assert("note.duplicate"@ =~= NoteAction::Duplicate.detailed());
}

/// Every key does something.
pub proof fn every_key_does_something(i: int)
    requires
        0 <= i < all_bound().len(),
    ensures
        does_something(all_bound()[i].0),
{
    lemma_app_names();
    lemma_note_names();
}

/// Every line of a note's menu does something.
pub proof fn every_menu_line_does_something(i: int)
    requires
        0 <= i < all_shown().len(),
    ensures
        does_something(all_shown()[i].2),
{
    lemma_app_names();
    lemma_note_names();
}

/// Every row of the tray menu that can be clicked does something, and it is
/// something that the application does.
pub proof fn every_tray_row_does_something(total: int, on_screen: int, i: int)
    requires
        0 <= i < session::menu_rows(total, on_screen).len(),
    ensures
        session::menu_rows(total, on_screen)[i] matches Row::Item { action, .. } ==> exists|
            a: AppAction,
        |
            action == #[trigger] a.detailed(),
{
    lemma_app_names();
}

/// An action that a menu names is the action that is carried out: its bare
/// name is what is left of the detailed one.
pub proof fn detailed_names_lead_to_the_action(a: AppAction)
    ensures
        session::bare_action(a.detailed()) == a.bare(),
{
    reveal_strlit("app.");
    assert(a.detailed().subrange(0, 4) =~= "app."@);
    assert(a.detailed().skip(4) =~= a.bare());
}

/// Each line of a note's menu does what it says, and no line is missing.
pub proof fn menu_lines_do_what_they_say()
    ensures
        all_shown().len() == 7,
        all_shown()[0] == (0int, "_New Note"@, AppAction::NewNote.detailed()),
        all_shown()[1] == (0int, "_Duplicate Note"@, NoteAction::Duplicate.detailed()),
        all_shown()[2] == (0int, "Put _Away"@, NoteAction::Hide.detailed()),
        all_shown()[3] == (0int, "_Show All Notes"@, AppAction::ShowAll.detailed()),
        all_shown()[4] == (1int, "_Delete Note…"@, NoteAction::Delete.detailed()),
        all_shown()[5] == (2int, "_Keyboard Shortcuts"@, AppAction::Shortcuts.detailed()),
        all_shown()[6] == (2int, "_About Stickies"@, AppAction::About.detailed()),
{
    lemma_app_names();
    lemma_note_names();
}

/// Are these keys bound to that action?
pub open spec fn bound_to(keys: Seq<char>, action: Seq<char>) -> bool {
    exists|k: int|
        0 <= k < all_bound().len() && (#[trigger] all_bound()[k]).0 == action && all_bound()[k].1
            == keys
}

/// Each line of the shortcuts dialog gives the keys of the action that it names.
pub proof fn listed_shortcuts_do_what_they_say()
    ensures
        all_listed().len() == 6,
        all_listed()[0].2 == "New note"@ && bound_to(
            all_listed()[0].1,
            AppAction::NewNote.detailed(),
        ),
        all_listed()[1].2 == "Put note away (× deletes)"@ && bound_to(
            all_listed()[1].1,
            NoteAction::Hide.detailed(),
        ),
        all_listed()[2].2 == "Show all notes"@ && bound_to(
            all_listed()[2].1,
            AppAction::ShowAll.detailed(),
        ),
        all_listed()[3].2 == "Quit"@ && bound_to(all_listed()[3].1, AppAction::Quit.detailed()),
        all_listed()[4].2 == "Keep on top"@ && bound_to(
            all_listed()[4].1,
            NoteAction::TogglePin.detailed(),
        ),
        all_listed()[5].2 == "Delete note"@ && bound_to(
            all_listed()[5].1,
            NoteAction::Delete.detailed(),
        ),
{
    lemma_app_names();
    lemma_note_names();
    assert(all_bound()[0].1 == all_listed()[0].1);
    assert(all_bound()[4].1 == all_listed()[1].1);
    assert(all_bound()[1].1 == all_listed()[2].1);
    assert(all_bound()[2].1 == all_listed()[3].1);
    assert(all_bound()[6].1 == all_listed()[4].1);
    assert(all_bound()[5].1 == all_listed()[5].1);
}

/// No two actions go by the same keys.
pub proof fn no_keys_are_bound_twice(i: int, j: int)
    requires
        0 <= i < j < all_bound().len(),
    ensures
        all_bound()[i].1 != all_bound()[j].1,
{
    reveal_strlit("<Control>n");
    reveal_strlit("<Control><Shift>a");
    reveal_strlit("<Control>q");
    reveal_strlit("<Control>question");
    reveal_strlit("<Control>w");
    reveal_strlit("<Control>Delete");
    reveal_strlit("<Control>t");
    assert("<Control>n"@.len() == 10 && "<Control>n"@[9] == 'n');
    assert("<Control><Shift>a"@.len() == 17 && "<Control><Shift>a"@[9] == '<');
    assert("<Control>q"@.len() == 10 && "<Control>q"@[9] == 'q');
    assert("<Control>question"@.len() == 17 && "<Control>question"@[9] == 'q');
    assert("<Control>w"@.len() == 10 && "<Control>w"@[9] == 'w');
    assert("<Control>Delete"@.len() == 15);
    assert("<Control>t"@.len() == 10 && "<Control>t"@[9] == 't');
}

} // verus!
