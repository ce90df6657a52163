use stickies::actions::{
    accelerators, command_options, note_menu, shortcuts, AppAction, NoteAction,
};
use stickies::session::action_name;

#[test]
fn every_listed_shortcut_does_something() {
    let bound = accelerators();
    assert_eq!(bound.len(), 7);
    for shortcut in shortcuts() {
        assert!(
            bound.iter().any(|a| a.keys == shortcut.keys),
            "{shortcut:?}"
        );
    }
}

#[test]
fn keys_are_what_the_manual_says() {
    let action = |keys: &str| {
        accelerators()
            .into_iter()
            .find(|a| a.keys == keys)
            .map(|a| a.action)
    };
    assert_eq!(action("<Control>n"), Some("app.new-note"));
    assert_eq!(action("<Control>w"), Some("note.hide"));
    assert_eq!(action("<Control><Shift>a"), Some("app.show-all"));
    assert_eq!(action("<Control>t"), Some("note.toggle-pin"));
    assert_eq!(action("<Control>Delete"), Some("note.delete"));
    assert_eq!(action("<Control>q"), Some("app.quit"));
    assert_eq!(action("<Control>question"), Some("app.shortcuts"));
    let listed = shortcuts();
    assert_eq!(listed.len(), 6);
    assert_eq!(listed[1].title, "Put note away (× deletes)");
    assert_eq!(listed[1].section, "General");
    assert_eq!(listed[5].section, "Note");
}

fn known(action: &str) -> bool {
    let note = [
        NoteAction::SetPalette,
        NoteAction::TogglePin,
        NoteAction::Hide,
        NoteAction::Delete,
        NoteAction::Duplicate,
    ];
    AppAction::ALL
        .iter()
        .any(|a| format!("app.{}", a.name()) == action)
        || note.iter().any(|a| format!("note.{}", a.name()) == action)
}

#[test]
fn every_menu_line_and_every_key_does_something() {
    for line in note_menu() {
        assert!(known(line.action), "{line:?}");
    }
    for accelerator in accelerators() {
        assert!(known(accelerator.action), "{accelerator:?}");
    }
    assert!(!known("app.nonsense"));
}

#[test]
fn the_menu_of_a_note_has_three_sections() {
    let lines: Vec<(u8, &str)> = note_menu().iter().map(|l| (l.section, l.label)).collect();
    assert_eq!(
        lines,
        [
            (0, "_New Note"),
            (0, "_Duplicate Note"),
            (0, "Put _Away"),
            (0, "_Show All Notes"),
            (1, "_Delete Note…"),
            (2, "_Keyboard Shortcuts"),
            (2, "_About Stickies"),
        ]
    );
}

#[test]
fn detailed_names_lead_to_the_action() {
    for action in AppAction::ALL {
        assert_eq!(
            action_name(&format!("app.{}", action.name())),
            action.name()
        );
        assert_eq!(action.takes_note(), action == AppAction::DuplicateNote);
    }
}

#[test]
fn the_command_line_has_three_options() {
    let options: Vec<(&str, char)> = command_options()
        .iter()
        .map(|o| (o.name, o.letter as char))
        .collect();
    assert_eq!(options, [("new-note", 'n'), ("diagnose", 'd'), ("show-all", 'a')]);
}
