//! Keys, keymaps, dispatch and profiles.

use majestic::dispatch::{Dispatcher, Resolution};
use majestic::key::{KeyCode, KeyPress, Mods};
use majestic::keymap::{Command, Keymap, Lookup};
use majestic::profiles::{cua, emacs, vim_insert, vim_normal, vim_visual, Profile};

#[test]
fn single_chord_resolves_immediately() {
    let global = Keymap::new().bind(&[KeyPress::ctrl('s')], Command::new("save"));
    let mut dispatcher = Dispatcher::new(vec![global]);
    assert_eq!(
        dispatcher.feed(KeyPress::ctrl('s')),
        Resolution::Command(Command::new("save"))
    );
    assert!(dispatcher.pending().is_empty());
}

#[test]
fn multi_key_sequence_pends_then_resolves() {
    let seq = [KeyPress::ctrl('x'), KeyPress::ctrl('s')];
    let global = Keymap::new().bind(&seq, Command::new("save-all"));
    let mut dispatcher = Dispatcher::new(vec![global]);
    assert_eq!(dispatcher.feed(KeyPress::ctrl('x')), Resolution::Pending);
    assert_eq!(dispatcher.pending().len(), 1);
    assert_eq!(
        dispatcher.feed(KeyPress::ctrl('s')),
        Resolution::Command(Command::new("save-all"))
    );
    assert!(dispatcher.pending().is_empty());
}

#[test]
fn unbound_key_reports_chord_and_resets() {
    let global = Keymap::new().bind(&[KeyPress::ctrl('s')], Command::new("save"));
    let mut dispatcher = Dispatcher::new(vec![global]);
    let key = KeyPress::char('q');
    assert_eq!(dispatcher.feed(key), Resolution::Unbound(vec![key]));
    assert!(dispatcher.pending().is_empty());
}

#[test]
fn higher_layer_overrides_lower() {
    let global = Keymap::new().bind(
        &[KeyPress::key(KeyCode::Enter)],
        Command::new("insert-newline"),
    );
    let buffer_local = Keymap::new().bind(&[KeyPress::key(KeyCode::Enter)], Command::new("submit"));
    let mut dispatcher = Dispatcher::new(vec![buffer_local, global]);
    assert_eq!(
        dispatcher.feed(KeyPress::key(KeyCode::Enter)),
        Resolution::Command(Command::new("submit"))
    );
}

#[test]
fn a_reset_dispatcher_forgets_the_pending_chord() {
    let seq = [KeyPress::ctrl('x'), KeyPress::ctrl('s')];
    let mut dispatcher = Dispatcher::new(vec![Keymap::new().bind(&seq, Command::new("save"))]);
    assert_eq!(dispatcher.feed(KeyPress::ctrl('x')), Resolution::Pending);
    dispatcher.reset();
    assert!(dispatcher.pending().is_empty());
    assert_eq!(
        dispatcher.feed(KeyPress::ctrl('s')),
        Resolution::Unbound(vec![KeyPress::ctrl('s')])
    );
}

#[test]
fn mods_bitset_union_and_contains() {
    let cs = Mods::ctrl() | Mods::shift();
    assert!(cs.contains(Mods::ctrl()));
    assert!(cs.contains(Mods::shift()));
    assert!(!cs.contains(Mods::alt()));
    assert!(Mods::none().is_empty());
    assert!(!cs.is_empty());
}

#[test]
fn convenience_constructors_match_explicit() {
    assert_eq!(
        KeyPress::ctrl('s'),
        KeyPress::new(Mods::ctrl(), KeyCode::Char('s'))
    );
    assert_eq!(
        KeyPress::char('a'),
        KeyPress::new(Mods::none(), KeyCode::Char('a'))
    );
    assert_eq!(
        KeyPress::key(KeyCode::Enter),
        KeyPress::new(Mods::none(), KeyCode::Enter)
    );
}

#[test]
fn bind_and_lookup_single_chord() {
    let keymap = Keymap::new().bind(&[KeyPress::ctrl('s')], Command::new("save"));
    assert_eq!(
        keymap.lookup(&[KeyPress::ctrl('s')]),
        Lookup::Bound(Command::new("save"))
    );
    assert_eq!(keymap.lookup(&[KeyPress::ctrl('q')]), Lookup::Unbound);
}

#[test]
fn multi_key_sequence_is_a_prefix_then_bound() {
    let seq = [KeyPress::ctrl('x'), KeyPress::ctrl('s')];
    let keymap = Keymap::new().bind(&seq, Command::new("save-some-buffers"));
    assert_eq!(keymap.lookup(&seq[..1]), Lookup::Prefix);
    assert_eq!(
        keymap.lookup(&seq),
        Lookup::Bound(Command::new("save-some-buffers"))
    );
    assert_eq!(
        keymap.lookup(&[KeyPress::ctrl('x'), KeyPress::ctrl('c')]),
        Lookup::Unbound
    );
}

#[test]
fn rebind_does_not_disturb_the_old_value() {
    let base = Keymap::new().bind(&[KeyPress::char('a')], Command::new("alpha"));
    let updated = base
        .bind(&[KeyPress::char('b')], Command::new("bravo"))
        .bind(&[KeyPress::char('a')], Command::new("ALPHA"));
    assert_eq!(
        base.lookup(&[KeyPress::char('a')]),
        Lookup::Bound(Command::new("alpha"))
    );
    assert_eq!(base.lookup(&[KeyPress::char('b')]), Lookup::Unbound);
    assert_eq!(
        updated.lookup(&[KeyPress::char('a')]),
        Lookup::Bound(Command::new("ALPHA"))
    );
    assert_eq!(
        updated.lookup(&[KeyPress::char('b')]),
        Lookup::Bound(Command::new("bravo"))
    );
}

#[test]
fn named_key_binding() {
    let keymap = Keymap::new().bind(&[KeyPress::key(KeyCode::Enter)], "insert-newline".into());
    assert_eq!(
        keymap.lookup(&[KeyPress::key(KeyCode::Enter)]),
        Lookup::Bound(Command::new("insert-newline"))
    );
}

#[test]
fn cua_binds_the_core_editing_chords() {
    let keymap = cua();
    for (key, expected) in [
        (KeyPress::ctrl('s'), "save"),
        (KeyPress::ctrl('c'), "copy"),
        (KeyPress::ctrl('v'), "paste"),
        (KeyPress::ctrl('z'), "undo"),
        (KeyPress::key(KeyCode::Left), "move-left"),
        (KeyPress::key(KeyCode::Enter), "insert-newline"),
    ] {
        assert_eq!(keymap.lookup(&[key]), Lookup::Bound(Command::new(expected)));
    }
}

#[test]
fn cua_leaves_printable_keys_unbound_for_self_insert() {
    assert_eq!(cua().lookup(&[KeyPress::char('a')]), Lookup::Unbound);
}

#[test]
fn emacs_binds_motion_and_kill_chords() {
    for (key, expected) in [
        (KeyPress::ctrl('f'), "move-right"),
        (KeyPress::ctrl('a'), "move-line-start"),
        (KeyPress::ctrl('k'), "kill-line"),
        (KeyPress::alt('w'), "copy"),
        (KeyPress::ctrl('y'), "paste"),
    ] {
        assert_eq!(
            emacs().lookup(&[key]),
            Lookup::Bound(Command::new(expected))
        );
    }
}

#[test]
fn emacs_c_x_is_a_prefix_resolving_to_commands() {
    let keymap = emacs();
    assert_eq!(keymap.lookup(&[KeyPress::ctrl('x')]), Lookup::Prefix);
    assert_eq!(
        keymap.lookup(&[KeyPress::ctrl('x'), KeyPress::ctrl('s')]),
        Lookup::Bound(Command::new("save"))
    );
    assert_eq!(
        keymap.lookup(&[KeyPress::ctrl('x'), KeyPress::char('k')]),
        Lookup::Bound(Command::new("close-buffer"))
    );
}

#[test]
fn emacs_leaves_printable_keys_unbound_for_self_insert() {
    assert_eq!(emacs().lookup(&[KeyPress::char('a')]), Lookup::Unbound);
}

#[test]
fn vim_normal_binds_motion_and_mode_switches() {
    let keymap = vim_normal();
    for (key, expected) in [
        (KeyPress::char('h'), "move-left"),
        (KeyPress::char('l'), "move-right"),
        (KeyPress::char('i'), "enter-insert-mode"),
        (KeyPress::char('v'), "enter-visual-mode"),
        (KeyPress::char('x'), "delete-forward"),
    ] {
        assert_eq!(keymap.lookup(&[key]), Lookup::Bound(Command::new(expected)));
    }
    assert_eq!(keymap.lookup(&[KeyPress::char('z')]), Lookup::Unbound);
}

#[test]
fn vim_insert_and_visual_return_to_normal_on_escape() {
    let escape = KeyPress::key(KeyCode::Escape);
    assert_eq!(
        vim_insert().lookup(&[escape]),
        Lookup::Bound(Command::new("enter-normal-mode"))
    );
    assert_eq!(
        vim_visual().lookup(&[escape]),
        Lookup::Bound(Command::new("enter-normal-mode"))
    );
    assert_eq!(
        vim_visual().lookup(&[KeyPress::char('l')]),
        Lookup::Bound(Command::new("select-right"))
    );
}

#[test]
fn profile_round_trips_through_its_name() {
    for profile in [Profile::Cua, Profile::Emacs, Profile::Vim] {
        assert_eq!(Profile::from_name(profile.name()), Some(profile));
    }
    assert_eq!(Profile::from_name("  VIM "), Some(Profile::Vim));
    assert_eq!(Profile::from_name("spacemacs"), None);
    assert_eq!(Profile::default(), Profile::Cua);
}

#[test]
fn hints_list_the_keys_that_may_follow() {
    let upper = Keymap::new().bind(
        &[KeyPress::ctrl('x'), KeyPress::char('k')],
        Command::new("kill"),
    );
    let lower = Keymap::new()
        .bind(&[KeyPress::ctrl('x'), KeyPress::char('k')], Command::new("keep"))
        .bind(
            &[KeyPress::ctrl('x'), KeyPress::char('r'), KeyPress::char('s')],
            Command::new("store"),
        )
        .bind(&[KeyPress::ctrl('s')], Command::new("save"));
    let mut dispatcher = Dispatcher::new(vec![upper, lower]);
    assert!(dispatcher.hints().is_empty());
    assert_eq!(dispatcher.feed(KeyPress::ctrl('x')), Resolution::Pending);
    let mut hints = dispatcher.hints();
    hints.sort();
    assert_eq!(
        hints,
        vec![
            (KeyPress::char('k'), "kill".to_owned()),
            (KeyPress::char('r'), "+prefix".to_owned()),
        ]
    );
    dispatcher.feed(KeyPress::char('r'));
    assert_eq!(
        dispatcher.hints(),
        vec![(KeyPress::char('s'), "store".to_owned())]
    );
    dispatcher.reset();
    assert!(dispatcher.hints().is_empty());
}

#[test]
fn next_keys_are_those_that_lead_on() {
    let keymap = Keymap::new()
        .bind(&[KeyPress::char('g'), KeyPress::char('g')], Command::new("top"))
        .bind(&[KeyPress::char('g')], Command::new("go"));
    assert_eq!(keymap.next_keys(&[]), vec![KeyPress::char('g')]);
    assert_eq!(
        keymap.next_keys(&[KeyPress::char('g')]),
        vec![KeyPress::char('g')]
    );
    assert!(keymap.next_keys(&[KeyPress::char('x')]).is_empty());
    assert!(keymap
        .next_keys(&[KeyPress::char('g'), KeyPress::char('g')])
        .is_empty());
}
