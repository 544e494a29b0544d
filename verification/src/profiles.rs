//! Built-in keybinding profiles.

use crate::key::{KeyCode, KeyPress, Mods};
use crate::keymap::{Bindings, Command, Keymap};
use crate::text::{ascii_lower_all, chars_of, lemma_trim_id, same_text, string_of, to_ascii_lower_all, trim, trimmed};
use vstd::prelude::*;

verus! {

/// A built-in keybinding profile, selected by the `keymap` configuration field or by a
/// profile-switch command.
#[derive(Clone, Copy, Debug, PartialEq, Eq, Structural)]
pub enum Profile {
    /// Common User Access, the default. Non-modal.
    Cua,
    /// Classic Emacs: `C-`/`M-` chords and the `C-x` prefix map. Non-modal.
    Emacs,
    /// Modal Vim: Normal / Insert / Visual.
    Vim,
    /// Vim modality with a leader menu; offered by the first-run selector.
    Spacemacs,
}

impl Default for Profile {
    fn default() -> (r: Self)
        ensures
            r == Profile::Cua,
    {
        Profile::Cua
    }
}

impl Profile {
    /// The configuration name of a profile.
    pub open spec fn config_name(self) -> Seq<char> {
        match self {
            Profile::Cua => "cua"@,
            Profile::Emacs => "emacs"@,
            Profile::Vim => "vim"@,
            Profile::Spacemacs => "spacemacs"@,
        }
    }

    /// Whether the profile can be named in the configuration.
    pub open spec fn configurable(self) -> bool {
        !(self is Spacemacs)
    }

    /// Parses a profile from its configuration name (`"cua"`, `"emacs"`, `"vim"`), ignoring the
    /// case of ASCII letters and the white space around it. An unknown name gives `None`, so
    /// that the caller can keep the current profile.
    pub fn from_name(name: &str) -> (r: Option<Self>)
        ensures
            forall|p: Profile|
                r == Some(p) <==> p.configurable() && ascii_lower_all(trim(name@))
                    == #[trigger] p.config_name(),
    {
        let chars = chars_of(name);
        let lower = to_ascii_lower_all(trimmed(chars.as_slice()).as_slice());
        let key = string_of(lower.as_slice());
        proof {
            reveal_strlit("cua");
            reveal_strlit("emacs");
            reveal_strlit("vim");
            reveal_strlit("spacemacs");
            assert("cua"@[0] == 'c' && "vim"@[0] == 'v');
        }
        if same_text(key.as_str(), "cua") {
            Some(Profile::Cua)
        } else if same_text(key.as_str(), "emacs") {
            Some(Profile::Emacs)
        } else if same_text(key.as_str(), "vim") {
            Some(Profile::Vim)
        } else {
            None
        }
    }

    /// The canonical configuration name of this profile.
    pub fn name(self) -> (r: &'static str)
        ensures
            r@ == self.config_name(),
    {
        match self {
            Profile::Cua => "cua",
            Profile::Emacs => "emacs",
            Profile::Vim => "vim",
            Profile::Spacemacs => "spacemacs",
        }
    }
}

/// Every profile that the configuration can name is found again by its name: the name is what
/// trimming and lower-casing leave of it, and no other such profile has it.
pub proof fn law_name_round_trip(p: Profile, q: Profile)
    requires
        p.configurable(),
        q.configurable(),
    ensures
        ascii_lower_all(trim(p.config_name())) == p.config_name(),
        p.config_name() == q.config_name() ==> p == q,
{
    reveal_strlit("cua");
    reveal_strlit("emacs");
    reveal_strlit("vim");
    let name = p.config_name();
    lemma_trim_id(name);
    assert(ascii_lower_all(name) =~= name);
    assert("cua"@[0] == 'c' && "vim"@[0] == 'v');
}

/// A table of single chords and the commands that they run.
pub type Chords = Seq<(KeyPress, Seq<char>)>;

/// The bindings of a table of single chords; of two entries for a chord the later one holds.
pub open spec fn chord_bindings(table: Chords) -> Bindings
    decreases table.len(),
{
    if table.len() == 0 {
        Map::empty()
    } else {
        chord_bindings(table.drop_last()).insert(seq![table.last().0], table.last().1)
    }
}

/// `bindings` with every chord of a table bound behind the chord `prefix`.
pub open spec fn prefixed(bindings: Bindings, prefix: KeyPress, table: Chords) -> Bindings
    decreases table.len(),
{
    if table.len() == 0 {
        bindings
    } else {
        prefixed(bindings, prefix, table.drop_last()).insert(
            seq![prefix, table.last().0],
            table.last().1,
        )
    }
}

/// A table with the command names as texts.
pub open spec fn named(table: Seq<(KeyPress, &str)>) -> Chords {
    table.map_values(|e: (KeyPress, &str)| (e.0, e.1@))
}

/// Builds a keymap that binds each `(chord, command)` as a single-key sequence.
fn bind_all(bindings: &[(KeyPress, &str)]) -> (r: Keymap)
    ensures
        r@ == chord_bindings(named(bindings@)),
{
    let mut keymap = Keymap::new();
    let mut i: usize = 0;
    while i < bindings.len()
        invariant
            i <= bindings@.len(),
            keymap@ == chord_bindings(named(bindings@.take(i as int))),
        decreases bindings@.len() - i,
    {
        let (key, command) = bindings[i];
        let chord = [key];
        keymap = keymap.bind(chord.as_slice(), Command::new(command));
        proof {
            let table = named(bindings@.take(i + 1));
            assert(table.drop_last() =~= named(bindings@.take(i as int)));
            assert(chord@ =~= seq![key]);
        }
        i += 1;
    }
    assert(bindings@.take(i as int) =~= bindings@);
    keymap
}

/// The chords of the CUA profile.
pub open spec fn cua_chords() -> Chords {
    seq![
        (KeyPress::ctrl('c'), "copy"@),
        (KeyPress::ctrl('x'), "cut"@),
        (KeyPress::ctrl('v'), "paste"@),
        (KeyPress::ctrl('z'), "undo"@),
        (KeyPress::ctrl('y'), "redo"@),
        (KeyPress::ctrl('s'), "save"@),
        (KeyPress::ctrl('a'), "select-all"@),
        (KeyPress::ctrl('f'), "find"@),
        (KeyPress::ctrl('q'), "quit"@),
        (KeyPress::ctrl('w'), "close-buffer"@),
        (KeyPress::key(KeyCode::Enter), "insert-newline"@),
        (KeyPress::key(KeyCode::Tab), "indent"@),
        (KeyPress::key(KeyCode::Backspace), "delete-backward"@),
        (KeyPress::key(KeyCode::Delete), "delete-forward"@),
        (KeyPress::key(KeyCode::Left), "move-left"@),
        (KeyPress::key(KeyCode::Right), "move-right"@),
        (KeyPress::key(KeyCode::Up), "move-up"@),
        (KeyPress::key(KeyCode::Down), "move-down"@),
        (KeyPress::key(KeyCode::Home), "move-line-start"@),
        (KeyPress::key(KeyCode::End), "move-line-end"@),
        (KeyPress::key(KeyCode::PageUp), "page-up"@),
        (KeyPress::key(KeyCode::PageDown), "page-down"@),
        (KeyPress::new(Mods::shift(), KeyCode::Left), "select-left"@),
        (KeyPress::new(Mods::shift(), KeyCode::Right), "select-right"@),
        (KeyPress::new(Mods::shift(), KeyCode::Up), "select-up"@),
        (KeyPress::new(Mods::shift(), KeyCode::Down), "select-down"@),
    ]
}

/// Builds the global CUA keymap: the standard editing chords plus cursor motion. Printable keys
/// are left unbound, so that the editor inserts them.
pub fn cua() -> (r: Keymap)
    ensures
        r@ == chord_bindings(cua_chords()),
{
    let table = [
        (KeyPress::ctrl('c'), "copy"),
        (KeyPress::ctrl('x'), "cut"),
        (KeyPress::ctrl('v'), "paste"),
        (KeyPress::ctrl('z'), "undo"),
        (KeyPress::ctrl('y'), "redo"),
        (KeyPress::ctrl('s'), "save"),
        (KeyPress::ctrl('a'), "select-all"),
        (KeyPress::ctrl('f'), "find"),
        (KeyPress::ctrl('q'), "quit"),
        (KeyPress::ctrl('w'), "close-buffer"),
        (KeyPress::key(KeyCode::Enter), "insert-newline"),
        (KeyPress::key(KeyCode::Tab), "indent"),
        (KeyPress::key(KeyCode::Backspace), "delete-backward"),
        (KeyPress::key(KeyCode::Delete), "delete-forward"),
        (KeyPress::key(KeyCode::Left), "move-left"),
        (KeyPress::key(KeyCode::Right), "move-right"),
        (KeyPress::key(KeyCode::Up), "move-up"),
        (KeyPress::key(KeyCode::Down), "move-down"),
        (KeyPress::key(KeyCode::Home), "move-line-start"),
        (KeyPress::key(KeyCode::End), "move-line-end"),
        (KeyPress::key(KeyCode::PageUp), "page-up"),
        (KeyPress::key(KeyCode::PageDown), "page-down"),
        (KeyPress::new(Mods::shift(), KeyCode::Left), "select-left"),
        (KeyPress::new(Mods::shift(), KeyCode::Right), "select-right"),
        (KeyPress::new(Mods::shift(), KeyCode::Up), "select-up"),
        (KeyPress::new(Mods::shift(), KeyCode::Down), "select-down"),
    ];
    assert(named(table@) =~= cua_chords());
    bind_all(table.as_slice())
}

/// The single chords of the Emacs profile.
pub open spec fn emacs_chords() -> Chords {
    seq![
        (KeyPress::ctrl('f'), "move-right"@),
        (KeyPress::ctrl('b'), "move-left"@),
        (KeyPress::ctrl('n'), "move-down"@),
        (KeyPress::ctrl('p'), "move-up"@),
        (KeyPress::ctrl('a'), "move-line-start"@),
        (KeyPress::ctrl('e'), "move-line-end"@),
        (KeyPress::ctrl('v'), "page-down"@),
        (KeyPress::alt('v'), "page-up"@),
        (KeyPress::key(KeyCode::Enter), "insert-newline"@),
        (KeyPress::key(KeyCode::Tab), "indent"@),
        (KeyPress::key(KeyCode::Backspace), "delete-backward"@),
        (KeyPress::ctrl('d'), "delete-forward"@),
        (KeyPress::ctrl('/'), "undo"@),
        (KeyPress::ctrl('k'), "kill-line"@),
        (KeyPress::ctrl('w'), "cut"@),
        (KeyPress::alt('w'), "copy"@),
        (KeyPress::ctrl('y'), "paste"@),
        (KeyPress::ctrl('s'), "find"@),
    ]
}

/// The chords of the Emacs profile that follow its prefix chord `C-x`.
pub open spec fn emacs_prefixed_chords() -> Chords {
    seq![
        (KeyPress::ctrl('s'), "save"@),
        (KeyPress::ctrl('c'), "quit"@),
        (KeyPress::char('k'), "close-buffer"@),
        (KeyPress::char('h'), "select-all"@),
    ]
}

/// Builds the global Emacs keymap: the classic `C-`/`M-` motion and editing chords plus the
/// `C-x` prefix map. Printable keys are left unbound, so that the editor inserts them.
pub fn emacs() -> (r: Keymap)
    ensures
        r@ == prefixed(
            chord_bindings(emacs_chords()),
            KeyPress::ctrl('x'),
            emacs_prefixed_chords(),
        ),
{
    let chords = [
        (KeyPress::ctrl('f'), "move-right"),
        (KeyPress::ctrl('b'), "move-left"),
        (KeyPress::ctrl('n'), "move-down"),
        (KeyPress::ctrl('p'), "move-up"),
        (KeyPress::ctrl('a'), "move-line-start"),
        (KeyPress::ctrl('e'), "move-line-end"),
        (KeyPress::ctrl('v'), "page-down"),
        (KeyPress::alt('v'), "page-up"),
        (KeyPress::key(KeyCode::Enter), "insert-newline"),
        (KeyPress::key(KeyCode::Tab), "indent"),
        (KeyPress::key(KeyCode::Backspace), "delete-backward"),
        (KeyPress::ctrl('d'), "delete-forward"),
        (KeyPress::ctrl('/'), "undo"),
        (KeyPress::ctrl('k'), "kill-line"),
        (KeyPress::ctrl('w'), "cut"),
        (KeyPress::alt('w'), "copy"),
        (KeyPress::ctrl('y'), "paste"),
        (KeyPress::ctrl('s'), "find"),
    ];
    let c_x = [
        (KeyPress::ctrl('s'), "save"),
        (KeyPress::ctrl('c'), "quit"),
        (KeyPress::char('k'), "close-buffer"),
        (KeyPress::char('h'), "select-all"),
    ];
    assert(named(chords@) =~= emacs_chords());
    assert(named(c_x@) =~= emacs_prefixed_chords());
    let mut keymap = bind_all(chords.as_slice());
    let ghost base = keymap@;
    let mut i: usize = 0;
    while i < c_x.len()
        invariant
            i <= c_x@.len(),
            keymap@ == prefixed(base, KeyPress::ctrl('x'), named(c_x@.take(i as int))),
        decreases c_x@.len() - i,
    {
        let (second, command) = c_x[i];
        let chord = [KeyPress::ctrl('x'), second];
        keymap = keymap.bind(chord.as_slice(), Command::new(command));
        proof {
            let table = named(c_x@.take(i + 1));
            assert(table.drop_last() =~= named(c_x@.take(i as int)));
            assert(chord@ =~= seq![KeyPress::ctrl('x'), second]);
        }
        i += 1;
    }
    assert(c_x@.take(i as int) =~= c_x@);
    keymap
}

/// The chords of Vim's Normal mode.
pub open spec fn vim_normal_chords() -> Chords {
    seq![
        (KeyPress::char('h'), "move-left"@),
        (KeyPress::char('j'), "move-down"@),
        (KeyPress::char('k'), "move-up"@),
        (KeyPress::char('l'), "move-right"@),
        (KeyPress::char('0'), "move-line-start"@),
        (KeyPress::char('$'), "move-line-end"@),
        (KeyPress::char('i'), "enter-insert-mode"@),
        (KeyPress::char('v'), "enter-visual-mode"@),
        (KeyPress::char('x'), "delete-forward"@),
        (KeyPress::char('u'), "undo"@),
        (KeyPress::char('p'), "paste"@),
    ]
}

/// Builds the Vim Normal-mode keymap: `hjkl` motion, `i`/`v` to switch mode, and the common
/// editing chords.
pub fn vim_normal() -> (r: Keymap)
    ensures
        r@ == chord_bindings(vim_normal_chords()),
{
    let table = [
        (KeyPress::char('h'), "move-left"),
        (KeyPress::char('j'), "move-down"),
        (KeyPress::char('k'), "move-up"),
        (KeyPress::char('l'), "move-right"),
        (KeyPress::char('0'), "move-line-start"),
        (KeyPress::char('$'), "move-line-end"),
        (KeyPress::char('i'), "enter-insert-mode"),
        (KeyPress::char('v'), "enter-visual-mode"),
        (KeyPress::char('x'), "delete-forward"),
        (KeyPress::char('u'), "undo"),
        (KeyPress::char('p'), "paste"),
    ];
    assert(named(table@) =~= vim_normal_chords());
    bind_all(table.as_slice())
}

/// The chords of Vim's Insert mode.
pub open spec fn vim_insert_chords() -> Chords {
    seq![
        (KeyPress::key(KeyCode::Escape), "enter-normal-mode"@),
        (KeyPress::key(KeyCode::Enter), "insert-newline"@),
        (KeyPress::key(KeyCode::Tab), "indent"@),
        (KeyPress::key(KeyCode::Backspace), "delete-backward"@),
        (KeyPress::key(KeyCode::Left), "move-left"@),
        (KeyPress::key(KeyCode::Right), "move-right"@),
        (KeyPress::key(KeyCode::Up), "move-up"@),
        (KeyPress::key(KeyCode::Down), "move-down"@),
    ]
}

/// Builds the Vim Insert-mode keymap: `Esc` returns to Normal mode, the named keys edit, and
/// printable keys are left to self-insertion.
pub fn vim_insert() -> (r: Keymap)
    ensures
        r@ == chord_bindings(vim_insert_chords()),
{
    let table = [
        (KeyPress::key(KeyCode::Escape), "enter-normal-mode"),
        (KeyPress::key(KeyCode::Enter), "insert-newline"),
        (KeyPress::key(KeyCode::Tab), "indent"),
        (KeyPress::key(KeyCode::Backspace), "delete-backward"),
        (KeyPress::key(KeyCode::Left), "move-left"),
        (KeyPress::key(KeyCode::Right), "move-right"),
        (KeyPress::key(KeyCode::Up), "move-up"),
        (KeyPress::key(KeyCode::Down), "move-down"),
    ];
    assert(named(table@) =~= vim_insert_chords());
    bind_all(table.as_slice())
}

/// The chords of Vim's Visual mode.
pub open spec fn vim_visual_chords() -> Chords {
    seq![
        (KeyPress::char('h'), "select-left"@),
        (KeyPress::char('j'), "select-down"@),
        (KeyPress::char('k'), "select-up"@),
        (KeyPress::char('l'), "select-right"@),
        (KeyPress::char('y'), "copy"@),
        (KeyPress::char('x'), "cut"@),
        (KeyPress::key(KeyCode::Escape), "enter-normal-mode"@),
        (KeyPress::char('v'), "enter-normal-mode"@),
    ]
}

/// Builds the Vim Visual-mode keymap: `hjkl` extend the selection, `y`/`x` copy and cut it, and
/// `Esc`/`v` return to Normal mode.
pub fn vim_visual() -> (r: Keymap)
    ensures
        r@ == chord_bindings(vim_visual_chords()),
{
    let table = [
        (KeyPress::char('h'), "select-left"),
        (KeyPress::char('j'), "select-down"),
        (KeyPress::char('k'), "select-up"),
        (KeyPress::char('l'), "select-right"),
        (KeyPress::char('y'), "copy"),
        (KeyPress::char('x'), "cut"),
        (KeyPress::key(KeyCode::Escape), "enter-normal-mode"),
        (KeyPress::char('v'), "enter-normal-mode"),
    ];
    assert(named(table@) =~= vim_visual_chords());
    bind_all(table.as_slice())
}

/// A chord runs the command that the table gives it last, and one that is not in the table is not
/// bound.
pub proof fn law_chords_run_their_commands(table: Chords, key: KeyPress, k: int)
    requires
        -1 <= k < table.len(),
        k >= 0 ==> table[k].0 == key,
        forall|j: int| k < j < table.len() ==> (#[trigger] table[j]).0 != key,
    ensures
        k >= 0 ==> chord_bindings(table).contains_key(seq![key]) && chord_bindings(table)[seq![key]]
            == table[k].1,
        k < 0 ==> !chord_bindings(table).contains_key(seq![key]),
    decreases table.len(),
{
    if table.len() > 0 {
        let last = table.last();
        if k < table.len() - 1 {
            let d = table.drop_last();
            assert forall|j: int| k < j < d.len() implies (#[trigger] d[j]).0 != key by {
                assert(d[j] == table[j]);
            }
            law_chords_run_their_commands(d, key, k);
            assert(table[table.len() - 1].0 != key);
            assert(seq![last.0][0] != seq![key][0]);
        } else {
            assert(last == table[k]);
        }
    }
}

/// The clipboard, history and file commands of the CUA profile are on the keys that its users know.
pub proof fn law_cua_keys()
    ensures
        cua_chords().contains((KeyPress::ctrl('c'), "copy"@)),
        cua_chords().contains((KeyPress::ctrl('x'), "cut"@)),
        cua_chords().contains((KeyPress::ctrl('v'), "paste"@)),
        cua_chords().contains((KeyPress::ctrl('z'), "undo"@)),
        cua_chords().contains((KeyPress::ctrl('y'), "redo"@)),
        cua_chords().contains((KeyPress::ctrl('s'), "save"@)),
        cua_chords().contains((KeyPress::ctrl('a'), "select-all"@)),
        cua_chords().contains((KeyPress::ctrl('q'), "quit"@)),
        cua_chords().contains((KeyPress::key(KeyCode::PageUp), "page-up"@)),
        cua_chords().contains((KeyPress::key(KeyCode::PageDown), "page-down"@)),
        cua_chords().contains((KeyPress::key(KeyCode::Backspace), "delete-backward"@)),
        cua_chords().contains((KeyPress::key(KeyCode::Delete), "delete-forward"@)),
{
    let t = cua_chords();
    assert(t[0] == (KeyPress::ctrl('c'), "copy"@));
    assert(t[1] == (KeyPress::ctrl('x'), "cut"@));
    assert(t[2] == (KeyPress::ctrl('v'), "paste"@));
    assert(t[3] == (KeyPress::ctrl('z'), "undo"@));
    assert(t[4] == (KeyPress::ctrl('y'), "redo"@));
    assert(t[5] == (KeyPress::ctrl('s'), "save"@));
    assert(t[6] == (KeyPress::ctrl('a'), "select-all"@));
    assert(t[8] == (KeyPress::ctrl('q'), "quit"@));
    assert(t[12] == (KeyPress::key(KeyCode::Backspace), "delete-backward"@));
    assert(t[13] == (KeyPress::key(KeyCode::Delete), "delete-forward"@));
    assert(t[20] == (KeyPress::key(KeyCode::PageUp), "page-up"@));
    assert(t[21] == (KeyPress::key(KeyCode::PageDown), "page-down"@));
}

} // verus!
