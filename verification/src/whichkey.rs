//! The which-key hint: the keys that can follow the prefix typed so far.

use crate::key::{KeyCode, KeyPress, Mods};
use crate::popup::{draw_lines, least, put_lines};
use crate::surface::{Canvas, Rect, Surface, Theme};
use crate::text::{decimal, decimal_of, pad, padded, strings};
use vstd::prelude::*;

verus! {

/// The keys available after the prefix in progress, with what each runs.
#[derive(Clone, Debug)]
pub struct WhichKey {
    rows: Vec<(KeyPress, String)>,
}

/// The name of a key without its modifiers.
pub open spec fn code_name(code: KeyCode) -> Seq<char> {
    match code {
        KeyCode::Char(c) => if c == ' ' {
            "SPC"@
        } else {
            seq![c]
        },
        KeyCode::Enter => "RET"@,
        KeyCode::Escape => "Esc"@,
        KeyCode::Tab => "TAB"@,
        KeyCode::Backspace => "DEL"@,
        KeyCode::Delete => "Del"@,
        KeyCode::Insert => "Ins"@,
        KeyCode::Left => "Left"@,
        KeyCode::Right => "Right"@,
        KeyCode::Up => "Up"@,
        KeyCode::Down => "Down"@,
        KeyCode::Home => "Home"@,
        KeyCode::End => "End"@,
        KeyCode::PageUp => "PgUp"@,
        KeyCode::PageDown => "PgDn"@,
        KeyCode::Function(number) => seq!['F'] + decimal(number as nat),
    }
}

/// A key as a short label, such as `SPC`, `f`, `C-s` or `Esc`.
pub open spec fn label_of(key: KeyPress) -> Seq<char> {
    let ctrl = if key.mods.has(Mods::ctrl().0) {
        "C-"@
    } else {
        Seq::empty()
    };
    let alt = if key.mods.has(Mods::alt().0) {
        "M-"@
    } else {
        Seq::empty()
    };
    let shift = if key.mods.has(Mods::shift().0) {
        "S-"@
    } else {
        Seq::empty()
    };
    ctrl + alt + shift + code_name(key.code)
}

/// A key as a short label.
pub fn key_label(key: KeyPress) -> (r: String)
    ensures
        r@ == label_of(key),
{
    let mut label = String::new();
    if key.mods.contains(Mods::ctrl()) {
        label.append("C-");
    }
    if key.mods.contains(Mods::alt()) {
        label.append("M-");
    }
    if key.mods.contains(Mods::shift()) {
        label.append("S-");
    }
    let ghost modifiers = label@;
    proof {
        let ctrl = if key.mods.has(Mods::ctrl().0) {
            "C-"@
        } else {
            Seq::empty()
        };
        let alt = if key.mods.has(Mods::alt().0) {
            "M-"@
        } else {
            Seq::empty()
        };
        let shift = if key.mods.has(Mods::shift().0) {
            "S-"@
        } else {
            Seq::empty()
        };
        assert(modifiers =~= ctrl + alt + shift);
    }
    match key.code {
        KeyCode::Char(c) => {
            if c == ' ' {
                label.append("SPC");
            } else {
                label.push(c);
                assert(label@ =~= modifiers + seq![c]);
            }
        },
        KeyCode::Enter => label.append("RET"),
        KeyCode::Escape => label.append("Esc"),
        KeyCode::Tab => label.append("TAB"),
        KeyCode::Backspace => label.append("DEL"),
        KeyCode::Delete => label.append("Del"),
        KeyCode::Insert => label.append("Ins"),
        KeyCode::Left => label.append("Left"),
        KeyCode::Right => label.append("Right"),
        KeyCode::Up => label.append("Up"),
        KeyCode::Down => label.append("Down"),
        KeyCode::Home => label.append("Home"),
        KeyCode::End => label.append("End"),
        KeyCode::PageUp => label.append("PgUp"),
        KeyCode::PageDown => label.append("PgDn"),
        KeyCode::Function(number) => {
            label.push('F');
            label.append(decimal_of(number as u128).as_str());
            assert(label@ =~= modifiers + (seq!['F'] + decimal(number as nat)));
        },
    }
    label
}

/// One line of the hint: the key, padded to a column, and its label.
pub open spec fn hint_line(row: (KeyPress, String)) -> Seq<char> {
    "  "@ + padded(label_of(row.0), 7) + " "@ + row.1@
}

/// The lines of the hint.
pub open spec fn hint_lines(rows: Seq<(KeyPress, String)>) -> Seq<Seq<char>> {
    rows.map_values(|row: (KeyPress, String)| hint_line(row))
}

/// The hint drawn over `c`: a box at the bottom of the area.
pub open spec fn drawn(
    c: Canvas,
    rows: Seq<(KeyPress, String)>,
    area: Rect,
    theme: Theme,
) -> Canvas {
    if rows.len() == 0 || area.width < 12 || area.height < 4 {
        c
    } else {
        let width = least(area.width as int, 44) as u32;
        let height = least(rows.len() + 2int, area.height as int) as u32;
        let r = Rect {
            x: (area.x + (area.width - width) / 2) as u32,
            y: (area.bottom_row() - height) as u32,
            width,
            height,
        };
        draw_lines(
            c.boxed(r, theme, "which-key"@),
            r.inner(),
            hint_lines(rows),
            0,
            theme.base_style(),
        )
    }
}

impl WhichKey {
    /// The keys and their labels.
    pub closed spec fn entries(self) -> Seq<(KeyPress, String)> {
        self.rows@
    }

    /// Creates a hint over rows of a next key and its label.
    pub fn new(rows: Vec<(KeyPress, String)>) -> (r: Self)
        ensures
            r.entries() == rows@,
    {
        WhichKey { rows }
    }

    /// Whether there is nothing to show.
    pub fn is_empty(&self) -> (r: bool)
        ensures
            r == (self.entries().len() == 0),
    {
        self.rows.len() == 0
    }

    fn lines(&self) -> (r: Vec<String>)
        ensures
            strings(r@) == hint_lines(self.entries()),
    {
        let mut out: Vec<String> = Vec::new();
        let mut i: usize = 0;
        while i < self.rows.len()
            invariant
                i <= self.rows@.len(),
                strings(out@) =~= hint_lines(self.rows@.take(i as int)),
            decreases self.rows@.len() - i,
        {
            let row = &self.rows[i];
            let mut line = "  ".to_owned();
            let key = key_label(row.0);
            line.append(pad(key.as_str(), 7).as_str());
            line.append(" ");
            line.append(row.1.as_str());
            assert(line@ =~= hint_line(*row));
            let ghost before = strings(out@);
            out.push(line);
            assert(strings(out@) =~= before.push(hint_line(*row)));
            assert(strings(out@) =~= hint_lines(self.rows@.take(i + 1)));
            i += 1;
        }
        assert(self.rows@.take(i as int) =~= self.rows@);
        out
    }

    /// Draws the hint as a small box at the bottom of `area`.
    pub fn render(&self, surface: &mut Surface, area: Rect, theme: &Theme)
        requires
            old(surface)@.wf(),
            area.wf(),
        ensures
            final(surface)@ == drawn(old(surface)@, self.entries(), area, *theme),
            final(surface)@.wf(),
    {
        if self.rows.len() == 0 || area.width < 12 || area.height < 4 {
            return ;
        }
        let lines = self.lines();
        let width: u32 = if area.width < 44 {
            area.width
        } else {
            44
        };
        let height: u32 = if self.rows.len() < (area.height - 2) as usize {
            self.rows.len() as u32 + 2
        } else {
            area.height
        };
        let r = Rect {
            x: area.x + (area.width - width) / 2,
            y: area.bottom() - height,
            width,
            height,
        };
        surface.draw_box(r, theme, "which-key");
        put_lines(surface, r.inset(), lines.as_slice(), theme.base_style());
    }
}

/// A key is named by its character, and each modifier by its letter before it, in order.
pub proof fn law_keys_are_named(key: KeyPress, c: char)
    requires
        key.code == KeyCode::Char(c),
        c != ' ',
    ensures
        ({
            let ctrl = key.mods.has(Mods::ctrl().0);
            let alt = key.mods.has(Mods::alt().0);
            let shift = key.mods.has(Mods::shift().0);
            let label = label_of(key);
            &&& !ctrl && !alt && !shift ==> label == seq![c]
            &&& ctrl && !alt && !shift ==> label == seq!['C', '-', c]
            &&& !ctrl && alt && !shift ==> label == seq!['M', '-', c]
            &&& !ctrl && !alt && shift ==> label == seq!['S', '-', c]
            &&& ctrl && alt && !shift ==> label == seq!['C', '-', 'M', '-', c]
        }),
{
    reveal_strlit("C-");
    reveal_strlit("M-");
    reveal_strlit("S-");
    let label = label_of(key);
    assert("C-"@ =~= seq!['C', '-']);
    assert("M-"@ =~= seq!['M', '-']);
    assert("S-"@ =~= seq!['S', '-']);
    assert(!key.mods.has(Mods::ctrl().0) && !key.mods.has(Mods::alt().0) && !key.mods.has(Mods::shift().0)
        ==> label =~= seq![c]);
    assert(key.mods.has(Mods::ctrl().0) && !key.mods.has(Mods::alt().0) && !key.mods.has(Mods::shift().0)
        ==> label =~= seq!['C', '-', c]);
    assert(!key.mods.has(Mods::ctrl().0) && key.mods.has(Mods::alt().0) && !key.mods.has(Mods::shift().0)
        ==> label =~= seq!['M', '-', c]);
    assert(!key.mods.has(Mods::ctrl().0) && !key.mods.has(Mods::alt().0) && key.mods.has(Mods::shift().0)
        ==> label =~= seq!['S', '-', c]);
    assert(key.mods.has(Mods::ctrl().0) && key.mods.has(Mods::alt().0) && !key.mods.has(Mods::shift().0)
        ==> label =~= seq!['C', '-', 'M', '-', c]);
}

} // verus!
