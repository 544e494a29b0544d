//! The first-run profile selector.

use crate::popup::{draw_lines, least, put_lines};
use crate::profiles::Profile;
use crate::surface::{Canvas, Rect, Surface, Theme};
use crate::text::{ascii_lower, strings, to_ascii_lower};
use vstd::prelude::*;

verus! {

/// The modal profile picker shown on first run. It has no state: the host maps a pressed key
/// through [`ProfileSelector::pick`].
#[derive(Clone, Copy, Debug, PartialEq, Eq)]
pub struct ProfileSelector;

/// The profile that a key selects, whatever its case.
pub open spec fn chosen(key: char) -> Option<Profile> {
    let k = ascii_lower(key);
    if k == 'c' {
        Some(Profile::Cua)
    } else if k == 'e' {
        Some(Profile::Emacs)
    } else if k == 'v' {
        Some(Profile::Vim)
    } else if k == 's' {
        Some(Profile::Spacemacs)
    } else {
        None
    }
}

/// The lines of the selector: a heading, the options and a hint.
pub open spec fn selector_lines() -> Seq<Seq<char>> {
    seq![
        "Welcome to Majestic. Choose your keybindings:"@,
        ""@,
        "  [C]UA — modern shortcuts (Ctrl+C/X/V copy, cut, paste)"@,
        "  [E]macs — C-/M- chords and the C-x prefix map"@,
        "  [V]im — modal editing (Normal / Insert / Visual)"@,
        "  [S]pacemacs — Vim modality with a SPC leader menu"@,
        ""@,
        "Press the bracketed letter.   Esc = CUA (default)."@,
    ]
}

/// The selector drawn over `c`.
pub open spec fn drawn(c: Canvas, area: Rect, theme: Theme) -> Canvas {
    if area.width < 3 || area.height < 3 {
        c
    } else {
        let r = area.centred(
            least(area.width as int, 64) as u32,
            least(area.height as int, selector_lines().len() + 2int) as u32,
        );
        draw_lines(
            c.boxed(r, theme, "First-run setup"@),
            r.inner(),
            selector_lines(),
            0,
            theme.base_style(),
        )
    }
}

impl ProfileSelector {
    /// Creates the selector, which offers every built-in profile.
    pub fn new() -> (r: Self) {
        ProfileSelector
    }

    /// The profile that a pressed key selects; `None` if it matches no option.
    pub fn pick(&self, key: char) -> (r: Option<Profile>)
        ensures
            r == chosen(key),
    {
        let k = to_ascii_lower(key);
        if k == 'c' {
            Some(Profile::Cua)
        } else if k == 'e' {
            Some(Profile::Emacs)
        } else if k == 'v' {
            Some(Profile::Vim)
        } else if k == 's' {
            Some(Profile::Spacemacs)
        } else {
            None
        }
    }

    /// The lines shown: a heading, the options and a hint.
    pub fn lines(&self) -> (r: Vec<String>)
        ensures
            strings(r@) == selector_lines(),
    {
        let mut r: Vec<String> = Vec::new();
        r.push("Welcome to Majestic. Choose your keybindings:".to_owned());
        r.push("".to_owned());
        r.push("  [C]UA — modern shortcuts (Ctrl+C/X/V copy, cut, paste)".to_owned());
        r.push("  [E]macs — C-/M- chords and the C-x prefix map".to_owned());
        r.push("  [V]im — modal editing (Normal / Insert / Visual)".to_owned());
        r.push("  [S]pacemacs — Vim modality with a SPC leader menu".to_owned());
        r.push("".to_owned());
        r.push("Press the bracketed letter.   Esc = CUA (default).".to_owned());
        assert(strings(r@) =~= selector_lines());
        r
    }

    /// Draws the selector as a box in the middle of `area`.
    pub fn render(&self, surface: &mut Surface, area: Rect, theme: &Theme)
        requires
            old(surface)@.wf(),
            area.wf(),
        ensures
            final(surface)@ == drawn(old(surface)@, area, *theme),
            final(surface)@.wf(),
    {
        if area.width < 3 || area.height < 3 {
            return ;
        }
        let lines = self.lines();
        assert(lines@.len() == strings(lines@).len());
        let width: u32 = if area.width < 64 {
            area.width
        } else {
            64
        };
        let height: u32 = if area.height < 10 {
            area.height
        } else {
            10
        };
        let r = area.centre(width, height);
        surface.draw_box(r, theme, "First-run setup");
        put_lines(surface, r.inset(), lines.as_slice(), theme.base_style());
    }
}

impl Default for ProfileSelector {
    fn default() -> (r: Self) {
        ProfileSelector
    }
}

} // verus!
