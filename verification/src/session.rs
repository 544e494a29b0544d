//! Saved sessions: the window layout, the open files and the cursor positions.
//!
//! [`Workspace::to_session`](crate::workspace::Workspace::to_session) captures a session and
//! [`Workspace::from_session`](crate::workspace::Workspace::from_session) rebuilds it. The host
//! writes it to a file and reads it back.

use crate::document::opt_text;
use crate::files::{join, join_path};
use crate::workspace::Split;
use vstd::prelude::*;

verus! {

/// A saved session.
#[derive(Debug, PartialEq, Eq)]
pub struct Session {
    /// The panes, in the order of the window tree.
    pub panes: Vec<PaneState>,
    /// The window tree over them.
    pub layout: LayoutNode,
    /// The index of the focused pane.
    pub focused: usize,
}

/// What is saved of a pane.
#[derive(Clone, Debug, PartialEq, Eq)]
pub struct PaneState {
    /// The path of the open file, if it has one.
    pub path: Option<String>,
    /// The byte offset of the cursor.
    pub cursor: usize,
    /// The first line in view.
    pub viewport_top: usize,
    /// The first column in view.
    pub viewport_left: usize,
}

/// The contents of a [`PaneState`].
pub struct SavedPane {
    /// The path of the open file, if it has one.
    pub path: Option<Seq<char>>,
    /// The byte offset of the cursor.
    pub cursor: nat,
    /// The first line in view.
    pub top: nat,
    /// The first column in view.
    pub left: nat,
}

impl View for PaneState {
    type V = SavedPane;

    open spec fn view(&self) -> SavedPane {
        SavedPane {
            path: opt_text(self.path),
            cursor: self.cursor as nat,
            top: self.viewport_top as nat,
            left: self.viewport_left as nat,
        }
    }
}

/// The contents of a list of panes.
pub open spec fn saved_panes(v: Seq<PaneState>) -> Seq<SavedPane> {
    v.map_values(|p: PaneState| p@)
}

/// A window tree over the panes of a session.
#[derive(Debug, PartialEq, Eq)]
pub enum LayoutNode {
    /// The pane of the given index.
    Leaf(usize),
    /// Two trees side by side or above one another.
    Split {
        /// The axis.
        dir: Split,
        /// The share of the first tree in percent.
        ratio: u16,
        /// The left or upper tree.
        first: Box<LayoutNode>,
        /// The right or lower tree.
        second: Box<LayoutNode>,
    },
}

/// The file that sessions are kept in: below the state directory, which is in the home directory if
/// it is not set.
pub open spec fn session_file(state: Option<Seq<char>>, home: Option<Seq<char>>) -> Option<Seq<char>> {
    match state {
        Some(state) => Some(join(join(state, "majestic"@), "session.json"@)),
        None => match home {
            Some(home) => Some(
                join(
                    join(join(join(home, ".local"@), "state"@), "majestic"@),
                    "session.json"@,
                ),
            ),
            None => None,
        },
    }
}

impl Session {
    /// The file that sessions are kept in, by the state directory and the home directory of the
    /// user.
    pub fn default_path(state: Option<&str>, home: Option<&str>) -> (r: Option<String>)
        ensures
            opt_text(r) == session_file(
                match state {
                    Some(s) => Some(s@),
                    None => None,
                },
                match home {
                    Some(h) => Some(h@),
                    None => None,
                },
            ),
    {
        let base = match state {
            Some(state) => state.to_owned(),
            None => match home {
                Some(home) => join_path(join_path(home, ".local").as_str(), "state"),
                None => {
                    return None;
                },
            },
        };
        let dir = join_path(base.as_str(), "majestic");
        Some(join_path(dir.as_str(), "session.json"))
    }
}

} // verus!
