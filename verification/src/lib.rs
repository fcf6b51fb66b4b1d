//! A terminal launcher for small command snippets: store, fuzzy-search,
//! execute, and edit shell commands with their descriptions.
//!
//! This crate is the verified core of the application: the snippet data
//! model, the persisted-document codec, the search ranker, the text-input
//! model, and the mode state machine. Terminal I/O, rendering, and process
//! spawning live outside the library and drive it through plain values.
use vstd::prelude::*;

pub mod app;
pub mod codec;
pub mod search;
pub mod numfmt;
pub mod terminal;
pub mod text;
pub mod textinput;

verus! {

/// A stored command line together with a human-readable description and a
/// transient relevance score used for ranking against the live search query.
#[derive(Debug, Clone, PartialEq, Eq)]
pub struct Snippet {
    pub priority: i64,
    pub cmd: String,
    pub description: String,
}

/// The mathematical content of a [`Snippet`]: its score and the two
/// character sequences.
#[verifier::ext_equal]
pub struct SnippetV {
    pub priority: int,
    pub cmd: Seq<char>,
    pub description: Seq<char>,
}

impl View for Snippet {
    type V = SnippetV;

    open spec fn view(&self) -> SnippetV {
        SnippetV { priority: self.priority as int, cmd: self.cmd@, description: self.description@ }
    }
}

/// The views of the snippets in a list, in order.
pub open spec fn views_of(l: Seq<Snippet>) -> Seq<SnippetV> {
    l.map_values(|sn: Snippet| sn@)
}

impl Snippet {
    /// A snippet with score 0 and empty command and description, the seed
    /// for authoring a brand-new snippet in the editor.
    pub fn empty() -> (s: Snippet)
        ensures
            s@.priority == 0,
            s@.cmd.len() == 0,
            s@.description.len() == 0,
    {
        Snippet { priority: 0, cmd: String::new(), description: String::new() }
    }
}

impl Default for Snippet {
    fn default() -> (s: Snippet)
        ensures
            s@.priority == 0,
            s@.cmd.len() == 0,
            s@.description.len() == 0,
    {
        Snippet::empty()
    }
}

impl Snippet {
    /// The same snippet again; unlike a derived clone, the copy is known
    /// to hold the same fields.
    pub fn duplicate(&self) -> (s: Snippet)
        ensures
            s@ == self@,
    {
        let s = Snippet {
            priority: self.priority,
            cmd: self.cmd.clone(),
            description: self.description.clone(),
        };
        proof {
            assert(s@ =~= self@);
        }
        s
    }
}

/// A key press, as the state machine reads it.
#[derive(Debug, Clone, Copy, PartialEq, Eq)]
pub enum Key {
    Esc,
    Enter,
    Up,
    Down,
    Left,
    Right,
    Backspace,
    Char(char),
    Other,
}

/// A key press together with whether the control modifier was held.
#[derive(Debug, Clone, Copy, PartialEq, Eq)]
pub struct KeyInput {
    pub code: Key,
    pub ctrl: bool,
}

/// A mouse event, reduced to what the state machine reads of it.
#[derive(Debug, Clone, Copy, PartialEq, Eq)]
pub enum MouseKind {
    ScrollUp,
    ScrollDown,
    Other,
}

/// One event from the input source.
#[derive(Debug, Clone, Copy, PartialEq, Eq)]
pub enum InputEvent {
    Key(KeyInput),
    Mouse(MouseKind),
    Tick,
}

} // verus!
