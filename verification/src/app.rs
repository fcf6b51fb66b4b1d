//! The mode state machine: Browse and Editing, the event dispatch, and
//! every mutation of the snippet list, the selection, and the editor.
//!
//! The application state is one owned struct. Events come in as plain
//! values; [`App::update`] applies a message and hands back the one
//! outward action the caller must perform (run a command, or copy text).
//! Persistence is a pure exchange of document text through
//! [`App::init`] and [`App::export_document`].
use vstd::prelude::*;

use crate::codec;
use crate::search;
use crate::text;
use crate::textinput::{input_v, split_lines, TextInput};
use crate::{views_of, InputEvent, Key, KeyInput, MouseKind, Snippet, SnippetV};

verus! {

/// A message interpreted from one input event.
#[derive(Debug, PartialEq, Eq, Clone)]
pub enum Msg {
    AppClose,
    SelectNext,
    SelectPrev,
    ExecuteCmd,
    CopyToClipboard,
    RemoveSnippet,
    Edit(EditMsg),
}

/// The editor sub-mode's messages.
#[derive(Debug, PartialEq, Eq, Clone)]
pub enum EditMsg {
    Open { snippet: Snippet },
    Cancel,
    Save,
}

/// The one outward effect an update may call for. The caller restores
/// the terminal, runs the command and reports its exit, or writes the
/// text to the clipboard; the library never touches the outside world.
#[derive(Debug, PartialEq, Eq, Clone)]
pub enum Action {
    Nothing,
    Run(String),
    Copy(String),
}

/// The document could not be read as a snippet list.
#[derive(Debug, PartialEq, Eq, Clone)]
pub struct ParseError {}

impl ParseError {
    /// A line for the user about the failure.
    pub fn message(&self) -> (s: String)
        ensures
            s@ == "malformed snippets document"@,
    {
        "malformed snippets document".to_owned()
    }
}

/// The selection one step down, wrapping to the top; on an empty list
/// nothing moves.
pub open spec fn next_index(i: nat, n: nat) -> nat {
    if n == 0 {
        i
    } else if i + 1 >= n {
        0
    } else {
        i + 1
    }
}

/// The selection one step up, wrapping to the bottom; on an empty list
/// nothing moves.
pub open spec fn prev_index(i: nat, n: nat) -> nat {
    if n == 0 {
        i
    } else if i == 0 {
        (n - 1) as nat
    } else {
        (i - 1) as nat
    }
}

/// `k` steps of [`next_index`] from `i`.
pub open spec fn iter_next(i: nat, n: nat, k: nat) -> nat
    decreases k,
{
    if k == 0 {
        i
    } else {
        iter_next(next_index(i, n), n, (k - 1) as nat)
    }
}

/// `k` steps of [`prev_index`] from `i`.
pub open spec fn iter_prev(i: nat, n: nat, k: nat) -> nat
    decreases k,
{
    if k == 0 {
        i
    } else {
        iter_prev(prev_index(i, n), n, (k - 1) as nat)
    }
}

/// Stepping down and stepping up are exact inverses on a non-empty list.
pub proof fn lemma_selection_inverse(i: nat, n: nat)
    requires
        n > 0,
        i < n,
    ensures
        prev_index(next_index(i, n), n) == i,
        next_index(prev_index(i, n), n) == i,
{
}

proof fn lemma_iter_next_formula(i: nat, n: nat, k: nat)
    requires
        n > 0,
        i < n,
        k <= n,
    ensures
        iter_next(i, n, k) as int == if i + k < n {
            (i + k) as int
        } else {
            i + k - n
        },
    decreases k,
{
    if k > 0 {
        lemma_iter_next_formula(next_index(i, n), n, (k - 1) as nat);
    }
}

proof fn lemma_iter_prev_formula(i: nat, n: nat, k: nat)
    requires
        n > 0,
        i < n,
        k <= n,
    ensures
        iter_prev(i, n, k) as int == if i >= k {
            i - k
        } else {
            i + n - k
        },
    decreases k,
{
    if k > 0 {
        lemma_iter_prev_formula(prev_index(i, n), n, (k - 1) as nat);
    }
}

/// Selection wrap: on a list of length `n`, stepping down `n` times, or
/// up `n` times, returns to the starting index.
pub proof fn lemma_selection_wraps(i: nat, n: nat)
    requires
        n > 0,
        i < n,
    ensures
        iter_next(i, n, n) == i,
        iter_prev(i, n, n) == i,
{
    lemma_iter_next_formula(i, n, n);
    lemma_iter_prev_formula(i, n, n);
}

/// Empty-list safety: with no snippets, stepping the selection either
/// way changes nothing.
pub proof fn lemma_empty_list_safety(i: nat)
    ensures
        next_index(i, 0) == i,
        prev_index(i, 0) == i,
{
}

/// The selection clamped into a list of length `n`.
pub open spec fn clamp_index(i: nat, n: nat) -> nat {
    if n == 0 {
        0
    } else if i < n {
        i
    } else {
        (n - 1) as nat
    }
}

/// The view of a freshly authored snippet.
pub open spec fn empty_snippet_v() -> SnippetV {
    SnippetV { priority: 0, cmd: Seq::empty(), description: Seq::empty() }
}

/// The whole application state.
#[derive(Debug)]
pub struct App {
    /// The loop ends once this is set.
    pub quit: bool,
    /// Whether the terminal was already handed back; guards against a
    /// second restore on exit.
    pub terminal_restored: bool,
    /// Editing mode when true, Browse otherwise.
    pub is_editing: bool,
    /// A line shown to the user after a failed editor save.
    pub error_msg: Option<String>,
    /// The live search query.
    pub search_bar: TextInput,
    /// The editor buffer, present exactly while editing.
    pub editor: Option<TextInput>,
    /// The snippet list, in display order.
    pub snippets: Vec<Snippet>,
    /// The selected row of the list.
    pub selected: usize,
}

impl App {
    /// The state invariant: the selection stays inside a non-empty list
    /// (and at 0 on an empty one), the text buffers are well formed, and
    /// Editing mode always has an editor buffer.
    pub open spec fn wf(self) -> bool {
        &&& (self.snippets@.len() == 0 ==> self.selected == 0)
        &&& (self.snippets@.len() > 0 ==> (self.selected as int) < self.snippets@.len())
        &&& self.search_bar.wf()
        &&& match self.editor {
            Some(e) => e.wf(),
            None => true,
        }
        &&& (self.is_editing ==> self.editor is Some)
    }

    /// A fresh application: Browse mode, no snippets, empty search bar.
    pub fn new() -> (app: App)
        ensures
            app.wf(),
            !app.quit,
            !app.terminal_restored,
            !app.is_editing,
            app.error_msg is None,
            app.editor is None,
            app.snippets@.len() == 0,
            app.selected == 0,
            app.search_bar@.lines == seq![Seq::<char>::empty()],
    {
        App {
            quit: false,
            terminal_restored: false,
            is_editing: false,
            error_msg: None,
            search_bar: TextInput::new(),
            editor: None,
            snippets: Vec::new(),
            selected: 0,
        }
    }

    /// Loads the snippet list from the persisted document text. Malformed
    /// text is refused whole and the state is left untouched.
    pub fn init(&mut self, content: &str) -> (r: Result<(), ParseError>)
        requires
            old(self).wf(),
        ensures
            final(self).wf(),
            match r {
                Ok(_) => {
                    &&& codec::parse_doc(content@) == Some(views_of(final(self).snippets@))
                    &&& final(self).selected == 0
                    &&& final(self).quit == old(self).quit
                    &&& final(self).terminal_restored == old(self).terminal_restored
                    &&& final(self).is_editing == old(self).is_editing
                    &&& final(self).error_msg == old(self).error_msg
                    &&& final(self).search_bar == old(self).search_bar
                    &&& final(self).editor == old(self).editor
                },
                Err(_) => codec::parse_doc(content@) is None && *final(self) == *old(self),
            },
    {
        let chars = text::chars_of_str(content);
        match codec::parse_doc_chars(&chars) {
            Some(list) => {
                self.snippets = list;
                self.selected = 0;
                Ok(())
            },
            None => Err(ParseError {  }),
        }
    }

    /// Marks the application as done; the caller persists and exits.
    pub fn quit(&mut self)
        ensures
            *final(self) == (App { quit: true, ..*old(self) }),
    {
        self.quit = true;
    }

    /// The document text that holds the current snippet list.
    pub fn export_document(&self) -> (s: String)
        ensures
            s@ == codec::encode_doc(views_of(self.snippets@)),
    {
        let chars = codec::encode_doc_chars(&self.snippets);
        text::string_of_chars(&chars)
    }

    /// Saving then loading gives back the same list: the exported
    /// document always parses to the snippets it was made from.
    pub proof fn lemma_round_trip(l: Seq<Snippet>)
        ensures
            codec::parse_doc(codec::encode_doc(views_of(l))) == Some(views_of(l)),
    {
        assert forall|i: int| 0 <= i < views_of(l).len() implies -0x8000_0000_0000_0000 <= (
        #[trigger] views_of(l)[i]).priority <= 0x7fff_ffff_ffff_ffff by {
            assert(views_of(l)[i] == l[i]@);
        }
        codec::lemma_doc_round_trip(views_of(l));
    }

    /// The selected snippet, if the selection points at one.
    pub fn selected_snippet(&self) -> (r: Option<&Snippet>)
        ensures
            r == if self.snippets@.len() > 0 && (self.selected as int) < self.snippets@.len() {
                Some(&self.snippets[self.selected as int])
            } else {
                None::<&Snippet>
            },
    {
        if self.snippets.len() > 0 && self.selected < self.snippets.len() {
            Some(&self.snippets[self.selected])
        } else {
            None
        }
    }

    /// Moves the selection one row down, wrapping to the top.
    pub fn select_next(&mut self)
        requires
            old(self).wf(),
        ensures
            final(self).wf(),
            final(self).selected == next_index(
                old(self).selected as nat,
                old(self).snippets@.len(),
            ),
            *final(self) == (App { selected: final(self).selected, ..*old(self) }),
    {
        let n = self.snippets.len();
        if n == 0 {
        } else if self.selected >= n - 1 {
            self.selected = 0;
        } else {
            self.selected = self.selected + 1;
        }
    }

    /// Moves the selection one row up, wrapping to the bottom.
    pub fn select_previous(&mut self)
        requires
            old(self).wf(),
        ensures
            final(self).wf(),
            final(self).selected == prev_index(
                old(self).selected as nat,
                old(self).snippets@.len(),
            ),
            *final(self) == (App { selected: final(self).selected, ..*old(self) }),
    {
        let n = self.snippets.len();
        if n == 0 {
        } else if self.selected == 0 {
            self.selected = n - 1;
        } else {
            self.selected = self.selected - 1;
        }
    }

    /// Removes the selected snippet and clamps the selection; with no
    /// snippets nothing happens.
    pub fn remove_snippet(&mut self)
        requires
            old(self).wf(),
        ensures
            final(self).wf(),
            old(self).snippets@.len() == 0 ==> *final(self) == *old(self),
            old(self).snippets@.len() > 0 ==> {
                &&& final(self).snippets@ == old(self).snippets@.remove(old(self).selected as int)
                &&& final(self).selected == clamp_index(
                    old(self).selected as nat,
                    (old(self).snippets@.len() - 1) as nat,
                )
                &&& *final(self) == (App {
                    snippets: final(self).snippets,
                    selected: final(self).selected,
                    ..*old(self)
                })
            },
    {
        let n = self.snippets.len();
        if self.selected < n {
            self.snippets.remove(self.selected);
            let m = self.snippets.len();
            if self.selected >= m {
                self.selected = if m == 0 {
                    0
                } else {
                    m - 1
                };
            }
        }
    }

    /// Re-ranks the snippet list against the search bar's line and puts
    /// the selection back at the top.
    pub fn search_snippet(&mut self)
        requires
            old(self).wf(),
        ensures
            final(self).wf(),
            views_of(final(self).snippets@) == search::rank(
                views_of(old(self).snippets@),
                old(self).search_bar@.lines[0],
            ),
            final(self).selected == 0,
            *final(self) == (App {
                snippets: final(self).snippets,
                selected: final(self).selected,
                ..*old(self)
            }),
    {
        let q = text::string_of_chars(&self.search_bar.lines[0]);
        search::rank_snippets(&mut self.snippets, q.as_str());
        self.selected = 0;
        proof {
            search::lemma_sort_desc_sorted(
                search::rescored(
                    views_of(old(self).snippets@),
                    search::tokens_of(old(self).search_bar@.lines[0]),
                ),
            );
        }
    }

    /// Parses the editor buffer as one snippet record. A good record is
    /// appended to the list and Editing mode ends; a bad one leaves the
    /// buffer and the mode alone and sets the error line.
    pub fn save_snippet(&mut self)
        requires
            old(self).wf(),
            old(self).editor is Some,
        ensures
            final(self).wf(),
            match codec::parse_record(crate::textinput::joined(old(self).editor->0@.lines)) {
                Some(snv) => {
                    &&& views_of(final(self).snippets@) == views_of(old(self).snippets@).push(snv)
                    &&& final(self).selected == 0
                    &&& !final(self).is_editing
                    &&& final(self).editor is None
                    &&& final(self).error_msg is None
                    &&& final(self).quit == old(self).quit
                    &&& final(self).terminal_restored == old(self).terminal_restored
                    &&& final(self).search_bar == old(self).search_bar
                },
                None => {
                    &&& final(self).error_msg is Some
                    &&& *final(self) == (App { error_msg: final(self).error_msg, ..*old(self) })
                },
            },
    {
        let buffer = match &self.editor {
            Some(e) => e.to_chars(),
            None => Vec::new(),
        };
        match codec::parse_record_chars(&buffer) {
            Some((p, c, d)) => {
                let sn = Snippet {
                    priority: p,
                    cmd: text::string_of_chars(&c),
                    description: text::string_of_chars(&d),
                };
                let ghost old_list = self.snippets@;
                self.snippets.push(sn);
                self.selected = 0;
                self.is_editing = false;
                self.editor = None;
                self.error_msg = None;
                proof {
                    assert(views_of(self.snippets@) =~= views_of(old_list).push(sn@));
                }
            },
            None => {
                self.error_msg = Some(
                    "could not parse the snippet record".to_owned(),
                );
            },
        }
    }
}

impl Default for App {
    fn default() -> (app: App)
        ensures
            app.wf(),
            !app.quit && !app.terminal_restored && !app.is_editing,
            app.error_msg is None && app.editor is None,
            app.snippets@.len() == 0 && app.selected == 0,
    {
        App::new()
    }
}

/// Whether `evt` is the given letter (either case) with control held.
pub open spec fn is_ctrl_letter(evt: KeyInput, lower: char, upper: char) -> bool {
    evt.ctrl && (evt.code == Key::Char(lower) || evt.code == Key::Char(upper))
}

/// What a key press does in Browse mode: the message it maps to and the
/// state it leaves behind (only the search arm mutates: the key goes
/// into the search bar and the list is re-ranked).
///
/// Editing a selected snippet is non-destructive: the entry stays in
/// the list while the editor is open, and saving appends the parsed
/// record as a new entry rather than overwriting the old one.
pub open spec fn browse_key_post(pre: App, post: App, evt: KeyInput, msg: Option<Msg>) -> bool {
    if evt.code == Key::Up {
        msg == Some(Msg::SelectPrev) && post == pre
    } else if evt.code == Key::Down {
        msg == Some(Msg::SelectNext) && post == pre
    } else if evt.code == Key::Enter && evt.ctrl {
        msg == Some(Msg::CopyToClipboard) && post == pre
    } else if evt.code == Key::Enter {
        msg == Some(Msg::ExecuteCmd) && post == pre
    } else if is_ctrl_letter(evt, 'a', 'A') {
        &&& msg matches Some(Msg::Edit(EditMsg::Open { snippet })) && snippet@ == empty_snippet_v()
        &&& post == pre
    } else if is_ctrl_letter(evt, 'e', 'E') {
        &&& msg matches Some(Msg::Edit(EditMsg::Open { snippet })) && snippet@ == (
        if pre.snippets@.len() > 0 && (pre.selected as int) < pre.snippets@.len() {
            pre.snippets@[pre.selected as int]@
        } else {
            empty_snippet_v()
        })
        &&& post == pre
    } else if is_ctrl_letter(evt, 'r', 'R') {
        msg == Some(Msg::RemoveSnippet) && post == pre
    } else {
        &&& msg is None
        &&& post.search_bar@ == input_v(pre.search_bar@, evt)
        &&& views_of(post.snippets@) == search::rank(
            views_of(pre.snippets@),
            input_v(pre.search_bar@, evt).lines[0],
        )
        &&& post.selected == 0
        &&& post.quit == pre.quit
        &&& post.terminal_restored == pre.terminal_restored
        &&& post.is_editing == pre.is_editing
        &&& post.editor == pre.editor
        &&& post.error_msg == pre.error_msg
    }
}

/// What a key press does in Editing mode: save, cancel, or a keystroke
/// into the editor buffer.
pub open spec fn edit_key_post(pre: App, post: App, evt: KeyInput, msg: Option<Msg>) -> bool {
    if is_ctrl_letter(evt, 's', 'S') {
        msg == Some(Msg::Edit(EditMsg::Save)) && post == pre
    } else if is_ctrl_letter(evt, 'c', 'C') {
        msg == Some(Msg::Edit(EditMsg::Cancel)) && post == pre
    } else {
        &&& msg is None
        &&& pre.editor matches Some(ed) ==> (post.editor matches Some(ped) && ped@ == input_v(
            ed@,
            evt,
        ))
        &&& pre.editor is None ==> post.editor is None
        &&& post.quit == pre.quit
        &&& post.terminal_restored == pre.terminal_restored
        &&& post.is_editing == pre.is_editing
        &&& post.error_msg == pre.error_msg
        &&& post.search_bar == pre.search_bar
        &&& post.snippets == pre.snippets
        &&& post.selected == pre.selected
    }
}

/// What a mouse event maps to: scrolling moves the selection.
pub open spec fn mouse_msg(m: MouseKind) -> Option<Msg> {
    match m {
        MouseKind::ScrollDown => Some(Msg::SelectNext),
        MouseKind::ScrollUp => Some(Msg::SelectPrev),
        MouseKind::Other => None,
    }
}

impl App {
    fn is_ctrl_letter_exec(evt: KeyInput, lower: char, upper: char) -> (r: bool)
        ensures
            r == is_ctrl_letter(evt, lower, upper),
    {
        evt.ctrl && match evt.code {
            Key::Char(c) => c == lower || c == upper,
            _ => false,
        }
    }

    /// Interprets one key press in Browse mode, as [`browse_key_post`]
    /// says: the selection, execute, copy, add, edit and remove keys map
    /// to messages; anything else goes into the search bar and re-ranks
    /// the list.
    pub fn handle_key_event(&mut self, evt: KeyInput) -> (msg: Option<Msg>)
        requires
            old(self).wf(),
        ensures
            final(self).wf(),
            browse_key_post(*old(self), *final(self), evt, msg),
    {
        if matches!(evt.code, Key::Up) {
            Some(Msg::SelectPrev)
        } else if matches!(evt.code, Key::Down) {
            Some(Msg::SelectNext)
        } else if matches!(evt.code, Key::Enter) && evt.ctrl {
            Some(Msg::CopyToClipboard)
        } else if matches!(evt.code, Key::Enter) {
            Some(Msg::ExecuteCmd)
        } else if Self::is_ctrl_letter_exec(evt, 'a', 'A') {
            let fresh = Snippet::empty();
            proof {
                assert(fresh@ =~= empty_snippet_v());
            }
            Some(Msg::Edit(EditMsg::Open { snippet: fresh }))
        } else if Self::is_ctrl_letter_exec(evt, 'e', 'E') {
            let seed = match self.selected_snippet() {
                Some(sn) => sn.duplicate(),
                None => Snippet::empty(),
            };
            proof {
                if !(self.snippets@.len() > 0 && (self.selected as int) < self.snippets@.len()) {
                    assert(seed@ =~= empty_snippet_v());
                }
            }
            Some(Msg::Edit(EditMsg::Open { snippet: seed }))
        } else if Self::is_ctrl_letter_exec(evt, 'r', 'R') {
            Some(Msg::RemoveSnippet)
        } else {
            self.search_bar.input(evt);
            self.search_snippet();
            None
        }
    }

    /// Interprets one key press in Editing mode, as [`edit_key_post`]
    /// says: save, cancel, or a keystroke into the editor buffer.
    pub fn handle_edit_event(&mut self, evt: KeyInput) -> (msg: Option<Msg>)
        requires
            old(self).wf(),
        ensures
            final(self).wf(),
            edit_key_post(*old(self), *final(self), evt, msg),
    {
        if Self::is_ctrl_letter_exec(evt, 's', 'S') {
            Some(Msg::Edit(EditMsg::Save))
        } else if Self::is_ctrl_letter_exec(evt, 'c', 'C') {
            Some(Msg::Edit(EditMsg::Cancel))
        } else {
            match &mut self.editor {
                Some(ed) => {
                    ed.input(evt);
                },
                None => {},
            }
            None
        }
    }

    /// Maps a mouse event: scrolling moves the selection.
    pub fn handle_mouse_event(&self, m: MouseKind) -> (msg: Option<Msg>)
        ensures
            msg == mouse_msg(m),
    {
        match m {
            MouseKind::ScrollDown => Some(Msg::SelectNext),
            MouseKind::ScrollUp => Some(Msg::SelectPrev),
            MouseKind::Other => None,
        }
    }

    /// Dispatches one input event. In Browse mode, escape and control-C
    /// close the application and every other key goes to
    /// [`Self::handle_key_event`]; in Editing mode keys go to
    /// [`Self::handle_edit_event`]. Ticks do nothing.
    pub fn handle_event(&mut self, evt: InputEvent) -> (msg: Option<Msg>)
        requires
            old(self).wf(),
        ensures
            final(self).wf(),
            match evt {
                InputEvent::Key(k) => {
                    if old(self).is_editing {
                        edit_key_post(*old(self), *final(self), k, msg)
                    } else if k.code == Key::Esc || is_ctrl_letter(k, 'c', 'C') {
                        msg == Some(Msg::AppClose) && *final(self) == *old(self)
                    } else {
                        browse_key_post(*old(self), *final(self), k, msg)
                    }
                },
                InputEvent::Mouse(m) => msg == mouse_msg(m) && *final(self) == *old(self),
                InputEvent::Tick => msg is None && *final(self) == *old(self),
            },
    {
        match evt {
            InputEvent::Key(k) => {
                if self.is_editing {
                    self.handle_edit_event(k)
                } else if matches!(k.code, Key::Esc) || Self::is_ctrl_letter_exec(k, 'c', 'C') {
                    Some(Msg::AppClose)
                } else {
                    self.handle_key_event(k)
                }
            },
            InputEvent::Mouse(m) => self.handle_mouse_event(m),
            InputEvent::Tick => None,
        }
    }

    /// Applies one message to the state and names the outward action the
    /// caller must perform. Executing quits after handing out the
    /// command, as does closing; a saved editor record joins the list, a
    /// failed parse keeps the editor open with an error line.
    pub fn update(&mut self, msg: Msg) -> (act: Action)
        requires
            old(self).wf(),
            msg == Msg::Edit(EditMsg::Save) ==> old(self).editor is Some,
        ensures
            final(self).wf(),
            match msg {
                Msg::SelectNext => {
                    &&& act == Action::Nothing
                    &&& final(self).selected == next_index(
                        old(self).selected as nat,
                        old(self).snippets@.len(),
                    )
                    &&& *final(self) == (App { selected: final(self).selected, ..*old(self) })
                },
                Msg::SelectPrev => {
                    &&& act == Action::Nothing
                    &&& final(self).selected == prev_index(
                        old(self).selected as nat,
                        old(self).snippets@.len(),
                    )
                    &&& *final(self) == (App { selected: final(self).selected, ..*old(self) })
                },
                Msg::RemoveSnippet => {
                    &&& act == Action::Nothing
                    &&& (old(self).snippets@.len() == 0 ==> *final(self) == *old(self))
                    &&& (old(self).snippets@.len() > 0 ==> final(self).snippets@ == old(
                        self,
                    ).snippets@.remove(old(self).selected as int) && *final(self) == (App {
                        snippets: final(self).snippets,
                        selected: final(self).selected,
                        ..*old(self)
                    }))
                },
                Msg::ExecuteCmd => {
                    if old(self).snippets@.len() > 0 {
                        &&& act matches Action::Run(cmd) && cmd@ == old(self).snippets@[old(
                            self,
                        ).selected as int]@.cmd
                        &&& *final(self) == (App {
                            quit: true,
                            terminal_restored: true,
                            ..*old(self)
                        })
                    } else {
                        act == Action::Nothing && *final(self) == (App {
                            quit: true,
                            ..*old(self)
                        })
                    }
                },
                Msg::CopyToClipboard => {
                    &&& *final(self) == *old(self)
                    &&& (old(self).snippets@.len() > 0 ==> (act matches Action::Copy(t) && t@
                        == old(self).snippets@[old(self).selected as int]@.cmd))
                    &&& (old(self).snippets@.len() == 0 ==> act == Action::Nothing)
                },
                Msg::AppClose => {
                    act == Action::Nothing && *final(self) == (App { quit: true, ..*old(self) })
                },
                Msg::Edit(em) => match em {
                    EditMsg::Open { snippet } => {
                        &&& act == Action::Nothing
                        &&& final(self).is_editing
                        &&& final(self).editor matches Some(ed) && ed@.lines == split_lines(
                            codec::seed_text(snippet@),
                        ) && ed@.row == 0 && ed@.col == 0
                        &&& *final(self) == (App {
                            is_editing: true,
                            editor: final(self).editor,
                            ..*old(self)
                        })
                    },
                    EditMsg::Cancel => {
                        &&& act == Action::Nothing
                        &&& *final(self) == (App {
                            is_editing: false,
                            editor: None,
                            error_msg: None,
                            ..*old(self)
                        })
                    },
                    EditMsg::Save => {
                        &&& act == Action::Nothing
                        &&& match codec::parse_record(
                            crate::textinput::joined(old(self).editor->0@.lines),
                        ) {
                            Some(snv) => {
                                &&& views_of(final(self).snippets@) == views_of(
                                    old(self).snippets@,
                                ).push(snv)
                                &&& final(self).selected == 0
                                &&& !final(self).is_editing
                                &&& final(self).editor is None
                                &&& final(self).error_msg is None
                                &&& final(self).quit == old(self).quit
                                &&& final(self).terminal_restored == old(self).terminal_restored
                                &&& final(self).search_bar == old(self).search_bar
                            },
                            None => {
                                &&& final(self).error_msg is Some
                                &&& *final(self) == (App {
                                    error_msg: final(self).error_msg,
                                    ..*old(self)
                                })
                            },
                        }
                    },
                },
            },
    {
        match msg {
            Msg::SelectNext => {
                self.select_next();
                Action::Nothing
            },
            Msg::SelectPrev => {
                self.select_previous();
                Action::Nothing
            },
            Msg::RemoveSnippet => {
                self.remove_snippet();
                Action::Nothing
            },
            Msg::ExecuteCmd => {
                if self.snippets.len() > 0 {
                    let cmd = self.snippets[self.selected].cmd.clone();
                    self.terminal_restored = true;
                    self.quit = true;
                    Action::Run(cmd)
                } else {
                    self.quit = true;
                    Action::Nothing
                }
            },
            Msg::CopyToClipboard => {
                if self.snippets.len() > 0 {
                    Action::Copy(self.snippets[self.selected].cmd.clone())
                } else {
                    Action::Nothing
                }
            },
            Msg::AppClose => {
                self.quit = true;
                Action::Nothing
            },
            Msg::Edit(EditMsg::Open { snippet }) => {
                let seed = codec::seed_text_chars(&snippet);
                self.editor = Some(TextInput::from_chars(&seed));
                self.is_editing = true;
                Action::Nothing
            },
            Msg::Edit(EditMsg::Cancel) => {
                self.is_editing = false;
                self.editor = None;
                self.error_msg = None;
                Action::Nothing
            },
            Msg::Edit(EditMsg::Save) => {
                self.save_snippet();
                Action::Nothing
            },
        }
    }
}

/// The line reported after a child process ends: its exit code, or a
/// note that a signal ended it.
pub open spec fn exit_report(code: Option<i64>) -> Seq<char> {
    match code {
        Some(c) => "Exited with status code: "@ + crate::numfmt::dec_str(c as int),
        None => "Process terminated by signal"@,
    }
}

/// Formats the line reported after a child process ends.
pub fn format_exit_status(code: Option<i64>) -> (s: String)
    ensures
        s@ == exit_report(code),
{
    match code {
        Some(c) => {
            let mut out: Vec<char> = Vec::new();
            codec::push_lit(&mut out, "Exited with status code: ");
            crate::numfmt::push_dec_i64(c, &mut out);
            text::string_of_chars(&out)
        },
        None => "Process terminated by signal".to_owned(),
    }
}

/// A list row's label: the index, two digits at least, then the command.
pub open spec fn row_label_text(index: int, cmd: Seq<char>) -> Seq<char> {
    (if 0 <= index < 10 {
        seq!['0'] + crate::numfmt::dec_str(index)
    } else {
        crate::numfmt::dec_str(index)
    }) + " "@ + cmd
}

/// Formats a list row's label.
pub fn row_label(index: usize, cmd: &str) -> (s: String)
    requires
        index <= 0x7fff_ffff_ffff_ffff,
    ensures
        s@ == row_label_text(index as int, cmd@),
{
    let mut out: Vec<char> = Vec::new();
    if index < 10 {
        out.push('0');
    }
    crate::numfmt::push_dec_i64(index as i64, &mut out);
    codec::push_lit(&mut out, " ");
    codec::push_lit(&mut out, cmd);
    proof {
        assert(out@ =~= row_label_text(index as int, cmd@));
    }
    text::string_of_chars(&out)
}

} // verus!