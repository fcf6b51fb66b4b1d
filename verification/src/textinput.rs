//! A plain multi-line text input: the one abstraction behind both the
//! search bar and the editor buffer. It owns its lines and a cursor, and
//! interprets a key press as an edit.
use vstd::prelude::*;

use crate::{Key, KeyInput};

verus! {

/// The first-`'\n'`-free prefix of `s`.
pub open spec fn take_line(s: Seq<char>) -> Seq<char>
    decreases s.len(),
{
    if s.len() > 0 && s[0] != '\n' {
        seq![s[0]] + take_line(s.drop_first())
    } else {
        Seq::empty()
    }
}

/// The lines of `s`, split at each `'\n'`; always at least one line.
pub open spec fn split_lines(s: Seq<char>) -> Seq<Seq<char>>
    decreases s.len(),
{
    let w = take_line(s);
    if w.len() < s.len() {
        seq![w] + split_lines(s.skip(w.len() as int + 1))
    } else {
        seq![w]
    }
}

/// The lines joined back with `'\n'` between them.
pub open spec fn joined(ls: Seq<Seq<char>>) -> Seq<char>
    decreases ls.len(),
{
    if ls.len() == 0 {
        Seq::empty()
    } else if ls.len() == 1 {
        ls[0]
    } else {
        ls[0] + seq!['\n'] + joined(ls.drop_first())
    }
}

proof fn lemma_take_line_shape(s: Seq<char>)
    ensures
        take_line(s).len() <= s.len(),
        take_line(s) == s.take(take_line(s).len() as int),
        take_line(s).len() < s.len() ==> s[take_line(s).len() as int] == '\n',
    decreases s.len(),
{
    if s.len() > 0 && s[0] != '\n' {
        lemma_take_line_shape(s.drop_first());
        let w = take_line(s);
        assert(w =~= seq![s[0]] + take_line(s.drop_first()));
        assert(take_line(s.drop_first()) == s.drop_first().take(
            take_line(s.drop_first()).len() as int,
        ));
        assert(w =~= s.take(w.len() as int));
        if w.len() < s.len() {
            assert(s.drop_first()[take_line(s.drop_first()).len() as int] == s[w.len() as int]);
        }
    }
}

/// Splitting text into lines and joining them again gives the text back.
pub proof fn lemma_join_split(s: Seq<char>)
    ensures
        joined(split_lines(s)) == s,
    decreases s.len(),
{
    lemma_take_line_shape(s);
    let w = take_line(s);
    if w.len() < s.len() {
        lemma_join_split(s.skip(w.len() as int + 1));
        let rest = split_lines(s.skip(w.len() as int + 1));
        assert(rest.len() >= 1);
        let full = seq![w] + rest;
        assert(full.len() >= 2);
        assert(full[0] == w);
        assert(full.drop_first() =~= rest);
        assert(joined(full) == w + seq!['\n'] + s.skip(w.len() as int + 1));
        assert(w + seq!['\n'] + s.skip(w.len() as int + 1) =~= s);
    } else {
        assert(w =~= s);
        assert(joined(seq![w]) == w);
    }
}

/// A text buffer with a cursor; the search bar and the editor are both
/// one of these.
#[derive(Debug)]
pub struct TextInput {
    pub lines: Vec<Vec<char>>,
    pub row: usize,
    pub col: usize,
}

/// The mathematical content of a [`TextInput`]: its lines and cursor.
#[verifier::ext_equal]
pub struct TextV {
    pub lines: Seq<Seq<char>>,
    pub row: int,
    pub col: int,
}

impl View for TextInput {
    type V = TextV;

    open spec fn view(&self) -> TextV {
        TextV {
            lines: self.lines@.map_values(|l: Vec<char>| l@),
            row: self.row as int,
            col: self.col as int,
        }
    }
}

/// What one key press does to a buffer: a character is inserted at the
/// cursor, enter splits the line, backspace deletes leftwards (joining
/// lines at a line start), the arrows move the cursor, and anything
/// else, or any key with control held, changes nothing.
pub open spec fn input_v(t: TextV, evt: KeyInput) -> TextV {
    if evt.ctrl {
        t
    } else {
        match evt.code {
            Key::Char(c) => TextV {
                lines: t.lines.update(t.row, t.lines[t.row].insert(t.col, c)),
                row: t.row,
                col: t.col + 1,
            },
            Key::Enter => TextV {
                lines: t.lines.update(t.row, t.lines[t.row].take(t.col)).insert(
                    t.row + 1,
                    t.lines[t.row].skip(t.col),
                ),
                row: t.row + 1,
                col: 0,
            },
            Key::Backspace => {
                if t.col > 0 {
                    TextV {
                        lines: t.lines.update(t.row, t.lines[t.row].remove(t.col - 1)),
                        row: t.row,
                        col: t.col - 1,
                    }
                } else if t.row > 0 {
                    TextV {
                        lines: t.lines.update(t.row - 1, t.lines[t.row - 1] + t.lines[t.row]).remove(
                            t.row,
                        ),
                        row: t.row - 1,
                        col: t.lines[t.row - 1].len() as int,
                    }
                } else {
                    t
                }
            },
            Key::Left => {
                if t.col > 0 {
                    TextV { lines: t.lines, row: t.row, col: t.col - 1 }
                } else if t.row > 0 {
                    TextV { lines: t.lines, row: t.row - 1, col: t.lines[t.row - 1].len() as int }
                } else {
                    t
                }
            },
            Key::Right => {
                if t.col < t.lines[t.row].len() {
                    TextV { lines: t.lines, row: t.row, col: t.col + 1 }
                } else if t.row + 1 < t.lines.len() {
                    TextV { lines: t.lines, row: t.row + 1, col: 0 }
                } else {
                    t
                }
            },
            Key::Up => {
                if t.row > 0 {
                    TextV {
                        lines: t.lines,
                        row: t.row - 1,
                        col: if t.col <= t.lines[t.row - 1].len() {
                            t.col
                        } else {
                            t.lines[t.row - 1].len() as int
                        },
                    }
                } else {
                    t
                }
            },
            Key::Down => {
                if t.row + 1 < t.lines.len() {
                    TextV {
                        lines: t.lines,
                        row: t.row + 1,
                        col: if t.col <= t.lines[t.row + 1].len() {
                            t.col
                        } else {
                            t.lines[t.row + 1].len() as int
                        },
                    }
                } else {
                    t
                }
            },
            _ => t,
        }
    }
}

impl TextInput {
    /// The lines as character sequences.
    pub open spec fn lines_v(self) -> Seq<Seq<char>> {
        self.lines@.map_values(|l: Vec<char>| l@)
    }

    /// At least one line, and the cursor inside the text.
    pub open spec fn wf(self) -> bool {
        &&& self.lines@.len() >= 1
        &&& (self.row as int) < self.lines@.len()
        &&& (self.col as int) <= self.lines@[self.row as int]@.len()
    }

    /// The whole buffer, lines joined with newlines.
    pub open spec fn text(self) -> Seq<char> {
        joined(self.lines_v())
    }

    /// The first line: the live value of a single-line input.
    pub open spec fn first_line(self) -> Seq<char> {
        self.lines_v()[0]
    }

    /// An empty buffer: one empty line, cursor at its start.
    pub fn new() -> (t: TextInput)
        ensures
            t.wf(),
            t.lines_v() == seq![Seq::<char>::empty()],
            t.row == 0,
            t.col == 0,
    {
        let mut lines: Vec<Vec<char>> = Vec::new();
        let empty_line: Vec<char> = Vec::new();
        lines.push(empty_line);
        let t = TextInput { lines, row: 0, col: 0 };
        proof {
            assert(t.lines_v() =~= seq![Seq::<char>::empty()]);
        }
        t
    }

    /// A buffer seeded with the given text, cursor at the start.
    pub fn from_chars(s: &Vec<char>) -> (t: TextInput)
        ensures
            t.wf(),
            t.lines_v() == split_lines(s@),
            t.row == 0,
            t.col == 0,
    {
        let mut lines: Vec<Vec<char>> = Vec::new();
        let mut i: usize = 0;
        proof {
            assert(s@.skip(0) =~= s@);
        }
        loop
            invariant
                i <= s.len(),
                split_lines(s@) == lines@.map_values(|l: Vec<char>| l@) + split_lines(
                    s@.skip(i as int),
                ),
            decreases s.len() - i,
        {
            let mut w: Vec<char> = Vec::new();
            let mut j: usize = i;
            while j < s.len() && s[j] != '\n'
                invariant
                    i <= j <= s.len(),
                    w@ == s@.subrange(i as int, j as int),
                    take_line(s@.skip(i as int)) == s@.subrange(i as int, j as int) + take_line(
                        s@.skip(j as int),
                    ),
                decreases s.len() - j,
            {
                proof {
                    assert(s@.skip(j as int)[0] == s@[j as int]);
                    assert(s@.skip(j as int).drop_first() =~= s@.skip(j as int + 1));
                    assert(s@.subrange(i as int, j as int) + (seq![s@[j as int]] + take_line(
                        s@.skip(j as int + 1),
                    )) =~= s@.subrange(i as int, j as int + 1) + take_line(s@.skip(j as int + 1)));
                }
                w.push(s[j]);
                proof {
                    assert(w@ =~= s@.subrange(i as int, j as int + 1));
                }
                j += 1;
            }
            proof {
                if j < s.len() {
                    assert(s@.skip(j as int)[0] == s@[j as int]);
                }
                assert(take_line(s@.skip(j as int)) =~= Seq::<char>::empty());
                assert(take_line(s@.skip(i as int)) =~= w@);
            }
            let ghost old_lines = lines@;
            let ghost wv = w@;
            let done = j == s.len();
            lines.push(w);
            proof {
                let lv = old_lines.map_values(|l: Vec<char>| l@);
                assert(lines@.map_values(|l: Vec<char>| l@) =~= lv.push(wv));
                let rem = s@.skip(i as int);
                if done {
                    assert(wv.len() == rem.len());
                    assert(split_lines(rem) =~= seq![wv]);
                    assert(lv + seq![wv] =~= lv.push(wv));
                } else {
                    assert(wv.len() < rem.len());
                    assert(rem.skip(wv.len() as int + 1) =~= s@.skip(j as int + 1));
                    assert(split_lines(rem) == seq![wv] + split_lines(s@.skip(j as int + 1)));
                    assert(lv + (seq![wv] + split_lines(s@.skip(j as int + 1))) =~= lv.push(wv)
                        + split_lines(s@.skip(j as int + 1)));
                }
            }
            if done {
                let t = TextInput { lines, row: 0, col: 0 };
                proof {
                    assert(t.lines_v() == split_lines(s@));
                }
                return t;
            }
            i = j + 1;
        }
    }

    /// The buffer's text, lines joined with newlines.
    pub fn to_chars(&self) -> (out: Vec<char>)
        requires
            self.wf(),
        ensures
            out@ == self.text(),
    {
        let mut out: Vec<char> = Vec::new();
        let mut k: usize = 0;
        while k < self.lines.len()
            invariant
                k <= self.lines@.len(),
                self.lines@.len() >= 1,
                out@ == joined(self.lines_v().take(k as int)),
            decreases self.lines@.len() - k,
        {
            if k > 0 {
                out.push('\n');
            }
            let ghost before = out@;
            let mut m: usize = 0;
            while m < self.lines[k].len()
                invariant
                    m <= self.lines@[k as int]@.len(),
                    k < self.lines@.len(),
                    out@ == before + self.lines@[k as int]@.take(m as int),
                decreases self.lines@[k as int]@.len() - m,
            {
                out.push(self.lines[k][m]);
                proof {
                    assert(out@ =~= before + self.lines@[k as int]@.take(m as int + 1));
                }
                m += 1;
            }
            proof {
                let lv = self.lines_v();
                assert(self.lines@[k as int]@.take(self.lines@[k as int]@.len() as int) =~= lv[
                    k as int]);
                lemma_joined_snoc(lv.take(k as int), lv[k as int]);
                assert(lv.take(k as int + 1) =~= lv.take(k as int).push(lv[k as int]));
            }
            k += 1;
        }
        proof {
            assert(self.lines_v().take(self.lines_v().len() as int) =~= self.lines_v());
        }
        out
    }

    /// Applies one key press to the buffer, exactly as [`input_v`]
    /// describes.
    pub fn input(&mut self, evt: KeyInput)
        requires
            old(self).wf(),
        ensures
            final(self).wf(),
            final(self)@ == input_v(old(self)@, evt),
    {
        if evt.ctrl {
            return ;
        }
        match evt.code {
            Key::Char(c) => {
                let mut line = self.lines.remove(self.row);
                line.insert(self.col, c);
                let grown = line.len();
                self.lines.insert(self.row, line);
                proof {
                    assert(self.col < grown);
                }
                self.col = self.col + 1;
                proof {
                    assert(self.lines_v() =~= old(self).lines_v().update(
                        old(self).row as int,
                        old(self).lines_v()[old(self).row as int].insert(old(self).col as int, c),
                    ));
                }
            },
            Key::Enter => {
                let n0 = self.lines.len();
                let mut line = self.lines.remove(self.row);
                let mut rest: Vec<char> = Vec::new();
                let mut m: usize = self.col;
                while m < line.len()
                    invariant
                        self.col <= m <= line@.len(),
                        rest@ == line@.subrange(old(self).col as int, m as int),
                        line@ == old(self).lines_v()[old(self).row as int],
                        self.col == old(self).col,
                    decreases line@.len() - m,
                {
                    rest.push(line[m]);
                    proof {
                        assert(rest@ =~= line@.subrange(old(self).col as int, m as int + 1));
                    }
                    m += 1;
                }
                proof {
                    assert(rest@ =~= old(self).lines_v()[old(self).row as int].skip(
                        old(self).col as int,
                    ));
                }
                line.truncate(self.col);
                proof {
                    assert(line@ =~= old(self).lines_v()[old(self).row as int].take(
                        old(self).col as int,
                    ));
                }
                self.lines.insert(self.row, line);
                self.lines.insert(self.row + 1, rest);
                self.row = self.row + 1;
                self.col = 0;
                proof {
                    assert(self.lines_v() =~= old(self).lines_v().update(
                        old(self).row as int,
                        old(self).lines_v()[old(self).row as int].take(old(self).col as int),
                    ).insert(
                        old(self).row + 1,
                        old(self).lines_v()[old(self).row as int].skip(old(self).col as int),
                    ));
                }
            },
            Key::Backspace => {
                if self.col > 0 {
                    let mut line = self.lines.remove(self.row);
                    line.remove(self.col - 1);
                    self.lines.insert(self.row, line);
                    self.col = self.col - 1;
                    proof {
                        assert(self.lines_v() =~= old(self).lines_v().update(
                            old(self).row as int,
                            old(self).lines_v()[old(self).row as int].remove(
                                old(self).col as int - 1,
                            ),
                        ));
                    }
                } else if self.row > 0 {
                    let cur = self.lines.remove(self.row);
                    let mut prev = self.lines.remove(self.row - 1);
                    let new_col = prev.len();
                    let mut m: usize = 0;
                    while m < cur.len()
                        invariant
                            m <= cur@.len(),
                            prev@ == old(self).lines_v()[old(self).row as int - 1] + cur@.take(
                                m as int,
                            ),
                            cur@ == old(self).lines_v()[old(self).row as int],
                        decreases cur@.len() - m,
                    {
                        prev.push(cur[m]);
                        proof {
                            assert(prev@ =~= old(self).lines_v()[old(self).row as int - 1]
                                + cur@.take(m as int + 1));
                        }
                        m += 1;
                    }
                    proof {
                        assert(prev@ =~= old(self).lines_v()[old(self).row as int - 1] + old(
                            self,
                        ).lines_v()[old(self).row as int]);
                    }
                    self.lines.insert(self.row - 1, prev);
                    self.row = self.row - 1;
                    self.col = new_col;
                    proof {
                        assert(self.lines_v() =~= old(self).lines_v().update(
                            old(self).row as int - 1,
                            old(self).lines_v()[old(self).row as int - 1] + old(self).lines_v()[old(
                                self,
                            ).row as int],
                        ).remove(old(self).row as int));
                    }
                } else {
                    proof {
                        assert(*self == *old(self));
                    }
                }
            },
            Key::Left => {
                if self.col > 0 {
                    self.col = self.col - 1;
                } else if self.row > 0 {
                    self.row = self.row - 1;
                    self.col = self.lines[self.row].len();
                }
            },
            Key::Right => {
                let row_len = self.lines[self.row].len();
                if self.col < row_len {
                    self.col = self.col + 1;
                } else {
                    let n = self.lines.len();
                    if self.row < n - 1 {
                        self.row = self.row + 1;
                        self.col = 0;
                    }
                }
            },
            Key::Up => {
                if self.row > 0 {
                    self.row = self.row - 1;
                    if self.col > self.lines[self.row].len() {
                        self.col = self.lines[self.row].len();
                    }
                }
            },
            Key::Down => {
                let n = self.lines.len();
                if self.row < n - 1 {
                    self.row = self.row + 1;
                    let rl = self.lines[self.row].len();
                    if self.col > rl {
                        self.col = rl;
                    }
                }
            },
            _ => {},
        }
        proof {
            assert(self@ =~= input_v(old(self)@, evt));
        }
    }
}

proof fn lemma_joined_snoc(ls: Seq<Seq<char>>, x: Seq<char>)
    ensures
        joined(ls.push(x)) == if ls.len() == 0 {
            x
        } else {
            joined(ls) + seq!['\n'] + x
        },
    decreases ls.len(),
{
    if ls.len() == 0 {
        assert(ls.push(x)[0] == x);
        assert(ls.push(x).len() == 1);
    } else if ls.len() == 1 {
        assert(ls.push(x)[0] == ls[0]);
        assert(ls.push(x).drop_first() =~= seq![x]);
        assert(joined(seq![x]) == x);
        assert(joined(ls) == ls[0]);
    } else {
        assert(ls.push(x)[0] == ls[0]);
        assert(ls.push(x).drop_first() =~= ls.drop_first().push(x));
        lemma_joined_snoc(ls.drop_first(), x);
        assert(ls[0] + seq!['\n'] + (joined(ls.drop_first()) + seq!['\n'] + x) =~= (ls[0]
            + seq!['\n'] + joined(ls.drop_first())) + seq!['\n'] + x);
    }
}

} // verus!