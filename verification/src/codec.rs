//! The snippets document: a config-style text format and its verified
//! codec.
//!
//! A document is a sequence of `[[snippets]]` tables; each table holds the
//! fields `priority` (a decimal integer, optional, defaulting to 0), `cmd`
//! and `description` (strings). Strings are written either as basic
//! strings in double quotes, with backslash escapes for backslash, quote,
//! newline, carriage return and tab, or as literal strings between triple
//! single-quotes, taken verbatim except that a newline straight after the
//! opening quotes is dropped. Whitespace between tokens is free-form.
//! Unknown keys are read and ignored; a repeated key is an error.
//!
//! Saving always writes basic strings, so a saved document parses back to
//! exactly the list it was made from: see [`lemma_doc_round_trip`].
use vstd::prelude::*;

use crate::{Snippet, SnippetV};
use crate::numfmt::{dec_str, is_digit, parse_int};

verus! {

pub open spec fn is_layout(c: char) -> bool {
    c == ' ' || c == '\t' || c == '\n' || c == '\r'
}

pub open spec fn all_layout(s: Seq<char>) -> bool {
    forall|i: int| 0 <= i < s.len() ==> is_layout(#[trigger] s[i])
}

/// `s` without its leading whitespace.
pub open spec fn skip_layout(s: Seq<char>) -> Seq<char>
    decreases s.len(),
{
    if s.len() > 0 && is_layout(s[0]) {
        skip_layout(s.drop_first())
    } else {
        s
    }
}

pub open spec fn is_key_char(c: char) -> bool {
    ('a' <= c && c <= 'z') || ('A' <= c && c <= 'Z') || ('0' <= c && c <= '9') || c == '_' || c
        == '-'
}

pub open spec fn all_key_chars(s: Seq<char>) -> bool {
    forall|i: int| 0 <= i < s.len() ==> is_key_char(#[trigger] s[i])
}

/// The longest key prefix of `s`.
pub open spec fn take_key(s: Seq<char>) -> Seq<char>
    decreases s.len(),
{
    if s.len() > 0 && is_key_char(s[0]) {
        seq![s[0]] + take_key(s.drop_first())
    } else {
        Seq::empty()
    }
}

/// The escape sequence a basic string uses for `c`.
pub open spec fn escape_char(c: char) -> Seq<char> {
    if c == '\\' {
        seq!['\\', '\\']
    } else if c == '"' {
        seq!['\\', '"']
    } else if c == '\n' {
        seq!['\\', 'n']
    } else if c == '\r' {
        seq!['\\', 'r']
    } else if c == '\t' {
        seq!['\\', 't']
    } else {
        seq![c]
    }
}

/// The basic-string rendering of `s`, without the surrounding quotes.
pub open spec fn escape(s: Seq<char>) -> Seq<char>
    decreases s.len(),
{
    if s.len() == 0 {
        Seq::empty()
    } else {
        escape_char(s[0]) + escape(s.drop_first())
    }
}

/// The character an escape code stands for.
pub open spec fn unescape_char(c: char) -> Option<char> {
    if c == '\\' {
        Some('\\')
    } else if c == '"' {
        Some('"')
    } else if c == 'n' {
        Some('\n')
    } else if c == 'r' {
        Some('\r')
    } else if c == 't' {
        Some('\t')
    } else {
        None
    }
}

/// Reads a basic-string body up to and over its closing quote: the
/// content and the unread suffix. Fails on a bad or unfinished escape, a
/// raw line break, or a missing closing quote.
pub open spec fn parse_basic_body(s: Seq<char>) -> Option<(Seq<char>, Seq<char>)>
    decreases s.len(),
{
    if s.len() == 0 {
        None
    } else if s[0] == '"' {
        Some((Seq::empty(), s.drop_first()))
    } else if s[0] == '\\' {
        if s.len() < 2 {
            None
        } else {
            match unescape_char(s[1]) {
                Some(c) => match parse_basic_body(s.skip(2)) {
                    Some((t, r)) => Some((seq![c] + t, r)),
                    None => None,
                },
                None => None,
            }
        }
    } else if s[0] == '\n' || s[0] == '\r' {
        None
    } else {
        match parse_basic_body(s.drop_first()) {
            Some((t, r)) => Some((seq![s[0]] + t, r)),
            None => None,
        }
    }
}

/// Reads a literal-string body up to and over the first closing triple
/// quote: the verbatim content and the unread suffix.
pub open spec fn parse_literal_body(s: Seq<char>) -> Option<(Seq<char>, Seq<char>)>
    decreases s.len(),
{
    if s.len() >= 3 && s[0] == '\'' && s[1] == '\'' && s[2] == '\'' {
        Some((Seq::empty(), s.skip(3)))
    } else if s.len() == 0 {
        None
    } else {
        match parse_literal_body(s.drop_first()) {
            Some((t, r)) => Some((seq![s[0]] + t, r)),
            None => None,
        }
    }
}

/// A parsed field value: a number or a string.
pub enum FieldVal {
    Num(int),
    Text(Seq<char>),
}

/// Reads one value: a basic string, a literal string, or an integer.
pub open spec fn parse_value(s: Seq<char>) -> Option<(FieldVal, Seq<char>)> {
    if s.len() >= 3 && s[0] == '\'' && s[1] == '\'' && s[2] == '\'' {
        let body = if s.len() > 3 && s[3] == '\n' {
            s.skip(4)
        } else {
            s.skip(3)
        };
        match parse_literal_body(body) {
            Some((t, r)) => Some((FieldVal::Text(t), r)),
            None => None,
        }
    } else if s.len() > 0 && s[0] == '"' {
        match parse_basic_body(s.drop_first()) {
            Some((t, r)) => Some((FieldVal::Text(t), r)),
            None => None,
        }
    } else {
        match parse_int(s) {
            Some((v, r)) => Some((FieldVal::Num(v), r)),
            None => None,
        }
    }
}

/// Reads `key = value` fields until the end of input or the next table
/// header, then yields the snippet they describe. `po`, `co` and `deo`
/// carry the fields read so far; `cmd` and `description` are required,
/// a missing `priority` defaults to 0, and a repeated key fails.
pub open spec fn parse_fields(
    s: Seq<char>,
    po: Option<int>,
    co: Option<Seq<char>>,
    deo: Option<Seq<char>>,
) -> Option<(SnippetV, Seq<char>)>
    decreases s.len(),
{
    let t = skip_layout(s);
    if t.len() == 0 || t[0] == '[' {
        match (co, deo) {
            (Some(c), Some(d)) => Some(
                (
                    SnippetV {
                        priority: match po {
                            Some(p) => p,
                            None => 0,
                        },
                        cmd: c,
                        description: d,
                    },
                    t,
                ),
            ),
            _ => None,
        }
    } else {
        let k = take_key(t);
        if k.len() == 0 {
            None
        } else {
            let t2 = skip_layout(t.skip(k.len() as int));
            if t2.len() == 0 || t2[0] != '=' {
                None
            } else {
                let t3 = skip_layout(t2.drop_first());
                match parse_value(t3) {
                    None => None,
                    Some((v, t4)) => {
                        if t4.len() >= s.len() {
                            None
                        } else if k == "priority"@ {
                            match (v, po) {
                                (FieldVal::Num(n), None) => parse_fields(t4, Some(n), co, deo),
                                _ => None,
                            }
                        } else if k == "cmd"@ {
                            match (v, co) {
                                (FieldVal::Text(c), None) => parse_fields(t4, po, Some(c), deo),
                                _ => None,
                            }
                        } else if k == "description"@ {
                            match (v, deo) {
                                (FieldVal::Text(d), None) => parse_fields(t4, po, co, Some(d)),
                                _ => None,
                            }
                        } else {
                            parse_fields(t4, po, co, deo)
                        }
                    },
                }
            }
        }
    }
}

pub open spec fn starts_with(s: Seq<char>, p: Seq<char>) -> bool {
    s.len() >= p.len() && s.take(p.len() as int) == p
}

/// Reads a whole document: any number of `[[snippets]]` tables.
pub open spec fn parse_doc(s: Seq<char>) -> Option<Seq<SnippetV>>
    decreases s.len(),
{
    let t = skip_layout(s);
    if t.len() == 0 {
        Some(Seq::empty())
    } else if starts_with(t, "[[snippets]]"@) {
        match parse_fields(t.skip(12), None, None, None) {
            None => None,
            Some((sn, r)) => {
                if r.len() < s.len() {
                    match parse_doc(r) {
                        Some(l) => Some(seq![sn] + l),
                        None => None,
                    }
                } else {
                    None
                }
            },
        }
    } else {
        None
    }
}

/// The saved form of one snippet.
pub open spec fn encode_snippet(sn: SnippetV) -> Seq<char> {
    "[[snippets]]\n"@ + "priority"@ + " = "@ + dec_str(sn.priority) + "\n"@ + "cmd"@ + " = \""@
        + escape(sn.cmd) + "\"\n"@ + "description"@ + " = \""@ + escape(sn.description) + "\"\n"@
}

/// The saved form of a snippet list.
pub open spec fn encode_doc(l: Seq<SnippetV>) -> Seq<char>
    decreases l.len(),
{
    if l.len() == 0 {
        Seq::empty()
    } else {
        encode_snippet(l[0]) + encode_doc(l.drop_first())
    }
}

pub proof fn lemma_skip_layout_concat(l: Seq<char>, s: Seq<char>)
    requires
        all_layout(l),
    ensures
        skip_layout(l + s) == skip_layout(s),
    decreases l.len(),
{
    if l.len() == 0 {
        assert(l + s =~= s);
    } else {
        assert((l + s)[0] == l[0]);
        assert((l + s).drop_first() =~= l.drop_first() + s);
        lemma_skip_layout_concat(l.drop_first(), s);
    }
}

proof fn lemma_skip_layout_len(s: Seq<char>)
    ensures
        skip_layout(s).len() <= s.len(),
    decreases s.len(),
{
    if s.len() > 0 && is_layout(s[0]) {
        lemma_skip_layout_len(s.drop_first());
    }
}

proof fn lemma_take_key_len(s: Seq<char>)
    ensures
        take_key(s).len() <= s.len(),
    decreases s.len(),
{
    if s.len() > 0 && is_key_char(s[0]) {
        lemma_take_key_len(s.drop_first());
    }
}

proof fn lemma_take_key_concat(a: Seq<char>, b: Seq<char>)
    requires
        all_key_chars(a),
        b.len() == 0 || !is_key_char(b[0]),
    ensures
        take_key(a + b) == a,
    decreases a.len(),
{
    if a.len() == 0 {
        assert(a + b =~= b);
    } else {
        assert((a + b)[0] == a[0]);
        assert((a + b).drop_first() =~= a.drop_first() + b);
        lemma_take_key_concat(a.drop_first(), b);
        assert(take_key(a + b) =~= seq![a[0]] + a.drop_first());
        assert(seq![a[0]] + a.drop_first() =~= a);
    }
}

proof fn lemma_parse_basic_len(s: Seq<char>)
    ensures
        match parse_basic_body(s) {
            Some((t, r)) => r.len() < s.len(),
            None => true,
        },
    decreases s.len(),
{
    if s.len() == 0 {
    } else if s[0] == '"' {
    } else if s[0] == '\\' {
        if s.len() >= 2 {
            lemma_parse_basic_len(s.skip(2));
        }
    } else {
        lemma_parse_basic_len(s.drop_first());
    }
}

proof fn lemma_parse_literal_len(s: Seq<char>)
    ensures
        match parse_literal_body(s) {
            Some((t, r)) => r.len() < s.len(),
            None => true,
        },
    decreases s.len(),
{
    if s.len() >= 3 && s[0] == '\'' && s[1] == '\'' && s[2] == '\'' {
    } else if s.len() > 0 {
        lemma_parse_literal_len(s.drop_first());
    }
}

proof fn lemma_take_digits_len(s: Seq<char>)
    ensures
        crate::numfmt::take_digits(s).len() <= s.len(),
    decreases s.len(),
{
    if s.len() > 0 && is_digit(s[0]) {
        lemma_take_digits_len(s.drop_first());
    }
}

proof fn lemma_parse_value_len(s: Seq<char>)
    ensures
        match parse_value(s) {
            Some((v, r)) => r.len() < s.len(),
            None => true,
        },
{
    if s.len() >= 3 && s[0] == '\'' && s[1] == '\'' && s[2] == '\'' {
        if s.len() > 3 && s[3] == '\n' {
            lemma_parse_literal_len(s.skip(4));
        } else {
            lemma_parse_literal_len(s.skip(3));
        }
    } else if s.len() > 0 && s[0] == '"' {
        lemma_parse_basic_len(s.drop_first());
    } else {
        lemma_take_digits_len(s);
        if s.len() > 0 && s[0] == '-' {
            lemma_take_digits_len(s.drop_first());
        }
    }
}

/// Leading whitespace does not change what the fields of a table parse
/// to.
pub proof fn lemma_parse_fields_layout(
    l: Seq<char>,
    s: Seq<char>,
    po: Option<int>,
    co: Option<Seq<char>>,
    deo: Option<Seq<char>>,
)
    requires
        all_layout(l),
    ensures
        parse_fields(l + s, po, co, deo) == parse_fields(s, po, co, deo),
{
    lemma_skip_layout_concat(l, s);
    lemma_skip_layout_len(s);
    let t = skip_layout(s);
    if t.len() == 0 || t[0] == '[' {
    } else {
        let k = take_key(t);
        if k.len() == 0 {
        } else {
            lemma_take_key_len(t);
            let t2 = skip_layout(t.skip(k.len() as int));
            lemma_skip_layout_len(t.skip(k.len() as int));
            if t2.len() == 0 || t2[0] != '=' {
            } else {
                let t3 = skip_layout(t2.drop_first());
                lemma_skip_layout_len(t2.drop_first());
                match parse_value(t3) {
                    None => {},
                    Some((v, t4)) => {
                        lemma_parse_value_len(t3);
                        assert(t4.len() < s.len());
                        assert(t4.len() < (l + s).len());
                    },
                }
            }
        }
    }
}

proof fn lemma_field_priority_step(
    v: int,
    rest: Seq<char>,
    co: Option<Seq<char>>,
    deo: Option<Seq<char>>,
)
    requires
        -0x8000_0000_0000_0000 <= v <= 0x7fff_ffff_ffff_ffff,
    ensures
        parse_fields("priority"@ + " = "@ + dec_str(v) + "\n"@ + rest, None, co, deo)
            == parse_fields(rest, Some(v), co, deo),
{
    reveal_strlit("priority");
    reveal_strlit(" = ");
    reveal_strlit("\n");
    let tail1 = " = "@ + dec_str(v) + "\n"@ + rest;
    let s = "priority"@ + " = "@ + dec_str(v) + "\n"@ + rest;
    assert(s =~= "priority"@ + tail1);
    assert(s[0] == 'p');
    assert(skip_layout(s) == s);
    lemma_take_key_concat("priority"@, tail1);
    assert(take_key(s) == "priority"@);
    let after_key = s.skip(8);
    assert(after_key =~= tail1);
    let eq_on = seq!['='] + (seq![' '] + (dec_str(v) + ("\n"@ + rest)));
    assert(tail1 =~= seq![' '] + eq_on);
    lemma_skip_layout_concat(seq![' '], eq_on);
    assert(skip_layout(eq_on) == eq_on);
    let t2 = skip_layout(after_key);
    assert(t2 == eq_on);
    assert(t2[0] == '=');
    crate::numfmt::lemma_dec_str_head(v);
    let val_on = dec_str(v) + ("\n"@ + rest);
    assert(t2.drop_first() =~= seq![' '] + val_on);
    lemma_skip_layout_concat(seq![' '], val_on);
    assert(!is_layout(val_on[0]));
    assert(skip_layout(val_on) == val_on);
    let t3 = skip_layout(t2.drop_first());
    assert(t3 == val_on);
    assert(t3[0] != '\'' && t3[0] != '"');
    assert(("\n"@ + rest)[0] == '\n');
    crate::numfmt::lemma_parse_int_of_dec(v, "\n"@ + rest);
    assert(parse_value(t3) == Some((FieldVal::Num(v), "\n"@ + rest)));
    let t4 = "\n"@ + rest;
    assert(t4.len() < s.len());
    assert(parse_fields(s, None, co, deo) == parse_fields(t4, Some(v), co, deo));
    assert(all_layout("\n"@));
    lemma_parse_fields_layout("\n"@, rest, Some(v), co, deo);
    assert(t4 =~= "\n"@ + rest);
}

/// Escaping then reading back a basic string yields the text unchanged.
pub proof fn lemma_escape_round(v: Seq<char>, rest: Seq<char>)
    ensures
        parse_basic_body(escape(v) + seq!['"'] + rest) == Some((v, rest)),
    decreases v.len(),
{
    if v.len() == 0 {
        assert(escape(v) + seq!['"'] + rest =~= seq!['"'] + rest);
        let s = seq!['"'] + rest;
        assert(s[0] == '"');
        assert(s.drop_first() =~= rest);
    } else {
        let c = v[0];
        let s = escape(v) + seq!['"'] + rest;
        let inner = escape(v.drop_first()) + seq!['"'] + rest;
        lemma_escape_round(v.drop_first(), rest);
        assert(escape(v) =~= escape_char(c) + escape(v.drop_first()));
        if c == '\\' || c == '"' || c == '\n' || c == '\r' || c == '\t' {
            assert(escape_char(c).len() == 2);
            assert(s[0] == escape_char(c)[0]);
            assert(s[1] == escape_char(c)[1]);
            assert(s[0] == '\\');
            assert(unescape_char(s[1]) == Some(c));
            assert(s.skip(2) =~= inner);
            assert(seq![c] + v.drop_first() =~= v);
        } else {
            assert(escape_char(c) =~= seq![c]);
            assert(s[0] == c);
            assert(s[0] != '"' && s[0] != '\\' && s[0] != '\n' && s[0] != '\r');
            assert(s.drop_first() =~= inner);
            assert(seq![c] + v.drop_first() =~= v);
        }
    }
}

proof fn lemma_field_text_step(
    key: Seq<char>,
    txt: Seq<char>,
    rest: Seq<char>,
    po: Option<int>,
    co: Option<Seq<char>>,
    deo: Option<Seq<char>>,
)
    requires
        all_key_chars(key),
        key.len() > 0,
        !is_layout(key[0]),
        key[0] != '[',
    ensures
        parse_fields(key + " = \""@ + escape(txt) + "\"\n"@ + rest, po, co, deo) == (
        if key == "priority"@ {
                None
            } else if key == "cmd"@ {
                match co {
                    None => parse_fields(rest, po, Some(txt), deo),
                    Some(_) => None,
                }
            } else if key == "description"@ {
                match deo {
                    None => parse_fields(rest, po, co, Some(txt)),
                    Some(_) => None,
                }
            } else {
                parse_fields(rest, po, co, deo)
            }),
{
    reveal_strlit(" = \"");
    reveal_strlit("\"\n");
    reveal_strlit("\n");
    let tail1 = " = \""@ + escape(txt) + "\"\n"@ + rest;
    let s = key + " = \""@ + escape(txt) + "\"\n"@ + rest;
    assert(s =~= key + tail1);
    assert(s[0] == key[0]);
    assert(skip_layout(s) == s);
    assert(tail1[0] == ' ');
    lemma_take_key_concat(key, tail1);
    assert(take_key(s) == key);
    let after_key = s.skip(key.len() as int);
    assert(after_key =~= tail1);
    let eq_on = seq!['='] + (seq![' '] + (seq!['"'] + (escape(txt) + ("\"\n"@ + rest))));
    assert(tail1 =~= seq![' '] + eq_on);
    lemma_skip_layout_concat(seq![' '], eq_on);
    assert(skip_layout(eq_on) == eq_on);
    let t2 = skip_layout(after_key);
    assert(t2 == eq_on);
    assert(t2[0] == '=');
    let val_on = seq!['"'] + (escape(txt) + ("\"\n"@ + rest));
    assert(t2.drop_first() =~= seq![' '] + val_on);
    lemma_skip_layout_concat(seq![' '], val_on);
    assert(skip_layout(val_on) == val_on);
    let t3 = skip_layout(t2.drop_first());
    assert(t3 == val_on);
    assert(t3[0] == '"');
    assert(t3[0] != '\'');
    lemma_escape_round(txt, "\n"@ + rest);
    assert(t3.drop_first() =~= escape(txt) + seq!['"'] + ("\n"@ + rest));
    assert(parse_basic_body(t3.drop_first()) == Some((txt, "\n"@ + rest)));
    assert(parse_value(t3) == Some((FieldVal::Text(txt), "\n"@ + rest)));
    let t4 = "\n"@ + rest;
    assert(t4.len() < s.len());
    assert(all_layout("\n"@));
    if key == "priority"@ {
    } else if key == "cmd"@ {
        match co {
            None => {
                lemma_parse_fields_layout("\n"@, rest, po, Some(txt), deo);
            },
            Some(_) => {},
        }
    } else if key == "description"@ {
        match deo {
            None => {
                lemma_parse_fields_layout("\n"@, rest, po, co, Some(txt));
            },
            Some(_) => {},
        }
    } else {
        lemma_parse_fields_layout("\n"@, rest, po, co, deo);
    }
}

/// The fields of one saved snippet parse back to that snippet, leaving
/// the next table header (or the end of input) unread.
proof fn lemma_snippet_fields_round(sn: SnippetV, rest: Seq<char>)
    requires
        -0x8000_0000_0000_0000 <= sn.priority <= 0x7fff_ffff_ffff_ffff,
        rest.len() == 0 || rest[0] == '[',
    ensures
        parse_fields(
            "priority"@ + " = "@ + dec_str(sn.priority) + "\n"@ + ("cmd"@ + " = \""@ + escape(
                sn.cmd,
            ) + "\"\n"@ + ("description"@ + " = \""@ + escape(sn.description) + "\"\n"@ + rest)),
            None,
            None,
            None,
        ) == Some((sn, rest)),
{
    reveal_strlit("priority");
    reveal_strlit("cmd");
    reveal_strlit("description");
    let rest_d = "description"@ + " = \""@ + escape(sn.description) + "\"\n"@ + rest;
    let rest_c = "cmd"@ + " = \""@ + escape(sn.cmd) + "\"\n"@ + rest_d;
    lemma_field_priority_step(sn.priority, rest_c, None, None);
    assert("priority"@ + " = "@ + dec_str(sn.priority) + "\n"@ + rest_c =~= "priority"@ + " = "@
        + dec_str(sn.priority) + "\n"@ + ("cmd"@ + " = \""@ + escape(sn.cmd) + "\"\n"@ + (
    "description"@ + " = \""@ + escape(sn.description) + "\"\n"@ + rest)));
    assert(all_key_chars("cmd"@));
    assert("cmd"@ != "priority"@) by {
        assert("cmd"@.len() == 3);
    }
    assert("cmd"@ != "description"@) by {
        assert("description"@.len() == 11);
    }
    lemma_field_text_step("cmd"@, sn.cmd, rest_d, Some(sn.priority), None, None);
    assert("cmd"@ + " = \""@ + escape(sn.cmd) + "\"\n"@ + rest_d =~= rest_c);
    assert(all_key_chars("description"@));
    assert("description"@ != "priority"@) by {
        assert("description"@.len() == 11);
    }
    lemma_field_text_step(
        "description"@,
        sn.description,
        rest,
        Some(sn.priority),
        Some(sn.cmd),
        None,
    );
    assert("description"@ + " = \""@ + escape(sn.description) + "\"\n"@ + rest =~= rest_d);
    assert(skip_layout(rest) == rest);
    assert(parse_fields(rest, Some(sn.priority), Some(sn.cmd), Some(sn.description)) == Some(
        (SnippetV { priority: sn.priority, cmd: sn.cmd, description: sn.description }, rest),
    ));
    assert(SnippetV { priority: sn.priority, cmd: sn.cmd, description: sn.description } =~= sn);
}

proof fn lemma_encode_doc_head(l: Seq<SnippetV>)
    ensures
        encode_doc(l).len() == 0 || encode_doc(l)[0] == '[',
{
    reveal_strlit("[[snippets]]\n");
    if l.len() > 0 {
        assert(encode_doc(l)[0] == encode_snippet(l[0])[0]);
        assert(encode_snippet(l[0])[0] == '[');
    }
}

/// Saving a snippet list and loading the saved text yields the same
/// list, scores included.
#[verifier::rlimit(50)]
pub proof fn lemma_doc_round_trip(l: Seq<SnippetV>)
    requires
        forall|i: int|
            0 <= i < l.len() ==> -0x8000_0000_0000_0000 <= (#[trigger] l[i]).priority
                <= 0x7fff_ffff_ffff_ffff,
    ensures
        parse_doc(encode_doc(l)) == Some(l),
    decreases l.len(),
{
    reveal_strlit("[[snippets]]\n");
    reveal_strlit("[[snippets]]");
    if l.len() == 0 {
        assert(encode_doc(l) =~= Seq::<char>::empty());
        assert(parse_doc(encode_doc(l)) == Some(Seq::<SnippetV>::empty()));
        assert(Seq::<SnippetV>::empty() =~= l);
    } else {
        let sn = l[0];
        let tail = encode_doc(l.drop_first());
        let fields = "priority"@ + " = "@ + dec_str(sn.priority) + "\n"@ + ("cmd"@ + " = \""@
            + escape(sn.cmd) + "\"\n"@ + ("description"@ + " = \""@ + escape(sn.description)
            + "\"\n"@ + tail));
        let s = encode_doc(l);
        assert(s =~= encode_snippet(sn) + tail);
        assert(s =~= "[[snippets]]\n"@ + fields) by {
            assert(encode_snippet(sn) + tail =~= "[[snippets]]\n"@ + fields);
        }
        assert(s[0] == '[');
        assert(skip_layout(s) == s);
        assert(s.take(12) =~= "[[snippets]]"@);
        assert(starts_with(s, "[[snippets]]"@));
        assert(s.skip(12) =~= "\n"@ + fields) by {
            reveal_strlit("\n");
        }
        lemma_encode_doc_head(l.drop_first());
        lemma_snippet_fields_round(sn, tail);
        assert(all_layout("\n"@)) by {
            reveal_strlit("\n");
        }
        lemma_parse_fields_layout("\n"@, fields, None, None, None);
        assert(parse_fields(s.skip(12), None, None, None) == Some((sn, tail)));
        assert(tail.len() < s.len());
        assert forall|i: int| 0 <= i < l.drop_first().len() implies -0x8000_0000_0000_0000 <= (
        #[trigger] l.drop_first()[i]).priority <= 0x7fff_ffff_ffff_ffff by {
            assert(l.drop_first()[i] == l[i + 1]);
        }
        lemma_doc_round_trip(l.drop_first());
        assert(parse_doc(s) == Some(seq![sn] + l.drop_first()));
        assert(seq![sn] + l.drop_first() =~= l);
    }
}

/// A field value as the executable parser holds it.
pub enum ParsedVal {
    Num(i64),
    Text(Vec<char>),
}

pub open spec fn val_view(v: ParsedVal) -> FieldVal {
    match v {
        ParsedVal::Num(n) => FieldVal::Num(n as int),
        ParsedVal::Text(t) => FieldVal::Text(t@),
    }
}

pub open spec fn view_po(o: Option<i64>) -> Option<int> {
    match o {
        Some(v) => Some(v as int),
        None => None,
    }
}

pub open spec fn view_ch(o: Option<Vec<char>>) -> Option<Seq<char>> {
    match o {
        Some(v) => Some(v@),
        None => None,
    }
}

fn skip_layout_from(s: &Vec<char>, i: usize) -> (j: usize)
    requires
        i <= s.len(),
    ensures
        i <= j <= s.len(),
        s@.skip(j as int) == skip_layout(s@.skip(i as int)),
{
    let mut j = i;
    while j < s.len() && (s[j] == ' ' || s[j] == '\t' || s[j] == '\n' || s[j] == '\r')
        invariant
            i <= j <= s.len(),
            skip_layout(s@.skip(i as int)) == skip_layout(s@.skip(j as int)),
        decreases s.len() - j,
    {
        proof {
            assert(s@.skip(j as int)[0] == s@[j as int]);
            assert(s@.skip(j as int).drop_first() =~= s@.skip(j as int + 1));
        }
        j += 1;
    }
    proof {
        if j < s.len() {
            assert(s@.skip(j as int)[0] == s@[j as int]);
        }
        assert(skip_layout(s@.skip(j as int)) == s@.skip(j as int));
    }
    j
}

fn is_key_char_exec(c: char) -> (r: bool)
    ensures
        r == is_key_char(c),
{
    ('a' <= c && c <= 'z') || ('A' <= c && c <= 'Z') || ('0' <= c && c <= '9') || c == '_' || c
        == '-'
}

fn take_key_from(s: &Vec<char>, i: usize) -> (r: (Vec<char>, usize))
    requires
        i <= s.len(),
    ensures
        i <= r.1 <= s.len(),
        r.0@ == take_key(s@.skip(i as int)),
        r.1 == i + r.0@.len(),
        s@.skip(r.1 as int) == s@.skip(i as int).skip(r.0@.len() as int),
{
    let mut out: Vec<char> = Vec::new();
    let mut j = i;
    while j < s.len() && is_key_char_exec(s[j])
        invariant
            i <= j <= s.len(),
            out@ == s@.subrange(i as int, j as int),
            j == i + out@.len(),
            take_key(s@.skip(i as int)) == s@.subrange(i as int, j as int) + take_key(
                s@.skip(j as int),
            ),
        decreases s.len() - j,
    {
        proof {
            assert(s@.skip(j as int)[0] == s@[j as int]);
            assert(s@.skip(j as int).drop_first() =~= s@.skip(j as int + 1));
            assert(s@.subrange(i as int, j as int) + (seq![s@[j as int]] + take_key(
                s@.skip(j as int + 1),
            )) =~= s@.subrange(i as int, j as int + 1) + take_key(s@.skip(j as int + 1)));
        }
        out.push(s[j]);
        proof {
            assert(out@ =~= s@.subrange(i as int, j as int + 1));
        }
        j += 1;
    }
    proof {
        if j < s.len() {
            assert(s@.skip(j as int)[0] == s@[j as int]);
        }
        assert(take_key(s@.skip(j as int)) =~= Seq::<char>::empty());
        assert(take_key(s@.skip(i as int)) =~= s@.subrange(i as int, j as int));
        assert(s@.skip(j as int) =~= s@.skip(i as int).skip((j - i) as int));
    }
    (out, j)
}

fn parse_basic_from(s: &Vec<char>, i: usize) -> (r: Option<(Vec<char>, usize)>)
    requires
        i <= s.len(),
    ensures
        match r {
            Some((t, j)) => i < j <= s.len() && parse_basic_body(s@.skip(i as int)) == Some(
                (t@, s@.skip(j as int)),
            ),
            None => parse_basic_body(s@.skip(i as int)) is None,
        },
{
    let mut out: Vec<char> = Vec::new();
    let mut j = i;
    loop
        invariant
            i <= j <= s.len(),
            match parse_basic_body(s@.skip(j as int)) {
                Some((t, r2)) => parse_basic_body(s@.skip(i as int)) == Some((out@ + t, r2)),
                None => parse_basic_body(s@.skip(i as int)) is None,
            },
        decreases s.len() - j,
    {
        if j == s.len() {
            return None;
        }
        let c = s[j];
        proof {
            assert(s@.skip(j as int)[0] == c);
            assert(s@.skip(j as int).drop_first() =~= s@.skip(j as int + 1));
        }
        if c == '"' {
            proof {
                assert(out@ + Seq::<char>::empty() =~= out@);
            }
            return Some((out, j + 1));
        }
        if c == '\\' {
            if j + 1 == s.len() {
                proof {
                    assert(s@.skip(j as int).len() < 2);
                }
                return None;
            }
            let c2 = s[j + 1];
            proof {
                assert(s@.skip(j as int)[1] == c2);
                assert(s@.skip(j as int).skip(2) =~= s@.skip(j as int + 2));
            }
            let dec: char = if c2 == '\\' {
                '\\'
            } else if c2 == '"' {
                '"'
            } else if c2 == 'n' {
                '\n'
            } else if c2 == 'r' {
                '\r'
            } else if c2 == 't' {
                '\t'
            } else {
                return None;
            };
            let ghost old_out = out@;
            out.push(dec);
            proof {
                if let Some((t, r2)) = parse_basic_body(s@.skip(j as int + 2)) {
                    assert(old_out + (seq![dec] + t) =~= out@ + t);
                }
            }
            j += 2;
        } else if c == '\n' || c == '\r' {
            return None;
        } else {
            let ghost old_out = out@;
            out.push(c);
            proof {
                if let Some((t, r2)) = parse_basic_body(s@.skip(j as int + 1)) {
                    assert(old_out + (seq![c] + t) =~= out@ + t);
                }
            }
            j += 1;
        }
    }
}

fn parse_literal_from(s: &Vec<char>, i: usize) -> (r: Option<(Vec<char>, usize)>)
    requires
        i <= s.len(),
    ensures
        match r {
            Some((t, j)) => i < j <= s.len() && parse_literal_body(s@.skip(i as int)) == Some(
                (t@, s@.skip(j as int)),
            ),
            None => parse_literal_body(s@.skip(i as int)) is None,
        },
{
    let mut out: Vec<char> = Vec::new();
    let mut j = i;
    loop
        invariant
            i <= j <= s.len(),
            match parse_literal_body(s@.skip(j as int)) {
                Some((t, r2)) => parse_literal_body(s@.skip(i as int)) == Some((out@ + t, r2)),
                None => parse_literal_body(s@.skip(i as int)) is None,
            },
        decreases s.len() - j,
    {
        if s.len() >= 3 && j <= s.len() - 3 && s[j] == '\'' && s[j + 1] == '\'' && s[j + 2]
            == '\'' {
            proof {
                assert(s@.skip(j as int)[0] == '\'');
                assert(s@.skip(j as int)[1] == '\'');
                assert(s@.skip(j as int)[2] == '\'');
                assert(s@.skip(j as int).skip(3) =~= s@.skip(j as int + 3));
                assert(out@ + Seq::<char>::empty() =~= out@);
            }
            return Some((out, j + 3));
        }
        if j == s.len() {
            return None;
        }
        let c = s[j];
        proof {
            assert(s@.skip(j as int)[0] == c);
            if s@.skip(j as int).len() >= 3 {
                assert(s@.skip(j as int)[1] == s@[j as int + 1]);
                assert(s@.skip(j as int)[2] == s@[j as int + 2]);
            }
            assert(s@.skip(j as int).drop_first() =~= s@.skip(j as int + 1));
        }
        let ghost old_out = out@;
        out.push(c);
        proof {
            if let Some((t, r2)) = parse_literal_body(s@.skip(j as int + 1)) {
                assert(old_out + (seq![c] + t) =~= out@ + t);
            }
        }
        j += 1;
    }
}

fn parse_value_from(s: &Vec<char>, i: usize) -> (r: Option<(ParsedVal, usize)>)
    requires
        i <= s.len(),
    ensures
        match r {
            Some((v, j)) => i < j <= s.len() && parse_value(s@.skip(i as int)) == Some(
                (val_view(v), s@.skip(j as int)),
            ),
            None => parse_value(s@.skip(i as int)) is None,
        },
{
    if s.len() >= 3 && i <= s.len() - 3 && s[i] == '\'' && s[i + 1] == '\'' && s[i + 2]
        == '\'' {
        proof {
            assert(s@.skip(i as int)[0] == '\'');
            assert(s@.skip(i as int)[1] == '\'');
            assert(s@.skip(i as int)[2] == '\'');
        }
        let body: usize = if s.len() >= 4 && i <= s.len() - 4 && s[i + 3] == '\n' {
            proof {
                assert(s@.skip(i as int)[3] == '\n');
                assert(s@.skip(i as int).skip(4) =~= s@.skip(i as int + 4));
            }
            i + 4
        } else {
            proof {
                if s@.skip(i as int).len() > 3 {
                    assert(s@.skip(i as int)[3] == s@[i as int + 3]);
                }
                assert(s@.skip(i as int).skip(3) =~= s@.skip(i as int + 3));
            }
            i + 3
        };
        match parse_literal_from(s, body) {
            Some((t, j)) => Some((ParsedVal::Text(t), j)),
            None => None,
        }
    } else {
        proof {
            if s@.skip(i as int).len() >= 3 {
                assert(s@.skip(i as int)[0] == s@[i as int]);
                assert(s@.skip(i as int)[1] == s@[i as int + 1]);
                assert(s@.skip(i as int)[2] == s@[i as int + 2]);
            }
        }
        if i < s.len() && s[i] == '"' {
            proof {
                assert(s@.skip(i as int)[0] == '"');
                assert(s@.skip(i as int).drop_first() =~= s@.skip(i as int + 1));
            }
            match parse_basic_from(s, i + 1) {
                Some((t, j)) => Some((ParsedVal::Text(t), j)),
                None => None,
            }
        } else {
            proof {
                if i < s.len() {
                    assert(s@.skip(i as int)[0] == s@[i as int]);
                }
            }
            match crate::numfmt::parse_int_chars(s, i) {
                Some((v, j)) => Some((ParsedVal::Num(v), j)),
                None => None,
            }
        }
    }
}

/// One table's worth of fields read back for a snippet, with the rest of
/// the text. The fields of the snippet as read: score, command,
/// description.
pub fn parse_fields_from(s: &Vec<char>, i: usize) -> (r: Option<((i64, Vec<char>, Vec<char>), usize)>)
    requires
        i <= s.len(),
    ensures
        match r {
            Some(((p, c, d), j)) => i <= j <= s.len() && parse_fields(
                s@.skip(i as int),
                None,
                None,
                None,
            ) == Some((SnippetV { priority: p as int, cmd: c@, description: d@ }, s@.skip(j as int))),
            None => parse_fields(s@.skip(i as int), None, None, None) is None,
        },
{
    let mut po: Option<i64> = None;
    let mut co: Option<Vec<char>> = None;
    let mut deo: Option<Vec<char>> = None;
    let mut j: usize = i;
    loop
        invariant
            i <= j <= s.len(),
            parse_fields(s@.skip(i as int), None, None, None) == parse_fields(
                s@.skip(j as int),
                view_po(po),
                view_ch(co),
                view_ch(deo),
            ),
        decreases s.len() - j,
    {
        let j2 = skip_layout_from(s, j);
        let ghost t = skip_layout(s@.skip(j as int));
        if j2 == s.len() || s[j2] == '[' {
            proof {
                if j2 < s.len() {
                    assert(t[0] == s@[j2 as int]);
                }
            }
            match (co, deo) {
                (Some(c), Some(d)) => {
                    let p: i64 = match po {
                        Some(p) => p,
                        None => 0,
                    };
                    return Some(((p, c, d), j2));
                },
                _ => {
                    return None;
                },
            }
        }
        let (k, j3) = take_key_from(s, j2);
        if k.len() == 0 {
            return None;
        }
        let j4 = skip_layout_from(s, j3);
        proof {
            assert(s@.skip(j3 as int) == t.skip(k@.len() as int));
        }
        if j4 == s.len() {
            return None;
        }
        if s[j4] != '=' {
            proof {
                assert(s@.skip(j4 as int)[0] == s@[j4 as int]);
            }
            return None;
        }
        proof {
            assert(s@.skip(j4 as int)[0] == '=');
            assert(s@.skip(j4 as int).drop_first() =~= s@.skip(j4 as int + 1));
        }
        let j5 = skip_layout_from(s, j4 + 1);
        match parse_value_from(s, j5) {
            None => {
                return None;
            },
            Some((v, j6)) => {
                let is_p = crate::text::chars_eq_str(&k, "priority");
                let is_c = crate::text::chars_eq_str(&k, "cmd");
                let is_d = crate::text::chars_eq_str(&k, "description");
                if is_p {
                    match v {
                        ParsedVal::Num(n) => {
                            if po.is_some() {
                                return None;
                            }
                            po = Some(n);
                        },
                        _ => {
                            return None;
                        },
                    }
                } else if is_c {
                    match v {
                        ParsedVal::Text(tx) => {
                            if co.is_some() {
                                return None;
                            }
                            co = Some(tx);
                        },
                        _ => {
                            return None;
                        },
                    }
                } else if is_d {
                    match v {
                        ParsedVal::Text(tx) => {
                            if deo.is_some() {
                                return None;
                            }
                            deo = Some(tx);
                        },
                        _ => {
                            return None;
                        },
                    }
                }
                j = j6;
            },
        }
    }
}

/// The whole record must be fields: a snippet, or nothing when the text
/// is not exactly one well-formed set of fields.
pub open spec fn parse_record(s: Seq<char>) -> Option<SnippetV> {
    match parse_fields(s, None, None, None) {
        Some((sn, r)) => if r.len() == 0 {
            Some(sn)
        } else {
            None
        },
        None => None,
    }
}

/// Reads the editor's record text as one snippet.
pub fn parse_record_chars(s: &Vec<char>) -> (r: Option<(i64, Vec<char>, Vec<char>)>)
    ensures
        match r {
            Some((p, c, d)) => parse_record(s@) == Some(
                SnippetV { priority: p as int, cmd: c@, description: d@ },
            ),
            None => parse_record(s@) is None,
        },
{
    proof {
        assert(s@.skip(0) =~= s@);
    }
    match parse_fields_from(s, 0) {
        Some((parts, j)) => {
            if j == s.len() {
                proof {
                    assert(s@.skip(j as int) =~= Seq::<char>::empty());
                }
                Some(parts)
            } else {
                None
            }
        },
        None => None,
    }
}

/// Whether the text at `i` starts with `lit`.
fn match_lit(s: &Vec<char>, i: usize, lit: &str) -> (r: bool)
    requires
        i <= s.len(),
    ensures
        r == starts_with(s@.skip(i as int), lit@),
{
    let n = lit.unicode_len();
    if s.len() - i < n {
        return false;
    }
    let mut k: usize = 0;
    while k < n
        invariant
            k <= n,
            n == lit@.len(),
            i + n <= s.len(),
            forall|x: int| 0 <= x < k ==> s@[i + x] == lit@[x],
        decreases n - k,
    {
        if s[i + k] != lit.get_char(k) {
            proof {
                assert(s@.skip(i as int).take(n as int)[k as int] == s@[i as int + k]);
            }
            return false;
        }
        k += 1;
    }
    proof {
        assert(s@.skip(i as int).take(n as int) =~= lit@);
    }
    true
}

/// Reads a whole document, as [`parse_doc`] describes it.
pub fn parse_doc_chars(s: &Vec<char>) -> (r: Option<Vec<Snippet>>)
    ensures
        match r {
            Some(v) => parse_doc(s@) == Some(crate::views_of(v@)),
            None => parse_doc(s@) is None,
        },
{
    let mut acc: Vec<Snippet> = Vec::new();
    let mut j: usize = 0;
    proof {
        assert(s@.skip(0) =~= s@);
    }
    loop
        invariant
            j <= s.len(),
            match parse_doc(s@.skip(j as int)) {
                Some(tail) => parse_doc(s@) == Some(crate::views_of(acc@) + tail),
                None => parse_doc(s@) is None,
            },
        decreases s.len() - j,
    {
        let j2 = skip_layout_from(s, j);
        let ghost t = skip_layout(s@.skip(j as int));
        if j2 == s.len() {
            proof {
                assert(t.len() == 0);
                assert(crate::views_of(acc@) + Seq::<SnippetV>::empty() =~= crate::views_of(acc@));
            }
            return Some(acc);
        }
        if !match_lit(s, j2, "[[snippets]]") {
            return None;
        }
        proof {
            reveal_strlit("[[snippets]]");
            assert(s@.skip(j2 as int).skip(12) =~= s@.skip(j2 as int + 12));
        }
        match parse_fields_from(s, j2 + 12) {
            None => {
                return None;
            },
            Some(((p, c, d), j3)) => {
                let ghost snv = SnippetV { priority: p as int, cmd: c@, description: d@ };
                let ghost old_acc = acc@;
                let sn = Snippet {
                    priority: p,
                    cmd: crate::text::string_of_chars(&c),
                    description: crate::text::string_of_chars(&d),
                };
                proof {
                    assert(sn@ =~= snv);
                }
                acc.push(sn);
                proof {
                    assert(crate::views_of(acc@) =~= crate::views_of(old_acc).push(snv));
                    if let Some(tail2) = parse_doc(s@.skip(j3 as int)) {
                        assert(parse_doc(s@.skip(j as int)) == Some(seq![snv] + tail2));
                        assert(crate::views_of(old_acc) + (seq![snv] + tail2) =~= crate::views_of(
                            acc@,
                        ) + tail2);
                    }
                }
                j = j3;
            },
        }
    }
}

proof fn lemma_escape_snoc(s: Seq<char>, c: char)
    ensures
        escape(s.push(c)) == escape(s) + escape_char(c),
    decreases s.len(),
{
    if s.len() == 0 {
        assert(s.push(c)[0] == c);
        assert(s.push(c).drop_first() =~= Seq::<char>::empty());
        assert(escape(Seq::<char>::empty()) =~= Seq::<char>::empty());
        assert(escape_char(c) + Seq::<char>::empty() =~= escape_char(c));
        assert(escape(s.push(c)) =~= escape_char(c));
        assert(escape(s) + escape_char(c) =~= escape_char(c));
    } else {
        assert(s.push(c)[0] == s[0]);
        assert(s.push(c).drop_first() =~= s.drop_first().push(c));
        lemma_escape_snoc(s.drop_first(), c);
        assert(escape_char(s[0]) + (escape(s.drop_first()) + escape_char(c)) =~= (escape_char(s[0])
            + escape(s.drop_first())) + escape_char(c));
    }
}

proof fn lemma_encode_doc_snoc(l: Seq<SnippetV>, sn: SnippetV)
    ensures
        encode_doc(l.push(sn)) == encode_doc(l) + encode_snippet(sn),
    decreases l.len(),
{
    if l.len() == 0 {
        assert(l.push(sn)[0] == sn);
        assert(l.push(sn).drop_first() =~= Seq::<SnippetV>::empty());
        assert(encode_doc(Seq::<SnippetV>::empty()) =~= Seq::<char>::empty());
        assert(encode_snippet(sn) + Seq::<char>::empty() =~= encode_snippet(sn));
        assert(encode_doc(l.push(sn)) =~= encode_snippet(sn));
        assert(encode_doc(l) + encode_snippet(sn) =~= encode_snippet(sn));
    } else {
        assert(l.push(sn)[0] == l[0]);
        assert(l.push(sn).drop_first() =~= l.drop_first().push(sn));
        lemma_encode_doc_snoc(l.drop_first(), sn);
        assert(encode_snippet(l[0]) + (encode_doc(l.drop_first()) + encode_snippet(sn)) =~= (
        encode_snippet(l[0]) + encode_doc(l.drop_first())) + encode_snippet(sn));
    }
}

/// Appends the characters of `lit` to `out`.
pub fn push_lit(out: &mut Vec<char>, lit: &str)
    ensures
        final(out)@ == old(out)@ + lit@,
{
    let n = lit.unicode_len();
    let mut k: usize = 0;
    while k < n
        invariant
            k <= n,
            n == lit@.len(),
            out@ == old(out)@ + lit@.take(k as int),
        decreases n - k,
    {
        out.push(lit.get_char(k));
        proof {
            assert(out@ =~= old(out)@ + lit@.take(k as int + 1));
        }
        k += 1;
    }
    proof {
        assert(old(out)@ + lit@.take(n as int) =~= old(out)@ + lit@);
    }
}

/// Appends the basic-string rendering of `txt` to `out`.
fn push_escaped(out: &mut Vec<char>, txt: &str)
    ensures
        final(out)@ == old(out)@ + escape(txt@),
{
    let n = txt.unicode_len();
    let mut k: usize = 0;
    while k < n
        invariant
            k <= n,
            n == txt@.len(),
            out@ == old(out)@ + escape(txt@.take(k as int)),
        decreases n - k,
    {
        let c = txt.get_char(k);
        proof {
            lemma_escape_snoc(txt@.take(k as int), c);
            assert(txt@.take(k as int + 1) =~= txt@.take(k as int).push(c));
        }
        if c == '\\' {
            out.push('\\');
            out.push('\\');
        } else if c == '"' {
            out.push('\\');
            out.push('"');
        } else if c == '\n' {
            out.push('\\');
            out.push('n');
        } else if c == '\r' {
            out.push('\\');
            out.push('r');
        } else if c == '\t' {
            out.push('\\');
            out.push('t');
        } else {
            out.push(c);
        }
        proof {
            assert(out@ =~= old(out)@ + escape(txt@.take(k as int + 1)));
        }
        k += 1;
    }
    proof {
        assert(txt@.take(n as int) =~= txt@);
    }
}

/// Appends the saved form of one snippet to `out`.
fn encode_snippet_push(sn: &Snippet, out: &mut Vec<char>)
    ensures
        final(out)@ == old(out)@ + encode_snippet(sn@),
{
    push_lit(out, "[[snippets]]\n");
    push_lit(out, "priority");
    push_lit(out, " = ");
    crate::numfmt::push_dec_i64(sn.priority, out);
    push_lit(out, "\n");
    push_lit(out, "cmd");
    push_lit(out, " = \"");
    push_escaped(out, sn.cmd.as_str());
    push_lit(out, "\"\n");
    push_lit(out, "description");
    push_lit(out, " = \"");
    push_escaped(out, sn.description.as_str());
    push_lit(out, "\"\n");
    proof {
        assert(out@ =~= old(out)@ + encode_snippet(sn@));
    }
}

/// The saved form of a snippet list, as characters.
pub fn encode_doc_chars(l: &Vec<Snippet>) -> (out: Vec<char>)
    ensures
        out@ == encode_doc(crate::views_of(l@)),
{
    let mut out: Vec<char> = Vec::new();
    let mut k: usize = 0;
    while k < l.len()
        invariant
            k <= l.len(),
            out@ == encode_doc(crate::views_of(l@.take(k as int))),
        decreases l.len() - k,
    {
        encode_snippet_push(&l[k], &mut out);
        proof {
            lemma_encode_doc_snoc(crate::views_of(l@.take(k as int)), l@[k as int]@);
            assert(crate::views_of(l@.take(k as int + 1)) =~= crate::views_of(
                l@.take(k as int),
            ).push(l@[k as int]@));
        }
        k += 1;
    }
    proof {
        assert(l@.take(l@.len() as int) =~= l@);
    }
    out
}

/// A string written as a literal block in the editor seed: empty content
/// is shown as a bare newline between the quotes.
pub open spec fn literal_block(s: Seq<char>) -> Seq<char> {
    if s.len() == 0 {
        "\n"@
    } else {
        s
    }
}

/// The editor's seed text for a snippet: the record that [`parse_record`]
/// reads, with the string fields as literal blocks.
pub open spec fn seed_text(sn: SnippetV) -> Seq<char> {
    "priority = "@ + dec_str(sn.priority) + "\ncmd = '''"@ + literal_block(sn.cmd)
        + "'''\ndescription = '''"@ + literal_block(sn.description) + "'''"@
}

/// Text that survives a literal block verbatim: no triple quote inside,
/// and no quote at the very end (which would merge with the closing
/// quotes).
pub open spec fn literal_safe(s: Seq<char>) -> bool {
    &&& forall|i: int|
        #![trigger s[i]]
        0 <= i && i + 2 < s.len() ==> !(s[i] == '\'' && s[i + 1] == '\'' && s[i + 2] == '\'')
    &&& (s.len() > 0 ==> s.last() != '\'')
}

proof fn lemma_parse_literal_round(v: Seq<char>, rest: Seq<char>)
    requires
        literal_safe(v),
    ensures
        parse_literal_body(v + "'''"@ + rest) == Some((v, rest)),
    decreases v.len(),
{
    reveal_strlit("'''");
    let s = v + "'''"@ + rest;
    if v.len() == 0 {
        assert(s =~= "'''"@ + rest);
        assert(s[0] == '\'' && s[1] == '\'' && s[2] == '\'');
        assert(s.skip(3) =~= rest);
    } else {
        assert(s[0] == v[0]);
        if v.len() == 1 {
            assert(v.last() != '\'');
            assert(s[0] != '\'');
        } else if v.len() == 2 {
            assert(s[0] == v[0] && s[1] == v[1]);
            assert(v.last() != '\'');
            assert(s[1] != '\'');
        } else {
            assert(s[0] == v[0] && s[1] == v[1] && s[2] == v[2]);
            assert(!(v[0] == '\'' && v[1] == '\'' && v[2] == '\''));
        }
        assert(!(s.len() >= 3 && s[0] == '\'' && s[1] == '\'' && s[2] == '\''));
        assert forall|i: int|
            #![trigger v.drop_first()[i]]
            0 <= i && i + 2 < v.drop_first().len() implies !(v.drop_first()[i] == '\''
            && v.drop_first()[i + 1] == '\'' && v.drop_first()[i + 2] == '\'') by {
            assert(v.drop_first()[i] == v[i + 1]);
            assert(v.drop_first()[i + 1] == v[i + 2]);
            assert(v.drop_first()[i + 2] == v[i + 3]);
        }
        assert(literal_safe(v.drop_first()));
        lemma_parse_literal_round(v.drop_first(), rest);
        assert(s.drop_first() =~= v.drop_first() + "'''"@ + rest);
        assert(seq![v[0]] + v.drop_first() =~= v);
    }
}

proof fn lemma_value_literal(c: Seq<char>, rest: Seq<char>)
    requires
        literal_safe(c),
        c.len() > 0 ==> c[0] != '\n',
    ensures
        parse_value("'''"@ + literal_block(c) + "'''"@ + rest) == Some((FieldVal::Text(c), rest)),
{
    reveal_strlit("'''");
    reveal_strlit("\n");
    let s = "'''"@ + literal_block(c) + "'''"@ + rest;
    assert(s[0] == '\'' && s[1] == '\'' && s[2] == '\'');
    assert(s.len() >= 3);
    if c.len() == 0 {
        assert(literal_block(c) =~= "\n"@);
        assert(s[3] == '\n');
        assert(s.len() > 3);
        let body = s.skip(4);
        assert(body =~= "'''"@ + rest);
        assert(literal_safe(Seq::<char>::empty()));
        lemma_parse_literal_round(Seq::<char>::empty(), rest);
        assert(Seq::<char>::empty() + "'''"@ + rest =~= "'''"@ + rest);
        assert(parse_literal_body(body) == Some((Seq::<char>::empty(), rest)));
        assert(parse_value(s) == Some((FieldVal::Text(Seq::<char>::empty()), rest)));
        assert(FieldVal::Text(Seq::<char>::empty()) == FieldVal::Text(c)) by {
            assert(Seq::<char>::empty() =~= c);
        }
    } else {
        assert(literal_block(c) == c);
        assert(s[3] == c[0]);
        assert(s[3] != '\n');
        assert(!(s.len() > 3 && s[3] == '\n'));
        let body = s.skip(3);
        assert(body =~= c + "'''"@ + rest);
        lemma_parse_literal_round(c, rest);
        assert(parse_literal_body(body) == Some((c, rest)));
        assert(parse_value(s) == Some((FieldVal::Text(c), rest)));
    }
}

proof fn lemma_field_literal_step(
    key: Seq<char>,
    c: Seq<char>,
    rest: Seq<char>,
    po: Option<int>,
    co: Option<Seq<char>>,
    deo: Option<Seq<char>>,
)
    requires
        all_key_chars(key),
        key.len() > 0,
        !is_layout(key[0]),
        key[0] != '[',
        literal_safe(c),
        c.len() > 0 ==> c[0] != '\n',
    ensures
        parse_fields(key + " = '''"@ + literal_block(c) + "'''"@ + rest, po, co, deo) == (
        if key == "priority"@ {
            None
        } else if key == "cmd"@ {
            match co {
                None => parse_fields(rest, po, Some(c), deo),
                Some(_) => None,
            }
        } else if key == "description"@ {
            match deo {
                None => parse_fields(rest, po, co, Some(c)),
                Some(_) => None,
            }
        } else {
            parse_fields(rest, po, co, deo)
        }),
{
    reveal_strlit(" = '''");
    reveal_strlit("'''");
    let tail1 = " = '''"@ + literal_block(c) + "'''"@ + rest;
    let s = key + " = '''"@ + literal_block(c) + "'''"@ + rest;
    assert(s =~= key + tail1);
    assert(s[0] == key[0]);
    assert(skip_layout(s) == s);
    assert(tail1[0] == ' ');
    lemma_take_key_concat(key, tail1);
    assert(take_key(s) == key);
    let after_key = s.skip(key.len() as int);
    assert(after_key =~= tail1);
    let eq_on = seq!['='] + (seq![' '] + ("'''"@ + literal_block(c) + ("'''"@ + rest)));
    assert(tail1 =~= seq![' '] + eq_on);
    lemma_skip_layout_concat(seq![' '], eq_on);
    assert(skip_layout(eq_on) == eq_on);
    let t2 = skip_layout(after_key);
    assert(t2 == eq_on);
    assert(t2[0] == '=');
    let val_on = "'''"@ + literal_block(c) + ("'''"@ + rest);
    assert(t2.drop_first() =~= seq![' '] + val_on);
    lemma_skip_layout_concat(seq![' '], val_on);
    assert(!is_layout(val_on[0]));
    assert(skip_layout(val_on) == val_on);
    let t3 = skip_layout(t2.drop_first());
    assert(t3 == val_on);
    lemma_value_literal(c, rest);
    assert(t3 =~= "'''"@ + literal_block(c) + "'''"@ + rest);
    assert(parse_value(t3) == Some((FieldVal::Text(c), rest)));
    assert(rest.len() < s.len());
}

/// The editor's seed text parses back to the very snippet it was made
/// from, as long as the command and the description hold no triple
/// quote, do not end in a quote, and do not start with a line break.
pub proof fn lemma_seed_round_trip(sn: SnippetV)
    requires
        -0x8000_0000_0000_0000 <= sn.priority <= 0x7fff_ffff_ffff_ffff,
        literal_safe(sn.cmd),
        literal_safe(sn.description),
        sn.cmd.len() > 0 ==> sn.cmd[0] != '\n',
        sn.description.len() > 0 ==> sn.description[0] != '\n',
    ensures
        parse_record(seed_text(sn)) == Some(sn),
{
    reveal_strlit("priority = ");
    reveal_strlit("priority");
    reveal_strlit(" = ");
    reveal_strlit("\ncmd = '''");
    reveal_strlit("cmd");
    reveal_strlit(" = '''");
    reveal_strlit("'''\ndescription = '''");
    reveal_strlit("description");
    reveal_strlit("\n");
    reveal_strlit("'''");
    let rest3 = "description"@ + " = '''"@ + literal_block(sn.description) + "'''"@
        + Seq::<char>::empty();
    let rest2 = "\n"@ + rest3;
    let rest1 = "cmd"@ + " = '''"@ + literal_block(sn.cmd) + "'''"@ + rest2;
    let s = seed_text(sn);
    assert(s =~= "priority"@ + " = "@ + dec_str(sn.priority) + "\n"@ + rest1);
    lemma_field_priority_step(sn.priority, rest1, None, None);
    assert(all_key_chars("cmd"@));
    assert("cmd"@ != "priority"@) by {
        assert("cmd"@.len() == 3);
    }
    lemma_field_literal_step("cmd"@, sn.cmd, rest2, Some(sn.priority), None, None);
    assert(all_layout("\n"@));
    lemma_parse_fields_layout("\n"@, rest3, Some(sn.priority), Some(sn.cmd), None);
    assert(all_key_chars("description"@));
    assert("description"@ != "priority"@) by {
        assert("description"@.len() == 11);
    }
    assert("description"@ != "cmd"@) by {
        assert("description"@.len() == 11);
    }
    lemma_field_literal_step(
        "description"@,
        sn.description,
        Seq::<char>::empty(),
        Some(sn.priority),
        Some(sn.cmd),
        None,
    );
    assert(skip_layout(Seq::<char>::empty()) =~= Seq::<char>::empty());
    assert(parse_fields(Seq::<char>::empty(), Some(sn.priority), Some(sn.cmd), Some(sn.description))
        == Some(
        (
            SnippetV { priority: sn.priority, cmd: sn.cmd, description: sn.description },
            Seq::<char>::empty(),
        ),
    ));
    assert(SnippetV { priority: sn.priority, cmd: sn.cmd, description: sn.description } =~= sn);
}

/// The editor's seed text for a snippet, as characters.
pub fn seed_text_chars(sn: &Snippet) -> (out: Vec<char>)
    ensures
        out@ == seed_text(sn@),
{
    let mut out: Vec<char> = Vec::new();
    push_lit(&mut out, "priority = ");
    crate::numfmt::push_dec_i64(sn.priority, &mut out);
    push_lit(&mut out, "\ncmd = '''");
    if sn.cmd.as_str().unicode_len() == 0 {
        out.push('\n');
        proof {
            reveal_strlit("\n");
            assert(seq!['\n'] =~= "\n"@);
        }
    } else {
        push_lit(&mut out, sn.cmd.as_str());
    }
    push_lit(&mut out, "'''\ndescription = '''");
    if sn.description.as_str().unicode_len() == 0 {
        out.push('\n');
        proof {
            reveal_strlit("\n");
            assert(seq!['\n'] =~= "\n"@);
        }
    } else {
        push_lit(&mut out, sn.description.as_str());
    }
    push_lit(&mut out, "'''");
    proof {
        assert("\ncmd = '''"@ + "'''\ndescription = '''"@ =~= "\ncmd = '''"@
            + "'''\ndescription = '''"@);
        assert(out@ =~= seed_text(sn@));
    }
    out
}

} // verus!
