//! Decimal formatting and parsing for the snippet score field.
//!
//! The persisted document and the editor seed both carry the score as a
//! decimal integer; formatting and parsing are verified inverses.
use vstd::prelude::*;

verus! {

/// The decimal digit character for `d`.
pub open spec fn digit_char(d: int) -> char
    recommends
        0 <= d <= 9,
{
    ((48 + d) as u8) as char
}

/// The decimal digit string of a non-negative number, most significant first.
pub open spec fn dec_digits(n: nat) -> Seq<char>
    decreases n,
{
    if n < 10 {
        seq![digit_char(n as int)]
    } else {
        dec_digits(n / 10).push(digit_char((n % 10) as int))
    }
}

/// The decimal rendering of an integer, with a leading minus sign when
/// negative.
pub open spec fn dec_str(v: int) -> Seq<char> {
    if v < 0 {
        seq!['-'] + dec_digits((-v) as nat)
    } else {
        dec_digits(v as nat)
    }
}

pub open spec fn is_digit(c: char) -> bool {
    '0' <= c && c <= '9'
}

pub open spec fn digit_val(c: char) -> int {
    c as int - 48
}

pub open spec fn all_digits(s: Seq<char>) -> bool {
    forall|i: int| 0 <= i < s.len() ==> is_digit(#[trigger] s[i])
}

/// The longest digit prefix of `s`.
pub open spec fn take_digits(s: Seq<char>) -> Seq<char>
    decreases s.len(),
{
    if s.len() > 0 && is_digit(s[0]) {
        seq![s[0]] + take_digits(s.drop_first())
    } else {
        Seq::empty()
    }
}

/// The value of a digit string read left to right starting from `acc`.
pub open spec fn digits_val_from(s: Seq<char>, acc: int) -> int
    decreases s.len(),
{
    if s.len() == 0 {
        acc
    } else {
        digits_val_from(s.drop_first(), acc * 10 + digit_val(s[0]))
    }
}

/// The value of a digit string.
pub open spec fn digits_val(s: Seq<char>) -> int {
    digits_val_from(s, 0)
}

/// Parsing an optionally signed decimal integer from the front of `s`:
/// the value and the unread suffix, or nothing when no digit follows the
/// optional sign or the value does not fit in a 64-bit signed integer.
pub open spec fn parse_int(s: Seq<char>) -> Option<(int, Seq<char>)> {
    if s.len() > 0 && s[0] == '-' {
        let ds = take_digits(s.drop_first());
        if ds.len() == 0 {
            None
        } else if digits_val(ds) > 0x8000_0000_0000_0000 {
            None
        } else {
            Some((-digits_val(ds), s.skip(1 + ds.len() as int)))
        }
    } else {
        let ds = take_digits(s);
        if ds.len() == 0 {
            None
        } else if digits_val(ds) > 0x7fff_ffff_ffff_ffff {
            None
        } else {
            Some((digits_val(ds), s.skip(ds.len() as int)))
        }
    }
}

proof fn lemma_dec_digits_shape(n: nat)
    ensures
        dec_digits(n).len() >= 1,
        all_digits(dec_digits(n)),
    decreases n,
{
    if n >= 10 {
        lemma_dec_digits_shape(n / 10);
    }
}

proof fn lemma_digits_val_from_push(s: Seq<char>, c: char, acc: int)
    ensures
        digits_val_from(s.push(c), acc) == digits_val_from(s, acc) * 10 + digit_val(c),
    decreases s.len(),
{
    if s.len() == 0 {
        assert(s.push(c)[0] == c);
        assert(s.push(c).drop_first() =~= Seq::<char>::empty());
        assert(digits_val_from(Seq::<char>::empty(), acc * 10 + digit_val(c)) == acc * 10
            + digit_val(c));
    } else {
        assert(s.push(c)[0] == s[0]);
        assert(s.push(c).drop_first() =~= s.drop_first().push(c));
        lemma_digits_val_from_push(s.drop_first(), c, acc * 10 + digit_val(s[0]));
    }
}

proof fn lemma_digit_char_val(d: int)
    requires
        0 <= d <= 9,
    ensures
        digit_val(digit_char(d)) == d,
        is_digit(digit_char(d)),
{
}

proof fn lemma_dec_digits_val(n: nat)
    ensures
        digits_val(dec_digits(n)) == n,
    decreases n,
{
    if n < 10 {
        lemma_digit_char_val(n as int);
        let s = seq![digit_char(n as int)];
        assert(s.drop_first() =~= Seq::<char>::empty());
        assert(s[0] == digit_char(n as int));
        assert(digits_val_from(Seq::<char>::empty(), digit_val(digit_char(n as int)))
            == digit_val(digit_char(n as int)));
        assert(digits_val_from(s, 0) == digit_val(digit_char(n as int)));
    } else {
        lemma_digit_char_val((n % 10) as int);
        lemma_dec_digits_val(n / 10);
        lemma_digits_val_from_push(dec_digits(n / 10), digit_char((n % 10) as int), 0);
    }
}

proof fn lemma_take_digits_concat(a: Seq<char>, b: Seq<char>)
    requires
        all_digits(a),
        b.len() == 0 || !is_digit(b[0]),
    ensures
        take_digits(a + b) == a,
    decreases a.len(),
{
    if a.len() == 0 {
        assert(a + b =~= b);
        assert(take_digits(b) =~= Seq::<char>::empty());
    } else {
        assert((a + b)[0] == a[0]);
        assert((a + b).drop_first() =~= a.drop_first() + b);
        lemma_take_digits_concat(a.drop_first(), b);
        assert(take_digits(a + b) =~= seq![a[0]] + a.drop_first());
        assert(seq![a[0]] + a.drop_first() =~= a);
    }
}

/// A decimal rendering starts with the sign or a digit.
pub proof fn lemma_dec_str_head(v: int)
    ensures
        dec_str(v).len() >= 1,
        dec_str(v)[0] == '-' || is_digit(dec_str(v)[0]),
{
    if v < 0 {
        lemma_dec_digits_shape((-v) as nat);
        assert(dec_str(v)[0] == '-');
    } else {
        lemma_dec_digits_shape(v as nat);
        assert(dec_str(v)[0] == dec_digits(v as nat)[0]);
    }
}

/// Formatting then parsing a 64-bit integer yields the integer back,
/// leaving an unread suffix that starts with a non-digit untouched.
pub proof fn lemma_parse_int_of_dec(v: int, rest: Seq<char>)
    requires
        -0x8000_0000_0000_0000 <= v <= 0x7fff_ffff_ffff_ffff,
        rest.len() == 0 || !is_digit(rest[0]),
    ensures
        parse_int(dec_str(v) + rest) == Some((v, rest)),
{
    if v < 0 {
        let m = (-v) as nat;
        lemma_dec_digits_shape(m);
        lemma_dec_digits_val(m);
        lemma_take_digits_concat(dec_digits(m), rest);
        let s = dec_str(v) + rest;
        assert(s[0] == '-');
        assert(s.drop_first() =~= dec_digits(m) + rest);
        assert(s.skip(1 + dec_digits(m).len() as int) =~= rest);
    } else {
        let m = v as nat;
        lemma_dec_digits_shape(m);
        lemma_dec_digits_val(m);
        lemma_take_digits_concat(dec_digits(m), rest);
        let s = dec_str(v) + rest;
        assert(dec_digits(m)[0] != '-') by {
            assert(is_digit(dec_digits(m)[0]));
        }
        assert(s[0] == dec_digits(m)[0]);
        assert(s.skip(dec_digits(m).len() as int) =~= rest);
    }
}

proof fn lemma_digits_val_from_concat(a: Seq<char>, b: Seq<char>, acc: int)
    ensures
        digits_val_from(a + b, acc) == digits_val_from(b, digits_val_from(a, acc)),
    decreases a.len(),
{
    if a.len() == 0 {
        assert(a + b =~= b);
    } else {
        assert((a + b).drop_first() =~= a.drop_first() + b);
        lemma_digits_val_from_concat(a.drop_first(), b, acc * 10 + digit_val(a[0]));
    }
}

proof fn lemma_digits_val_from_ge(s: Seq<char>, acc: int)
    requires
        all_digits(s),
        acc >= 0,
    ensures
        digits_val_from(s, acc) >= acc,
    decreases s.len(),
{
    if s.len() > 0 {
        lemma_digits_val_from_ge(s.drop_first(), acc * 10 + digit_val(s[0]));
    }
}

/// Reads the digit run at `i`, with its value when it fits under `lim`.
fn scan_digits(s: &Vec<char>, i: usize, lim: u64) -> (r: Option<(u64, usize)>)
    requires
        i <= s.len(),
        lim >= 10,
    ensures
        match r {
            Some((v, j)) => {
                &&& i < j <= s.len()
                &&& s@.subrange(i as int, j as int) == take_digits(s@.skip(i as int))
                &&& v as int == digits_val(take_digits(s@.skip(i as int)))
                &&& v <= lim
            },
            None => take_digits(s@.skip(i as int)).len() == 0 || digits_val(
                take_digits(s@.skip(i as int)),
            ) > lim,
        },
{
    let ghost full = take_digits(s@.skip(i as int));
    let mut j: usize = i;
    let mut acc: u64 = 0;
    loop
        invariant
            i <= j <= s.len(),
            lim >= 10,
            all_digits(s@.subrange(i as int, j as int)),
            acc as int == digits_val(s@.subrange(i as int, j as int)),
            acc <= lim,
            full == s@.subrange(i as int, j as int) + take_digits(s@.skip(j as int)),
            full == take_digits(s@.skip(i as int)),
        decreases s.len() - j,
    {
        let ghost pre = s@.subrange(i as int, j as int);
        if j == s.len() || !(s[j] >= '0' && s[j] <= '9') {
            proof {
                assert(take_digits(s@.skip(j as int)) =~= Seq::<char>::empty());
                assert(full =~= pre);
            }
            if j == i {
                return None;
            }
            return Some((acc, j));
        }
        let c = s[j];
        proof {
            assert(s@.skip(j as int)[0] == c);
            assert(s@.skip(j as int).drop_first() =~= s@.skip(j as int + 1));
            assert(take_digits(s@.skip(j as int)) == seq![c] + take_digits(s@.skip(j as int + 1)));
            assert(s@.subrange(i as int, j as int + 1) =~= pre + seq![c]);
            assert(pre + (seq![c] + take_digits(s@.skip(j as int + 1))) =~= (pre + seq![c])
                + take_digits(s@.skip(j as int + 1)));
        }
        let d: u64 = (c as u8 - 48) as u64;
        if acc > (lim - d) / 10 {
            proof {
                assert(acc * 10 + d > lim) by (nonlinear_arith)
                    requires
                        acc > (lim - d) / 10,
                        d < 10,
                        lim >= 10,
                ;
                let tail = take_digits(s@.skip(j as int + 1));
                lemma_digits_val_from_concat(pre + seq![c], tail, 0);
                lemma_digits_val_from_push(pre, c, 0);
                assert(digits_val_from(pre.push(c), 0) == acc * 10 + d) by {
                    assert(pre.push(c) =~= pre + seq![c]);
                }
                assert(digits_val_from(pre + seq![c], 0) == acc * 10 + d) by {
                    assert(pre.push(c) =~= pre + seq![c]);
                }
                lemma_take_digits_all(s@.skip(j as int + 1));
                lemma_digits_val_from_ge(tail, acc * 10 + d);
            }
            return None;
        }
        proof {
            assert(acc * 10 + d <= lim) by (nonlinear_arith)
                requires
                    acc <= (lim - d) / 10,
                    d < 10,
                    lim >= 10,
                    d <= lim,
            ;
            lemma_digits_val_from_push(pre, c, 0);
            assert(pre.push(c) =~= pre + seq![c]);
            assert(pre.push(c) =~= s@.subrange(i as int, j as int + 1));
        }
        acc = acc * 10 + d;
        j = j + 1;
        proof {
            lemma_digits_val_from_concat(s@.subrange(i as int, j as int), Seq::<char>::empty(), 0);
        }
    }
}

proof fn lemma_take_digits_all(s: Seq<char>)
    ensures
        all_digits(take_digits(s)),
    decreases s.len(),
{
    if s.len() > 0 && is_digit(s[0]) {
        lemma_take_digits_all(s.drop_first());
        let t = take_digits(s);
        assert forall|k: int| 0 <= k < t.len() implies is_digit(t[k]) by {
            if k > 0 {
                assert(t[k] == take_digits(s.drop_first())[k - 1]);
            }
        }
    }
}

/// Reads an optionally signed decimal integer at `i`, exactly as
/// [`parse_int`] describes.
pub fn parse_int_chars(s: &Vec<char>, i: usize) -> (r: Option<(i64, usize)>)
    requires
        i <= s.len(),
    ensures
        match r {
            Some((v, j)) => i < j <= s.len() && parse_int(s@.skip(i as int)) == Some(
                (v as int, s@.skip(j as int)),
            ),
            None => parse_int(s@.skip(i as int)) is None,
        },
{
    if i < s.len() && s[i] == '-' {
        proof {
            assert(s@.skip(i as int)[0] == '-');
            assert(s@.skip(i as int).drop_first() =~= s@.skip(i as int + 1));
        }
        match scan_digits(s, i + 1, 0x8000_0000_0000_0000u64) {
            Some((v, j)) => {
                let out: i64 = if v == 0x8000_0000_0000_0000u64 {
                    i64::MIN
                } else {
                    -(v as i64)
                };
                proof {
                    let ds = take_digits(s@.skip(i as int).drop_first());
                    assert(s@.skip(i as int).skip(1 + ds.len() as int) =~= s@.skip(j as int));
                }
                Some((out, j))
            },
            None => None,
        }
    } else {
        proof {
            if s@.skip(i as int).len() > 0 {
                assert(s@.skip(i as int)[0] == s@[i as int]);
            }
        }
        match scan_digits(s, i, 0x7fff_ffff_ffff_ffffu64) {
            Some((v, j)) => {
                proof {
                    let ds = take_digits(s@.skip(i as int));
                    assert(s@.skip(i as int).skip(ds.len() as int) =~= s@.skip(j as int));
                }
                Some((v as i64, j))
            },
            None => None,
        }
    }
}

/// Appends the decimal digits of `m` to `out`.
fn push_dec_digits(m: u64, out: &mut Vec<char>)
    ensures
        final(out)@ == old(out)@ + dec_digits(m as nat),
    decreases m,
{
    if m < 10 {
        out.push((48 + m as u8) as char);
        assert(out@ =~= old(out)@ + dec_digits(m as nat));
    } else {
        push_dec_digits(m / 10, out);
        let d: u8 = (m % 10) as u8;
        out.push((48 + d) as char);
        assert(out@ =~= old(out)@ + dec_digits(m as nat));
    }
}

/// Appends the decimal rendering of `v` to `out`.
pub fn push_dec_i64(v: i64, out: &mut Vec<char>)
    ensures
        final(out)@ == old(out)@ + dec_str(v as int),
{
    if v < 0 {
        out.push('-');
        let wide: i128 = -(v as i128);
        let m: u64 = wide as u64;
        push_dec_digits(m, out);
        assert(out@ =~= old(out)@ + dec_str(v as int));
    } else {
        push_dec_digits(v as u64, out);
    }
}

} // verus!
