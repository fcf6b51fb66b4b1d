//! The search ranker: a pure function from the query text and the
//! snippet list to the same snippets, re-scored and re-ordered.
//!
//! Every whitespace-separated token of the query is fuzzy-matched against
//! a snippet's command and its description; the score is the saturating
//! sum of all those match scores, an unmatched token counting 0. The list
//! is then stably sorted by descending score.
use vstd::prelude::*;
use vstd::string::*;

use crate::{Snippet, SnippetV, views_of};

use fuzzy_matcher::FuzzyMatcher;

verus! {

/// What skim's fuzzy matcher, with its default settings, scores `pattern`
/// against `text`: a relevance score when the pattern matches, nothing
/// otherwise. The score depends on the two texts alone.
pub uninterp spec fn fuzzy_score(text: Seq<char>, pattern: Seq<char>) -> Option<i64>;

/// Relies on fuzzy_matcher's `SkimMatcherV2::default().fuzzy_match`: the
/// score it computes is a pure function of the choice and pattern texts.
#[verifier::external_body]
fn fuzzy_match_exec(text: &str, pattern: &str) -> (r: Option<i64>)
    ensures
        r == fuzzy_score(text@, pattern@),
{
    fuzzy_matcher::skim::SkimMatcherV2::default().fuzzy_match(text, pattern)
}

/// Whitespace for query tokenization.
pub open spec fn is_ws(c: char) -> bool {
    c == ' ' || c == '\t' || c == '\n' || c == '\r' || c == '\u{c}'
}

/// The longest non-whitespace prefix of `s`.
pub open spec fn take_word(s: Seq<char>) -> Seq<char>
    decreases s.len(),
{
    if s.len() > 0 && !is_ws(s[0]) {
        seq![s[0]] + take_word(s.drop_first())
    } else {
        Seq::empty()
    }
}

/// The whitespace-separated tokens of `s`, in order.
pub open spec fn tokens_of(s: Seq<char>) -> Seq<Seq<char>>
    decreases s.len(),
{
    if s.len() == 0 {
        Seq::empty()
    } else if is_ws(s[0]) {
        tokens_of(s.drop_first())
    } else {
        let w = take_word(s);
        if w.len() < s.len() {
            seq![w] + tokens_of(s.skip(w.len() as int))
        } else {
            seq![w]
        }
    }
}

/// The character sequences of a list of strings.
pub open spec fn str_views(l: Seq<String>) -> Seq<Seq<char>> {
    l.map_values(|t: String| t@)
}

fn is_ws_exec(c: char) -> (r: bool)
    ensures
        r == is_ws(c),
{
    c == ' ' || c == '\t' || c == '\n' || c == '\r' || c == '\u{c}'
}

/// Splits the query into its whitespace-separated tokens.
pub fn tokenize(q: &Vec<char>) -> (toks: Vec<String>)
    ensures
        str_views(toks@) == tokens_of(q@),
{
    let mut toks: Vec<String> = Vec::new();
    let mut i: usize = 0;
    let ghost mut i_start: int = 0;
    proof {
        assert(q@.skip(0) =~= q@);
        assert(str_views(toks@) + tokens_of(q@) =~= tokens_of(q@));
    }
    loop
        invariant
            i <= q.len(),
            tokens_of(q@) == str_views(toks@) + tokens_of(q@.skip(i as int)),
        decreases q.len() - i,
    {
        proof {
            i_start = i as int;
        }
        while i < q.len() && is_ws_exec(q[i])
            invariant
                i_start <= i <= q.len(),
                tokens_of(q@) == str_views(toks@) + tokens_of(q@.skip(i as int)),
            decreases q.len() - i,
        {
            proof {
                assert(q@.skip(i as int)[0] == q@[i as int]);
                assert(q@.skip(i as int).drop_first() =~= q@.skip(i as int + 1));
            }
            i += 1;
        }
        if i == q.len() {
            proof {
                assert(tokens_of(q@.skip(i as int)) =~= Seq::<Seq<char>>::empty());
                assert(str_views(toks@) + Seq::<Seq<char>>::empty() =~= str_views(toks@));
            }
            return toks;
        }
        let mut w: Vec<char> = Vec::new();
        let mut j: usize = i;
        proof {
            assert(q@.skip(i as int)[0] == q@[i as int]);
        }
        while j < q.len() && !is_ws_exec(q[j])
            invariant
                i <= j <= q.len(),
                w@ == q@.subrange(i as int, j as int),
                take_word(q@.skip(i as int)) == q@.subrange(i as int, j as int) + take_word(
                    q@.skip(j as int),
                ),
            decreases q.len() - j,
        {
            proof {
                assert(q@.skip(j as int)[0] == q@[j as int]);
                assert(q@.skip(j as int).drop_first() =~= q@.skip(j as int + 1));
                assert(q@.subrange(i as int, j as int) + (seq![q@[j as int]] + take_word(
                    q@.skip(j as int + 1),
                )) =~= q@.subrange(i as int, j as int + 1) + take_word(q@.skip(j as int + 1)));
            }
            w.push(q[j]);
            proof {
                assert(w@ =~= q@.subrange(i as int, j as int + 1));
            }
            j += 1;
        }
        proof {
            if j < q.len() {
                assert(q@.skip(j as int)[0] == q@[j as int]);
            }
            assert(take_word(q@.skip(j as int)) =~= Seq::<char>::empty());
            assert(take_word(q@.skip(i as int)) =~= w@);
        }
        let tok = crate::text::string_of_chars(&w);
        let ghost old_toks = toks@;
        toks.push(tok);
        proof {
            assert(str_views(toks@) =~= str_views(old_toks).push(w@));
            let rem = q@.skip(i as int);
            assert(w@.len() > 0);
            assert(rem.skip(w@.len() as int) =~= q@.skip(j as int));
            if w@.len() < rem.len() {
                assert(tokens_of(rem) == seq![w@] + tokens_of(q@.skip(j as int)));
            } else {
                assert(j == q.len());
                assert(tokens_of(q@.skip(j as int)) =~= Seq::<Seq<char>>::empty());
                assert(tokens_of(rem) =~= seq![w@] + tokens_of(q@.skip(j as int)));
            }
            assert(str_views(old_toks) + (seq![w@] + tokens_of(q@.skip(j as int))) =~= str_views(
                toks@,
            ) + tokens_of(q@.skip(j as int)));
        }
        i = j;
    }
}

/// Addition on scores that sticks at the 64-bit bounds.
pub open spec fn sat_add(a: int, b: int) -> int {
    if a + b > 0x7fff_ffff_ffff_ffff {
        0x7fff_ffff_ffff_ffff
    } else if a + b < -0x8000_0000_0000_0000 {
        -0x8000_0000_0000_0000
    } else {
        a + b
    }
}

fn sat_add_i64(a: i64, b: i64) -> (r: i64)
    ensures
        r as int == sat_add(a as int, b as int),
{
    if b >= 0 {
        if a > i64::MAX - b {
            i64::MAX
        } else {
            a + b
        }
    } else {
        if a < i64::MIN - b {
            i64::MIN
        } else {
            a + b
        }
    }
}

pub open spec fn opt_score(o: Option<i64>) -> int {
    match o {
        Some(v) => v as int,
        None => 0,
    }
}

/// The score a list of tokens adds to `acc` for snippet `sn`: each
/// token's command match and description match, summed saturating.
pub open spec fn score_from(sn: SnippetV, toks: Seq<Seq<char>>, acc: int) -> int
    decreases toks.len(),
{
    if toks.len() == 0 {
        acc
    } else {
        score_from(
            sn,
            toks.drop_first(),
            sat_add(
                sat_add(acc, opt_score(fuzzy_score(sn.cmd, toks[0]))),
                opt_score(fuzzy_score(sn.description, toks[0])),
            ),
        )
    }
}

/// A snippet's relevance score for the given query tokens.
pub open spec fn snippet_score(sn: SnippetV, toks: Seq<Seq<char>>) -> int {
    score_from(sn, toks, 0)
}

fn score_snippet(sn: &Snippet, toks: &Vec<String>) -> (p: i64)
    ensures
        p as int == snippet_score(sn@, str_views(toks@)),
{
    let mut acc: i64 = 0;
    let mut k: usize = 0;
    proof {
        assert(str_views(toks@).skip(0) =~= str_views(toks@));
    }
    while k < toks.len()
        invariant
            k <= toks.len(),
            snippet_score(sn@, str_views(toks@)) == score_from(
                sn@,
                str_views(toks@).skip(k as int),
                acc as int,
            ),
        decreases toks.len() - k,
    {
        proof {
            assert(str_views(toks@).skip(k as int)[0] == toks@[k as int]@);
            assert(str_views(toks@).skip(k as int).drop_first() =~= str_views(toks@).skip(
                k as int + 1,
            ));
        }
        let c_score = match fuzzy_match_exec(sn.cmd.as_str(), toks[k].as_str()) {
            Some(v) => v,
            None => 0,
        };
        acc = sat_add_i64(acc, c_score);
        let d_score = match fuzzy_match_exec(sn.description.as_str(), toks[k].as_str()) {
            Some(v) => v,
            None => 0,
        };
        acc = sat_add_i64(acc, d_score);
        k += 1;
    }
    proof {
        assert(str_views(toks@).skip(toks@.len() as int) =~= Seq::<Seq<char>>::empty());
    }
    acc
}

/// The snippets with their scores replaced by their scores for `toks`.
pub open spec fn rescored(l: Seq<SnippetV>, toks: Seq<Seq<char>>) -> Seq<SnippetV> {
    l.map_values(
        |sn: SnippetV|
            SnippetV {
                priority: snippet_score(sn, toks),
                cmd: sn.cmd,
                description: sn.description,
            },
    )
}

/// `x` placed into `l` before the first strictly lower score, so that an
/// insert of each element in turn is a stable descending sort.
pub open spec fn insert_desc(x: SnippetV, l: Seq<SnippetV>) -> Seq<SnippetV>
    decreases l.len(),
{
    if l.len() == 0 {
        seq![x]
    } else if x.priority > l[0].priority {
        seq![x] + l
    } else {
        seq![l[0]] + insert_desc(x, l.drop_first())
    }
}

/// The list stably sorted by descending score.
pub open spec fn sort_desc(l: Seq<SnippetV>) -> Seq<SnippetV>
    decreases l.len(),
{
    if l.len() == 0 {
        Seq::empty()
    } else {
        insert_desc(l.last(), sort_desc(l.drop_last()))
    }
}

/// The ranked list: every snippet re-scored against the query, then the
/// whole list stably sorted by descending score.
pub open spec fn rank(l: Seq<SnippetV>, q: Seq<char>) -> Seq<SnippetV> {
    sort_desc(rescored(l, tokens_of(q)))
}

proof fn lemma_insert_desc_at(x: SnippetV, l: Seq<SnippetV>, idx: int)
    requires
        0 <= idx <= l.len(),
        forall|k: int| 0 <= k < idx ==> !(x.priority > (#[trigger] l[k]).priority),
        idx < l.len() ==> x.priority > l[idx].priority,
    ensures
        insert_desc(x, l) == l.take(idx) + seq![x] + l.skip(idx),
    decreases l.len(),
{
    if l.len() == 0 {
        assert(insert_desc(x, l) =~= l.take(idx) + seq![x] + l.skip(idx));
    } else if x.priority > l[0].priority {
        assert(idx == 0);
        assert(insert_desc(x, l) =~= l.take(0) + seq![x] + l.skip(0));
    } else {
        assert(idx >= 1);
        lemma_insert_desc_at(x, l.drop_first(), idx - 1);
        assert forall|k: int| 0 <= k < idx - 1 implies !(x.priority > (
        #[trigger] l.drop_first()[k]).priority) by {
            assert(l.drop_first()[k] == l[k + 1]);
        }
        assert(seq![l[0]] + (l.drop_first().take(idx - 1) + seq![x] + l.drop_first().skip(idx - 1))
            =~= l.take(idx) + seq![x] + l.skip(idx));
    }
}

fn insert_sorted_desc(v: &mut Vec<Snippet>, x: Snippet)
    ensures
        views_of(final(v)@) == insert_desc(x@, views_of(old(v)@)),
{
    let mut idx: usize = 0;
    while idx < v.len() && !(x.priority > v[idx].priority)
        invariant
            idx <= v.len(),
            v@ == old(v)@,
            forall|k: int| 0 <= k < idx ==> !(x@.priority > (#[trigger] views_of(v@)[k]).priority),
        decreases v.len() - idx,
    {
        idx += 1;
    }
    proof {
        lemma_insert_desc_at(x@, views_of(v@), idx as int);
    }
    let ghost pre = v@;
    v.insert(idx, x);
    proof {
        assert(v@ =~= pre.take(idx as int) + seq![x] + pre.skip(idx as int));
        assert(views_of(v@) =~= views_of(pre).take(idx as int) + seq![x@] + views_of(pre).skip(
            idx as int,
        ));
    }
}

fn sort_by_priority(v: &mut Vec<Snippet>)
    ensures
        views_of(final(v)@) == sort_desc(views_of(old(v)@)),
{
    let ghost orig = old(v)@;
    let n0 = v.len();
    proof {
        assert(orig.len() == n0 as int);
    }
    let mut out: Vec<Snippet> = Vec::new();
    let mut k: usize = 0;
    proof {
        assert(views_of(Seq::<Snippet>::empty()) =~= Seq::<SnippetV>::empty());
        assert(views_of(orig.take(0)) =~= Seq::<SnippetV>::empty());
        assert(sort_desc(views_of(orig.take(0))) =~= Seq::<SnippetV>::empty());
    }
    while v.len() > 0
        invariant
            orig.len() <= usize::MAX,
            k == orig.len() - v@.len(),
            0 <= k <= orig.len(),
            v@ == orig.skip(k as int),
            views_of(out@) == sort_desc(views_of(orig.take(k as int))),
        decreases v@.len(),
    {
        let x = v.remove(0);
        proof {
            assert(x == orig[k as int]);
            assert(v@ =~= orig.skip(k as int + 1));
        }
        insert_sorted_desc(&mut out, x);
        proof {
            let pv = views_of(orig.take(k as int));
            let pv1 = views_of(orig.take(k as int + 1));
            assert(pv1.drop_last() =~= pv);
            assert(pv1.last() == orig[k as int]@);
            assert(sort_desc(pv1) == insert_desc(orig[k as int]@, sort_desc(pv)));
        }
        k += 1;
    }
    proof {
        assert(orig.take(orig.len() as int) =~= orig);
    }
    *v = out;
}

/// Re-scores every snippet against the query and stably sorts the list
/// by descending score: the ranked list is exactly [`rank`] of the old
/// list and the query.
pub fn rank_snippets(v: &mut Vec<Snippet>, query: &str)
    ensures
        views_of(final(v)@) == rank(views_of(old(v)@), query@),
{
    let q = crate::text::chars_of_str(query);
    let toks = tokenize(&q);
    let ghost tv = tokens_of(query@);
    let mut k: usize = 0;
    while k < v.len()
        invariant
            k <= v@.len(),
            v@.len() == old(v)@.len(),
            str_views(toks@) == tv,
            forall|j: int| k <= j < v@.len() ==> v@[j] == old(v)@[j],
            forall|j: int|
                0 <= j < k ==> (#[trigger] v@[j])@ == (SnippetV {
                    priority: snippet_score(old(v)@[j]@, tv),
                    cmd: old(v)@[j]@.cmd,
                    description: old(v)@[j]@.description,
                }),
        decreases v@.len() - k,
    {
        let p = score_snippet(&v[k], &toks);
        let sn = Snippet {
            priority: p,
            cmd: v[k].cmd.clone(),
            description: v[k].description.clone(),
        };
        v.set(k, sn);
        k += 1;
    }
    proof {
        assert(views_of(v@) =~= rescored(views_of(old(v)@), tv));
    }
    sort_by_priority(v);
}

/// Ranking is deterministic: the ranked list is a function of the query
/// and the snippet list alone, so ranking the same list against the same
/// query twice gives identical scores and order.
pub proof fn lemma_rank_deterministic(
    l1: Seq<SnippetV>,
    l2: Seq<SnippetV>,
    q1: Seq<char>,
    q2: Seq<char>,
)
    requires
        l1 == l2,
        q1 == q2,
    ensures
        rank(l1, q1) == rank(l2, q2),
{
}

proof fn lemma_sat_add_mono(a1: int, b1: int, a2: int, b2: int)
    requires
        a1 >= a2,
        b1 >= b2,
    ensures
        sat_add(a1, b1) >= sat_add(a2, b2),
{
}

proof fn lemma_score_from_mono(a: SnippetV, b: SnippetV, toks: Seq<Seq<char>>, acc_a: int, acc_b: int)
    requires
        acc_a >= acc_b,
        forall|k: int|
            0 <= k < toks.len() ==> opt_score(fuzzy_score(a.cmd, #[trigger] toks[k])) >= opt_score(
                fuzzy_score(b.cmd, toks[k]),
            ) && opt_score(fuzzy_score(a.description, toks[k])) >= opt_score(
                fuzzy_score(b.description, toks[k]),
            ),
    ensures
        score_from(a, toks, acc_a) >= score_from(b, toks, acc_b),
    decreases toks.len(),
{
    if toks.len() > 0 {
        lemma_sat_add_mono(
            acc_a,
            opt_score(fuzzy_score(a.cmd, toks[0])),
            acc_b,
            opt_score(fuzzy_score(b.cmd, toks[0])),
        );
        lemma_sat_add_mono(
            sat_add(acc_a, opt_score(fuzzy_score(a.cmd, toks[0]))),
            opt_score(fuzzy_score(a.description, toks[0])),
            sat_add(acc_b, opt_score(fuzzy_score(b.cmd, toks[0]))),
            opt_score(fuzzy_score(b.description, toks[0])),
        );
        assert forall|k: int| 0 <= k < toks.drop_first().len() implies opt_score(
            fuzzy_score(a.cmd, #[trigger] toks.drop_first()[k]),
        ) >= opt_score(fuzzy_score(b.cmd, toks.drop_first()[k])) && opt_score(
            fuzzy_score(a.description, toks.drop_first()[k]),
        ) >= opt_score(fuzzy_score(b.description, toks.drop_first()[k])) by {
            assert(toks.drop_first()[k] == toks[k + 1]);
        }
        lemma_score_from_mono(
            a,
            b,
            toks.drop_first(),
            sat_add(
                sat_add(acc_a, opt_score(fuzzy_score(a.cmd, toks[0]))),
                opt_score(fuzzy_score(a.description, toks[0])),
            ),
            sat_add(
                sat_add(acc_b, opt_score(fuzzy_score(b.cmd, toks[0]))),
                opt_score(fuzzy_score(b.description, toks[0])),
            ),
        );
    }
}

/// Ranking is monotonic in the match scores: a snippet whose command and
/// description match every query token at least as well as another
/// snippet's do scores at least as high against that query.
pub proof fn lemma_score_monotonic(a: SnippetV, b: SnippetV, q: Seq<char>)
    requires
        forall|k: int|
            0 <= k < tokens_of(q).len() ==> opt_score(
                fuzzy_score(a.cmd, #[trigger] tokens_of(q)[k]),
            ) >= opt_score(fuzzy_score(b.cmd, tokens_of(q)[k])) && opt_score(
                fuzzy_score(a.description, tokens_of(q)[k]),
            ) >= opt_score(fuzzy_score(b.description, tokens_of(q)[k])),
    ensures
        snippet_score(a, tokens_of(q)) >= snippet_score(b, tokens_of(q)),
{
    lemma_score_from_mono(a, b, tokens_of(q), 0, 0);
}

/// Whether the scores in `l` never increase from one entry to the next.
pub open spec fn sorted_desc(l: Seq<SnippetV>) -> bool {
    forall|i: int, j: int| 0 <= i < j < l.len() ==> (#[trigger] l[i]).priority >= (
    #[trigger] l[j]).priority
}

proof fn lemma_insert_desc_bound(x: SnippetV, l: Seq<SnippetV>, bound: int)
    requires
        x.priority <= bound,
        forall|k: int| 0 <= k < l.len() ==> (#[trigger] l[k]).priority <= bound,
    ensures
        forall|j: int|
            0 <= j < insert_desc(x, l).len() ==> (#[trigger] insert_desc(x, l)[j]).priority
                <= bound,
    decreases l.len(),
{
    if l.len() == 0 {
        assert(insert_desc(x, l) =~= seq![x]);
    } else if x.priority > l[0].priority {
        let r = seq![x] + l;
        assert forall|j: int| 0 <= j < r.len() implies (#[trigger] r[j]).priority <= bound by {
            if j > 0 {
                assert(r[j] == l[j - 1]);
            }
        }
    } else {
        assert forall|k: int| 0 <= k < l.drop_first().len() implies (
        #[trigger] l.drop_first()[k]).priority <= bound by {
            assert(l.drop_first()[k] == l[k + 1]);
        }
        lemma_insert_desc_bound(x, l.drop_first(), bound);
        let inner = insert_desc(x, l.drop_first());
        let r = seq![l[0]] + inner;
        assert forall|j: int| 0 <= j < r.len() implies (#[trigger] r[j]).priority <= bound by {
            if j > 0 {
                assert(r[j] == inner[j - 1]);
            }
        }
    }
}

proof fn lemma_insert_desc_sorted(x: SnippetV, l: Seq<SnippetV>)
    requires
        sorted_desc(l),
    ensures
        sorted_desc(insert_desc(x, l)),
        insert_desc(x, l).len() == l.len() + 1,
        insert_desc(x, l).to_multiset() == l.to_multiset().insert(x),
    decreases l.len(),
{
    broadcast use vstd::seq_lib::group_to_multiset_ensures;

    if l.len() == 0 {
        assert(insert_desc(x, l) =~= Seq::<SnippetV>::empty().push(x));
        assert(l =~= Seq::<SnippetV>::empty());
    } else if x.priority > l[0].priority {
        let r = seq![x] + l;
        assert forall|i: int, j: int| 0 <= i < j < r.len() implies (#[trigger] r[i]).priority >= (
        #[trigger] r[j]).priority by {
            assert(r[j] == l[j - 1]);
            if i > 0 {
                assert(r[i] == l[i - 1]);
            } else {
                if j > 1 {
                    assert(l[0].priority >= l[j - 1].priority);
                }
            }
        }
        assert(r =~= l.insert(0, x));
    } else {
        assert forall|i: int, j: int| 0 <= i < j < l.drop_first().len() implies (
        #[trigger] l.drop_first()[i]).priority >= (#[trigger] l.drop_first()[j]).priority by {
            assert(l.drop_first()[i] == l[i + 1] && l.drop_first()[j] == l[j + 1]);
        }
        lemma_insert_desc_sorted(x, l.drop_first());
        assert forall|k: int| 0 <= k < l.drop_first().len() implies (
        #[trigger] l.drop_first()[k]).priority <= l[0].priority by {
            assert(l.drop_first()[k] == l[k + 1]);
        }
        lemma_insert_desc_bound(x, l.drop_first(), l[0].priority);
        let inner = insert_desc(x, l.drop_first());
        let r = seq![l[0]] + inner;
        assert forall|i: int, j: int| 0 <= i < j < r.len() implies (#[trigger] r[i]).priority >= (
        #[trigger] r[j]).priority by {
            assert(r[j] == inner[j - 1]);
            if i > 0 {
                assert(r[i] == inner[i - 1]);
            }
        }
        assert(r =~= inner.insert(0, l[0]));
        assert(l =~= l.drop_first().insert(0, l[0]));
        assert(r.to_multiset() == l.drop_first().to_multiset().insert(x).insert(l[0]));
        assert(l.to_multiset() == l.drop_first().to_multiset().insert(l[0]));
        assert(l.drop_first().to_multiset().insert(x).insert(l[0])
            =~= l.drop_first().to_multiset().insert(l[0]).insert(x));
    }
}

/// Sorting by descending score yields a list that is sorted that way and
/// holds exactly the same snippets.
pub proof fn lemma_sort_desc_sorted(l: Seq<SnippetV>)
    ensures
        sorted_desc(sort_desc(l)),
        sort_desc(l).len() == l.len(),
        sort_desc(l).to_multiset() == l.to_multiset(),
    decreases l.len(),
{
    broadcast use vstd::seq_lib::group_to_multiset_ensures;

    if l.len() == 0 {
        assert(sort_desc(l) =~= Seq::<SnippetV>::empty());
        assert(l.to_multiset() =~= Seq::<SnippetV>::empty().to_multiset());
    } else {
        lemma_sort_desc_sorted(l.drop_last());
        lemma_insert_desc_sorted(l.last(), sort_desc(l.drop_last()));
        assert(l =~= l.drop_last().push(l.last()));
    }
}

} // verus!