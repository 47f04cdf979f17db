//! The ranking engine: building the catalog and resolving it against the
//! live query. A query is trimmed; an empty query yields the head of the
//! catalog unscored; otherwise every title is fuzzy-scored against the
//! query, a calculator entry is synthesized when the query evaluates as an
//! arithmetic expression, and the merged list is ordered by a stable
//! descending sort and truncated to the configured bound.

use vstd::prelude::*;
use vstd::string::StrSliceExecFns;
use crate::calc::{calc_query, is_op, spec_calc, spec_is_op, spec_is_space, spec_skip_ws};
use crate::calc::{is_space, string_from_chars};
use crate::config::Config;
use crate::entry::{AppDescriptor, Entry, EntryKindView, EntryView, SystemAction};
use crate::entry::{spec_action_entry, spec_app_entry, spec_calc_entry};

verus! {

/// The models of a sequence of entries.
pub open spec fn views_of(s: Seq<Entry>) -> Seq<EntryView> {
    s.map_values(|e: Entry| e@)
}

/// The characters of a string slice.
fn str_to_chars(s: &str) -> (r: Vec<char>)
    ensures
        r@ == s@,
{
    let n = s.unicode_len();
    let mut v: Vec<char> = Vec::new();
    let mut i: usize = 0;
    while i < n
        invariant
            i <= n,
            n == s@.len(),
            v@ == s@.take(i as int),
        decreases n - i,
    {
        v.push(s.get_char(i));
        i = i + 1;
        proof {
            assert(v@ =~= s@.take(i as int));
        }
    }
    proof {
        assert(v@ =~= s@);
    }
    v
}

/// The first position from `h` leftward whose predecessor is not a space.
pub open spec fn spec_ws_end(s: Seq<char>, h: int) -> int
    decreases h,
{
    if 0 < h <= s.len() && spec_is_space(s[h - 1]) {
        spec_ws_end(s, h - 1)
    } else {
        h
    }
}

/// The query with leading and trailing spaces removed.
pub open spec fn spec_trim(s: Seq<char>) -> Seq<char> {
    let lo = spec_skip_ws(s, 0);
    let hi = spec_ws_end(s, s.len() as int);
    if lo <= hi {
        s.subrange(lo, hi)
    } else {
        Seq::empty()
    }
}

proof fn lemma_skip_ws_props(s: Seq<char>, i: int)
    requires
        0 <= i <= s.len(),
    ensures
        i <= spec_skip_ws(s, i) <= s.len(),
        forall|k: int| i <= k < spec_skip_ws(s, i) ==> spec_is_space(s[k]),
        spec_skip_ws(s, i) < s.len() ==> !spec_is_space(s[spec_skip_ws(s, i)]),
    decreases s.len() - i,
{
    if i < s.len() && spec_is_space(s[i]) {
        lemma_skip_ws_props(s, i + 1);
    }
}

proof fn lemma_ws_end_props(s: Seq<char>, h: int)
    requires
        0 <= h <= s.len(),
    ensures
        0 <= spec_ws_end(s, h) <= h,
        forall|k: int| spec_ws_end(s, h) <= k < h ==> spec_is_space(s[k]),
        spec_ws_end(s, h) > 0 ==> !spec_is_space(s[spec_ws_end(s, h) - 1]),
    decreases h,
{
    if 0 < h && spec_is_space(s[h - 1]) {
        lemma_ws_end_props(s, h - 1);
    }
}

/// A query that trims to nothing holds only spaces.
pub proof fn lemma_trim_empty_all_space(s: Seq<char>)
    requires
        spec_trim(s).len() == 0,
    ensures
        spec_skip_ws(s, 0) == s.len(),
{
    lemma_skip_ws_props(s, 0);
    lemma_ws_end_props(s, s.len() as int);
    let lo = spec_skip_ws(s, 0);
    let hi = spec_ws_end(s, s.len() as int);
    if lo < s.len() {
        if lo <= hi {
            assert(hi - lo == 0);
            assert(spec_is_space(s[lo]));
        } else {
            assert(hi <= lo < s.len());
            assert(spec_is_space(s[lo]));
        }
        assert(false);
    }
}

fn trim_chars(s: &Vec<char>) -> (r: Vec<char>)
    ensures
        r@ == spec_trim(s@),
{
    proof {
        lemma_skip_ws_props(s@, 0);
        lemma_ws_end_props(s@, s@.len() as int);
    }
    let mut hi: usize = s.len();
    while hi > 0 && is_space(s[hi - 1])
        invariant
            hi <= s@.len(),
            spec_ws_end(s@, s@.len() as int) == spec_ws_end(s@, hi as int),
        decreases hi,
    {
        hi = hi - 1;
    }
    assert(spec_ws_end(s@, s@.len() as int) == hi as int);
    let mut lo: usize = 0;
    while lo < hi && is_space(s[lo])
        invariant
            lo <= hi <= s@.len(),
            spec_skip_ws(s@, 0) >= lo,
            forall|k: int| 0 <= k < lo ==> spec_is_space(s@[k]),
        decreases hi - lo,
    {
        proof {
            lemma_skip_ws_props(s@, 0);
            if spec_skip_ws(s@, 0) == lo as int {
                assert(spec_is_space(s@[lo as int]));
            }
        }
        lo = lo + 1;
    }
    proof {
        if lo < hi {
            assert(!spec_is_space(s@[lo as int]));
            assert(spec_skip_ws(s@, 0) <= lo as int) by {
                if spec_skip_ws(s@, 0) > lo as int {
                    assert(spec_is_space(s@[lo as int]));
                }
            }
            assert(spec_skip_ws(s@, 0) == lo as int);
        } else {
            // everything before `hi` is space, and everything from `hi` on is
            // space, so the whole query is space
            assert(forall|k: int| 0 <= k < s@.len() ==> spec_is_space(s@[k]));
            if spec_skip_ws(s@, 0) < s@.len() {
                assert(!spec_is_space(s@[spec_skip_ws(s@, 0)]));
            }
            assert(spec_skip_ws(s@, 0) == s@.len());
            assert(spec_trim(s@) =~= Seq::<char>::empty());
        }
    }
    let mut out: Vec<char> = Vec::new();
    let mut j = lo;
    while j < hi
        invariant
            lo <= j <= hi <= s@.len(),
            out@ == s@.subrange(lo as int, j as int),
        decreases hi - j,
    {
        out.push(s[j]);
        j = j + 1;
        proof {
            assert(out@ =~= s@.subrange(lo as int, j as int));
        }
    }
    proof {
        if lo < hi {
            assert(out@ =~= spec_trim(s@));
        } else {
            assert(out@ =~= Seq::<char>::empty());
        }
    }
    out
}

/// The score the fuzzy matcher assigns to a title for a query, or nothing
/// when the title is no match. The matcher is deterministic: the score is a
/// function of the two strings alone.
pub uninterp spec fn fuzzy_score(title: Seq<char>, query: Seq<char>) -> Option<i64>;

/// Relies on fuzzy_matcher's `SkimMatcherV2` under its default
/// configuration: `fuzzy_match` computes its score from the two strings
/// alone (its thread-local caches only reuse allocations), so the score can
/// be named as a function of them.
#[verifier::external_body]
fn fuzzy_match_score(title: &str, query: &str) -> (r: Option<i64>)
    ensures
        r == fuzzy_score(title@, query@),
{
    let matcher = fuzzy_matcher::skim::SkimMatcherV2::default();
    fuzzy_matcher::FuzzyMatcher::fuzzy_match(&matcher, title, query)
}

/// A catalog entry together with its fuzzy score, while a ranking is being
/// merged.
pub struct Scored {
    pub score: i64,
    pub entry: Entry,
}

/// Mathematical model of a [`Scored`] entry.
pub ghost struct ScoredV {
    pub score: int,
    pub entry: EntryView,
}

impl View for Scored {
    type V = ScoredV;

    open spec fn view(&self) -> ScoredV {
        ScoredV { score: self.score as int, entry: self.entry@ }
    }
}

impl Clone for Scored {
    fn clone(&self) -> (r: Self)
        ensures
            r == *self,
    {
        Scored { score: self.score, entry: self.entry.clone() }
    }
}

/// The models of a sequence of scored entries.
pub open spec fn scored_views(s: Seq<Scored>) -> Seq<ScoredV> {
    s.map_values(|x: Scored| x@)
}

/// The catalog entries that match the query, in catalog order, each with
/// its score.
pub open spec fn spec_scored(catalog: Seq<EntryView>, q: Seq<char>) -> Seq<ScoredV>
    decreases catalog.len(),
{
    if catalog.len() == 0 {
        Seq::empty()
    } else {
        let prev = spec_scored(catalog.drop_last(), q);
        match fuzzy_score(catalog.last().title, q) {
            Some(sc) => prev.push(ScoredV { score: sc as int, entry: catalog.last() }),
            None => prev,
        }
    }
}

/// Insertion into a descending run: the new element goes after every
/// element whose score is at least its own, so that elements arriving later
/// never overtake an equal score.
pub open spec fn spec_insert_desc(s: Seq<ScoredV>, x: ScoredV) -> Seq<ScoredV>
    decreases s.len(),
{
    if s.len() == 0 {
        seq![x]
    } else if x.score <= s.first().score {
        seq![s.first()] + spec_insert_desc(s.drop_first(), x)
    } else {
        seq![x] + s
    }
}

/// Stable descending sort by score: insertion of each element, in order,
/// into the sorted run of the ones before it.
pub open spec fn spec_sort_desc(s: Seq<ScoredV>) -> Seq<ScoredV>
    decreases s.len(),
{
    if s.len() == 0 {
        Seq::empty()
    } else {
        spec_insert_desc(spec_sort_desc(s.drop_last()), s.last())
    }
}

/// Insertion adds exactly one element.
pub proof fn lemma_insert_desc_len(s: Seq<ScoredV>, x: ScoredV)
    ensures
        spec_insert_desc(s, x).len() == s.len() + 1,
    decreases s.len(),
{
    if s.len() > 0 && x.score <= s.first().score {
        lemma_insert_desc_len(s.drop_first(), x);
    }
}

/// Sorting permutes: the length is kept.
pub proof fn lemma_sort_desc_len(s: Seq<ScoredV>)
    ensures
        spec_sort_desc(s).len() == s.len(),
    decreases s.len(),
{
    if s.len() > 0 {
        lemma_sort_desc_len(s.drop_last());
        lemma_insert_desc_len(spec_sort_desc(s.drop_last()), s.last());
    }
}

/// Scores never increase along the run.
pub open spec fn sorted_desc(s: Seq<ScoredV>) -> bool {
    forall|i: int, j: int| 0 <= i <= j < s.len() ==> s[i].score >= s[j].score
}

/// The predicate selecting the entries of one score level.
pub open spec fn has_score(c: int) -> spec_fn(ScoredV) -> bool {
    |y: ScoredV| y.score == c
}

proof fn lemma_insert_desc_bound(s: Seq<ScoredV>, x: ScoredV, b: int)
    requires
        forall|m: int| 0 <= m < s.len() ==> (#[trigger] s[m]).score <= b,
        x.score <= b,
    ensures
        forall|m: int|
            0 <= m < spec_insert_desc(s, x).len() ==> (#[trigger] spec_insert_desc(s, x)[m]).score
                <= b,
    decreases s.len(),
{
    if s.len() > 0 && x.score <= s.first().score {
        assert(forall|m: int|
            0 <= m < s.drop_first().len() ==> (#[trigger] s.drop_first()[m]).score <= b);
        lemma_insert_desc_bound(s.drop_first(), x, b);
    }
}

/// Inserting into a descending run keeps it descending.
pub proof fn lemma_insert_desc_sorted(s: Seq<ScoredV>, x: ScoredV)
    requires
        sorted_desc(s),
    ensures
        sorted_desc(spec_insert_desc(s, x)),
    decreases s.len(),
{
    if s.len() == 0 {
    } else if x.score <= s.first().score {
        assert(sorted_desc(s.drop_first()));
        lemma_insert_desc_sorted(s.drop_first(), x);
        assert(forall|m: int|
            0 <= m < s.drop_first().len() ==> (#[trigger] s.drop_first()[m]).score <= s.first().score);
        lemma_insert_desc_bound(s.drop_first(), x, s.first().score);
    }
}

/// Every sorted run is descending: what the sort promises of its order.
pub proof fn lemma_sort_desc_sorted(s: Seq<ScoredV>)
    ensures
        sorted_desc(spec_sort_desc(s)),
    decreases s.len(),
{
    if s.len() > 0 {
        lemma_sort_desc_sorted(s.drop_last());
        lemma_insert_desc_sorted(spec_sort_desc(s.drop_last()), s.last());
    }
}

proof fn lemma_insert_desc_multiset(s: Seq<ScoredV>, x: ScoredV)
    ensures
        spec_insert_desc(s, x).to_multiset() == s.to_multiset().insert(x),
    decreases s.len(),
{
    broadcast use vstd::seq_lib::group_to_multiset_ensures;

    if s.len() == 0 {
        assert(spec_insert_desc(s, x) =~= Seq::<ScoredV>::empty().push(x));
    } else if x.score <= s.first().score {
        lemma_insert_desc_multiset(s.drop_first(), x);
        vstd::seq_lib::lemma_multiset_commutative(seq![s.first()], spec_insert_desc(
            s.drop_first(),
            x,
        ));
        vstd::seq_lib::lemma_multiset_commutative(seq![s.first()], s.drop_first());
        assert(s =~= seq![s.first()] + s.drop_first());
        assert(spec_insert_desc(s, x).to_multiset() =~= s.to_multiset().insert(x));
    } else {
        vstd::seq_lib::lemma_multiset_commutative(seq![x], s);
        assert(spec_insert_desc(s, x).to_multiset() =~= s.to_multiset().insert(x));
    }
}

/// The sort only reorders: the sorted run holds exactly the scored entries
/// it was given.
pub proof fn lemma_sort_desc_permutes(s: Seq<ScoredV>)
    ensures
        spec_sort_desc(s).to_multiset() == s.to_multiset(),
    decreases s.len(),
{
    broadcast use vstd::seq_lib::group_to_multiset_ensures;

    if s.len() > 0 {
        lemma_sort_desc_permutes(s.drop_last());
        lemma_insert_desc_multiset(spec_sort_desc(s.drop_last()), s.last());
        assert(s =~= s.drop_last().push(s.last()));
        assert(spec_sort_desc(s).to_multiset() =~= s.to_multiset());
    }
}

proof fn lemma_filter_score_none(t: Seq<ScoredV>, c: int)
    requires
        forall|m: int| 0 <= m < t.len() ==> (#[trigger] t[m]).score != c,
    ensures
        t.filter(has_score(c)) == Seq::<ScoredV>::empty(),
    decreases t.len(),
{
    reveal(Seq::filter);
    if t.len() > 0 {
        assert(forall|m: int|
            0 <= m < t.drop_last().len() ==> (#[trigger] t.drop_last()[m]).score != c);
        lemma_filter_score_none(t.drop_last(), c);
        assert(t.last() == t[t.len() - 1]);
    }
}

proof fn lemma_insert_desc_stable(t: Seq<ScoredV>, x: ScoredV, c: int)
    requires
        sorted_desc(t),
    ensures
        spec_insert_desc(t, x).filter(has_score(c)) == if x.score == c {
            t.filter(has_score(c)).push(x)
        } else {
            t.filter(has_score(c))
        },
    decreases t.len(),
{
    reveal_with_fuel(Seq::filter, 3);
    let pred = has_score(c);
    if t.len() == 0 {
        assert(seq![x].drop_last() =~= Seq::<ScoredV>::empty());
        assert(spec_insert_desc(t, x) =~= seq![x]);
        if x.score == c {
            assert(seq![x].filter(pred) =~= t.filter(pred).push(x));
        } else {
            assert(seq![x].filter(pred) =~= t.filter(pred));
        }
    } else if x.score <= t.first().score {
        assert(sorted_desc(t.drop_first()));
        lemma_insert_desc_stable(t.drop_first(), x, c);
        Seq::filter_distributes_over_add(seq![t.first()], spec_insert_desc(t.drop_first(), x), pred);
        Seq::filter_distributes_over_add(seq![t.first()], t.drop_first(), pred);
        assert(t =~= seq![t.first()] + t.drop_first());
        if x.score == c {
            Seq::push_distributes_over_add(
                seq![t.first()].filter(pred),
                t.drop_first().filter(pred),
                x,
            );
        }
    } else {
        // the new element outranks the whole run
        Seq::filter_distributes_over_add(seq![x], t, pred);
        if x.score == c {
            assert(forall|m: int| 0 <= m < t.len() ==> (#[trigger] t[m]).score != c) by {
                assert(forall|m: int|
                    0 <= m < t.len() ==> (#[trigger] t[m]).score <= t.first().score);
            }
            lemma_filter_score_none(t, c);
            assert(seq![x].drop_last() =~= Seq::<ScoredV>::empty());
            assert(seq![x].filter(pred) =~= seq![x]);
            assert(spec_insert_desc(t, x).filter(pred) =~= t.filter(pred).push(x));
        } else {
            assert(seq![x].drop_last() =~= Seq::<ScoredV>::empty());
            assert(seq![x].filter(pred) =~= Seq::<ScoredV>::empty());
            assert(spec_insert_desc(t, x).filter(pred) =~= t.filter(pred));
        }
    }
}

/// The sort is stable: at every score level, the sorted run lists the
/// entries of that score exactly as the input did, so ties keep their
/// catalog order.
pub proof fn lemma_sort_desc_stable(s: Seq<ScoredV>, c: int)
    ensures
        spec_sort_desc(s).filter(has_score(c)) == s.filter(has_score(c)),
    decreases s.len(),
{
    reveal_with_fuel(Seq::filter, 3);
    if s.len() > 0 {
        lemma_sort_desc_stable(s.drop_last(), c);
        lemma_sort_desc_sorted(s.drop_last());
        lemma_insert_desc_stable(spec_sort_desc(s.drop_last()), s.last(), c);
    }
}

/// Where the first strictly smaller score sits is where insertion lands.
proof fn lemma_insert_desc_at(s: Seq<ScoredV>, x: ScoredV, p: int)
    requires
        0 <= p <= s.len(),
        forall|k: int| 0 <= k < p ==> s[k].score >= x.score,
        p < s.len() ==> s[p].score < x.score,
    ensures
        spec_insert_desc(s, x) == s.take(p) + seq![x] + s.skip(p),
    decreases s.len(),
{
    if s.len() == 0 {
        assert(spec_insert_desc(s, x) =~= s.take(p) + seq![x] + s.skip(p));
    } else if p == 0 {
        assert(s[0].score < x.score);
        assert(spec_insert_desc(s, x) =~= s.take(p) + seq![x] + s.skip(p));
    } else {
        lemma_insert_desc_at(s.drop_first(), x, p - 1);
        assert(s.drop_first().take(p - 1) =~= s.take(p).drop_first());
        assert(s.drop_first().skip(p - 1) =~= s.skip(p));
        assert(spec_insert_desc(s, x) =~= s.take(p) + seq![x] + s.skip(p));
    }
}

fn sorted_insert(out: &mut Vec<Scored>, x: Scored)
    ensures
        scored_views(final (out)@) == spec_insert_desc(scored_views(old(out)@), x@),
{
    let mut p: usize = 0;
    while p < out.len() && out[p].score >= x.score
        invariant
            p <= out@.len(),
            forall|k: int| 0 <= k < p ==> out@[k]@.score >= x@.score,
        decreases out@.len() - p,
    {
        p = p + 1;
    }
    let ghost before = scored_views(out@);
    let ghost gp = p as int;
    out.insert(p, x);
    proof {
        lemma_insert_desc_at(before, x@, gp);
        assert(scored_views(out@) =~= before.take(gp) + seq![x@] + before.skip(gp));
    }
}

fn sort_scored(input: &Vec<Scored>) -> (out: Vec<Scored>)
    ensures
        scored_views(out@) == spec_sort_desc(scored_views(input@)),
{
    let mut out: Vec<Scored> = Vec::new();
    let mut i: usize = 0;
    while i < input.len()
        invariant
            i <= input@.len(),
            scored_views(out@) == spec_sort_desc(scored_views(input@.take(i as int))),
        decreases input@.len() - i,
    {
        let x = input[i].clone();
        sorted_insert(&mut out, x);
        i = i + 1;
        proof {
            let pre = input@.take(i as int);
            assert(pre.drop_last() =~= input@.take(i as int - 1));
            assert(scored_views(pre).drop_last() =~= scored_views(pre.drop_last()));
            assert(scored_views(pre).last() == input@[i as int - 1]@);
            assert(scored_views(pre) =~= scored_views(pre.drop_last()).push(
                input@[i as int - 1]@,
            ));
        }
    }
    proof {
        assert(input@.take(input@.len() as int) =~= input@);
    }
    out
}

/// The rendered calculator title for the query, by the two evaluation
/// attempts of the ranking engine: the whole query first; if that fails and
/// the trimmed query ends in an operator or parenthesis, the query with that
/// trailing character removed. The two attempts are mutually exclusive per
/// call.
pub open spec fn spec_calc_candidate(query: Seq<char>) -> Option<Seq<char>> {
    match spec_calc(query) {
        Some(t) => Some(t),
        None => {
            let tq = spec_trim(query);
            if tq.len() > 0 && spec_is_op(tq.last()) {
                spec_calc(tq.drop_last())
            } else {
                None
            }
        },
    }
}

fn calc_candidate(q: &Vec<char>, trimmed: &Vec<char>) -> (r: Option<String>)
    requires
        trimmed@ == spec_trim(q@),
    ensures
        match r {
            Some(t) => spec_calc_candidate(q@) == Some(t@),
            None => spec_calc_candidate(q@) is None,
        },
{
    match calc_query(q) {
        Some(t) => Some(t),
        None => {
            if trimmed.len() > 0 && is_op(trimmed[trimmed.len() - 1]) {
                let mut prefix: Vec<char> = Vec::new();
                let mut i: usize = 0;
                while i < trimmed.len() - 1
                    invariant
                        trimmed@.len() > 0,
                        i <= trimmed@.len() - 1,
                        prefix@ == trimmed@.take(i as int),
                    decreases trimmed@.len() - 1 - i,
                {
                    prefix.push(trimmed[i]);
                    i = i + 1;
                    proof {
                        assert(prefix@ =~= trimmed@.take(i as int));
                    }
                }
                proof {
                    assert(prefix@ =~= trimmed@.drop_last());
                }
                calc_query(&prefix)
            } else {
                None
            }
        },
    }
}

/// The fuzzy-matched catalog entries, best scores first, equal scores in
/// catalog order.
pub open spec fn spec_fuzzy_ranked(catalog: Seq<EntryView>, tq: Seq<char>) -> Seq<EntryView> {
    spec_sort_desc(spec_scored(catalog, tq)).map_values(|x: ScoredV| x.entry)
}

/// What resolving the catalog against a query returns, bounded by `k`
/// entries. An empty (all-space) query yields the head of the catalog in
/// catalog order; any other query yields the synthesized calculator entry,
/// when there is one, followed by the fuzzy-matched entries in descending
/// score order. The calculator entry precedes every fuzzy match by kind,
/// not by a numeric override, so no fuzzy score can collide with it.
pub open spec fn spec_resolve(catalog: Seq<EntryView>, query: Seq<char>, k: int) -> Seq<
    EntryView,
> {
    let tq = spec_trim(query);
    if tq.len() == 0 {
        if k <= catalog.len() {
            catalog.take(k)
        } else {
            catalog
        }
    } else {
        let ranked = match spec_calc_candidate(query) {
            Some(t) => seq![spec_calc_entry(t)] + spec_fuzzy_ranked(catalog, tq),
            None => spec_fuzzy_ranked(catalog, tq),
        };
        if k <= ranked.len() {
            ranked.take(k)
        } else {
            ranked
        }
    }
}

/// The ranked, length-bounded result list for the query: the first `k`
/// catalog entries when the query is empty, else the calculator entry (when
/// the query evaluates) followed by the fuzzy matches in descending score
/// order, equal scores in catalog order.
pub fn top_matches(entries: &Vec<Entry>, query: &str, k: usize) -> (r: Vec<Entry>)
    ensures
        views_of(r@) == spec_resolve(views_of(entries@), query@, k as int),
        r@.len() <= k,
{
    let qchars = str_to_chars(query);
    let trimmed = trim_chars(&qchars);
    if trimmed.len() == 0 {
        let mut out: Vec<Entry> = Vec::new();
        let mut i: usize = 0;
        while i < entries.len() && i < k
            invariant
                i <= entries@.len(),
                i <= k,
                out@ == entries@.take(i as int),
            decreases entries@.len() - i,
        {
            out.push(entries[i].clone());
            i = i + 1;
            proof {
                assert(out@ =~= entries@.take(i as int));
            }
        }
        proof {
            if k as int <= entries@.len() {
                assert(out@ =~= entries@.take(k as int));
                assert(views_of(out@) =~= views_of(entries@).take(k as int));
            } else {
                assert(out@ =~= entries@);
            }
        }
        return out;
    }
    let pattern = string_from_chars(&trimmed);
    let mut scored: Vec<Scored> = Vec::new();
    let mut i: usize = 0;
    while i < entries.len()
        invariant
            i <= entries@.len(),
            pattern@ == trimmed@,
            scored_views(scored@) == spec_scored(views_of(entries@.take(i as int)), trimmed@),
        decreases entries@.len() - i,
    {
        let ghost pre_scored = scored_views(scored@);
        match fuzzy_match_score(entries[i].title.as_str(), pattern.as_str()) {
            Some(sc) => {
                scored.push(Scored { score: sc, entry: entries[i].clone() });
            },
            None => {},
        }
        i = i + 1;
        proof {
            let next = views_of(entries@.take(i as int));
            assert(next.drop_last() =~= views_of(entries@.take(i as int - 1)));
            assert(next.last() == entries@[i as int - 1]@);
            match fuzzy_score(entries@[i as int - 1]@.title, trimmed@) {
                Some(sc) => {
                    assert(scored_views(scored@) =~= pre_scored.push(
                        ScoredV { score: sc as int, entry: entries@[i as int - 1]@ },
                    ));
                },
                None => {},
            }
        }
    }
    proof {
        assert(entries@.take(entries@.len() as int) =~= entries@);
    }
    let sorted = sort_scored(&scored);
    let ghost ranked = match spec_calc_candidate(qchars@) {
        Some(t) => seq![spec_calc_entry(t)] + spec_fuzzy_ranked(views_of(entries@), trimmed@),
        None => spec_fuzzy_ranked(views_of(entries@), trimmed@),
    };
    let ghost calc_len: int = if spec_calc_candidate(qchars@) is Some {
        1
    } else {
        0
    };
    proof {
        lemma_sort_desc_len(spec_scored(views_of(entries@), trimmed@));
        assert(ranked.len() == calc_len + sorted@.len());
        assert(forall|m: int|
            0 <= m < sorted@.len() ==> ranked[calc_len + m] == sorted@[m]@.entry);
    }
    let mut out: Vec<Entry> = Vec::new();
    let ghost mut base: int = 0;
    match calc_candidate(&qchars, &trimmed) {
        Some(t) => {
            if k > 0 {
                out.push(Entry::math_result(t));
                proof {
                    base = 1;
                    assert(views_of(out@) =~= ranked.take(1));
                }
            }
        },
        None => {},
    }
    let mut j: usize = 0;
    while j < sorted.len() && out.len() < k
        invariant
            j <= sorted@.len(),
            out@.len() <= k,
            out@.len() == base + j,
            base == if calc_len == 1 && k > 0 {
                1int
            } else {
                0int
            },
            calc_len == if spec_calc_candidate(qchars@) is Some {
                1int
            } else {
                0int
            },
            ranked.len() == calc_len + sorted@.len(),
            views_of(out@) == ranked.take(base + j),
            forall|m: int| 0 <= m < sorted@.len() ==> ranked[calc_len + m] == sorted@[m]@.entry,
        decreases sorted@.len() - j,
    {
        out.push(sorted[j].entry.clone());
        j = j + 1;
        proof {
            assert(views_of(out@) =~= ranked.take(base + j));
        }
    }
    proof {
        let spec_r = spec_resolve(views_of(entries@), query@, k as int);
        if out@.len() == k {
            assert(views_of(out@) =~= spec_r);
        } else {
            assert(j == sorted@.len());
            assert(views_of(out@) =~= ranked);
            assert(views_of(out@) =~= spec_r);
        }
    }
    out
}

/// Resolve the catalog against the query under the configured result bound.
pub fn resolve(catalog: &Vec<Entry>, query: &str, cfg: &Config) -> (r: Vec<Entry>)
    ensures
        views_of(r@) == spec_resolve(views_of(catalog@), query@, cfg.max_results as int),
        r@.len() <= cfg.max_results,
{
    top_matches(catalog, query, cfg.max_results)
}

/// The model of the catalog built from the given applications: one entry
/// per application, in registry order, then the four system actions in
/// their fixed order.
pub open spec fn spec_catalog(apps: Seq<AppDescriptor>) -> Seq<EntryView> {
    apps.map_values(|d: AppDescriptor| spec_app_entry(d@)) + seq![
        spec_action_entry(SystemAction::Shutdown),
        spec_action_entry(SystemAction::Restart),
        spec_action_entry(SystemAction::Sleep),
        spec_action_entry(SystemAction::Hibernate),
    ]
}

/// Build the session catalog: the user-visible applications, in the order
/// the registry reports them, followed by exactly the four system actions,
/// in the fixed order Shutdown, Restart, Sleep, Hibernate. The catalog never
/// holds a calculator entry.
pub fn get_entries(apps: &Vec<AppDescriptor>) -> (r: Vec<Entry>)
    ensures
        views_of(r@) == spec_catalog(apps@),
        r@.len() == apps@.len() + 4,
        forall|i: int| 0 <= i < r@.len() ==> (#[trigger] r@[i]).is_catalog_entry(),
{
    let mut out: Vec<Entry> = Vec::new();
    let mut i: usize = 0;
    while i < apps.len()
        invariant
            i <= apps@.len(),
            out@.len() == i,
            views_of(out@) == apps@.take(i as int).map_values(
                |d: AppDescriptor| spec_app_entry(d@),
            ),
            forall|m: int| 0 <= m < out@.len() ==> (#[trigger] out@[m]).is_catalog_entry(),
        decreases apps@.len() - i,
    {
        let ghost prev = out@;
        out.push(Entry::from_app(apps[i].clone()));
        i = i + 1;
        proof {
            let f = |d: AppDescriptor| spec_app_entry(d@);
            assert(views_of(out@) =~= views_of(prev).push(spec_app_entry(apps@[i as int - 1]@)));
            assert(apps@.take(i as int).map_values(f) =~= apps@.take(i as int - 1).map_values(
                f,
            ).push(spec_app_entry(apps@[i as int - 1]@)));
        }
    }
    out.push(Entry::system_action(SystemAction::Shutdown));
    out.push(Entry::system_action(SystemAction::Restart));
    out.push(Entry::system_action(SystemAction::Sleep));
    out.push(Entry::system_action(SystemAction::Hibernate));
    proof {
        assert(apps@.take(apps@.len() as int) =~= apps@);
        assert(views_of(out@) =~= spec_catalog(apps@));
    }
    out
}

/// True of a catalog's models: no calculator entry is ever part of a
/// catalog.
pub open spec fn catalog_views_ok(catalog: Seq<EntryView>) -> bool {
    forall|i: int|
        0 <= i < catalog.len() ==> !((#[trigger] catalog[i]).kind is Result)
}

proof fn lemma_scored_no_calc(catalog: Seq<EntryView>, q: Seq<char>)
    requires
        catalog_views_ok(catalog),
    ensures
        forall|m: int|
            0 <= m < spec_scored(catalog, q).len() ==> !((#[trigger] spec_scored(catalog, q)[m]).entry.kind is Result),
    decreases catalog.len(),
{
    if catalog.len() > 0 {
        assert(catalog_views_ok(catalog.drop_last()));
        lemma_scored_no_calc(catalog.drop_last(), q);
        assert(catalog.last() == catalog[catalog.len() - 1]);
    }
}

proof fn lemma_insert_desc_no_calc(s: Seq<ScoredV>, x: ScoredV)
    requires
        forall|m: int| 0 <= m < s.len() ==> !((#[trigger] s[m]).entry.kind is Result),
        !(x.entry.kind is Result),
    ensures
        forall|m: int|
            0 <= m < spec_insert_desc(s, x).len() ==> !((#[trigger] spec_insert_desc(s, x)[m]).entry.kind is Result),
    decreases s.len(),
{
    if s.len() > 0 && x.score <= s.first().score {
        assert(forall|m: int|
            0 <= m < s.drop_first().len() ==> !((#[trigger] s.drop_first()[m]).entry.kind
                is Result));
        lemma_insert_desc_no_calc(s.drop_first(), x);
    }
}

proof fn lemma_sort_desc_no_calc(s: Seq<ScoredV>)
    requires
        forall|m: int| 0 <= m < s.len() ==> !((#[trigger] s[m]).entry.kind is Result),
    ensures
        forall|m: int|
            0 <= m < spec_sort_desc(s).len() ==> !((#[trigger] spec_sort_desc(s)[m]).entry.kind
                is Result),
    decreases s.len(),
{
    if s.len() > 0 {
        assert(forall|m: int|
            0 <= m < s.drop_last().len() ==> !((#[trigger] s.drop_last()[m]).entry.kind
                is Result));
        lemma_sort_desc_no_calc(s.drop_last());
        assert(s.last() == s[s.len() - 1]);
        lemma_insert_desc_no_calc(spec_sort_desc(s.drop_last()), s.last());
    }
}

/// A query whose evaluation succeeds is not empty once trimmed: the ranking
/// engine therefore never confuses it with the idle view.
pub proof fn lemma_calc_some_trim_nonempty(query: Seq<char>)
    requires
        spec_calc(query) is Some,
    ensures
        spec_trim(query).len() > 0,
{
    if spec_trim(query).len() == 0 {
        lemma_trim_empty_all_space(query);
        crate::calc::lemma_all_space_eval_none(query);
    }
}

/// Whenever a calculator entry is synthesized for a non-empty query and at
/// least one result is allowed, that entry stands first, and it is the only
/// calculator entry in the result, for any catalog of proper catalog
/// entries.
pub proof fn lemma_calc_entry_first(catalog: Seq<EntryView>, query: Seq<char>, k: int, t: Seq<
    char,
>)
    requires
        spec_calc_candidate(query) == Some(t),
        spec_trim(query).len() > 0,
        k >= 1,
        catalog_views_ok(catalog),
    ensures
        spec_resolve(catalog, query, k).len() >= 1,
        spec_resolve(catalog, query, k)[0] == spec_calc_entry(t),
        forall|i: int|
            1 <= i < spec_resolve(catalog, query, k).len() ==> !((#[trigger] spec_resolve(
                catalog,
                query,
                k,
            )[i]).kind is Result),
{
    let tq = spec_trim(query);
    let fuzzy = spec_fuzzy_ranked(catalog, tq);
    let ranked = seq![spec_calc_entry(t)] + fuzzy;
    lemma_scored_no_calc(catalog, tq);
    lemma_sort_desc_no_calc(spec_scored(catalog, tq));
    assert(forall|m: int| 0 <= m < fuzzy.len() ==> !((#[trigger] fuzzy[m]).kind is Result));
    let r = spec_resolve(catalog, query, k);
    assert(r[0] == ranked[0]);
    assert(forall|i: int| 1 <= i < r.len() ==> r[i] == fuzzy[i - 1]);
}

/// For any query that is a complete arithmetic expression: one calculator
/// entry titled by the rendered value is synthesized and ranked first,
/// regardless of catalog contents, and it is the only calculator entry in
/// the result.
pub proof fn lemma_complete_expression(catalog: Seq<EntryView>, query: Seq<char>, k: int, t: Seq<
    char,
>)
    requires
        spec_calc(query) == Some(t),
        k >= 1,
        catalog_views_ok(catalog),
    ensures
        spec_resolve(catalog, query, k).len() >= 1,
        spec_resolve(catalog, query, k)[0] == spec_calc_entry(t),
        forall|i: int|
            1 <= i < spec_resolve(catalog, query, k).len() ==> !((#[trigger] spec_resolve(
                catalog,
                query,
                k,
            )[i]).kind is Result),
{
    lemma_calc_some_trim_nonempty(query);
    lemma_calc_entry_first(catalog, query, k, t);
}

/// For an incomplete expression — one that does not evaluate as a whole but
/// whose trimmed form ends in an operator and evaluates once that trailing
/// character is removed — a calculator entry titled by the prefix value is
/// synthesized and ranked above every fuzzy match. A query is never treated
/// both ways: this fallback applies only when full evaluation fails.
pub proof fn lemma_incomplete_expression(catalog: Seq<EntryView>, query: Seq<char>, k: int, t: Seq<
    char,
>)
    requires
        spec_calc(query) is None,
        spec_trim(query).len() > 0,
        spec_is_op(spec_trim(query).last()),
        spec_calc(spec_trim(query).drop_last()) == Some(t),
        k >= 1,
        catalog_views_ok(catalog),
    ensures
        spec_resolve(catalog, query, k).len() >= 1,
        spec_resolve(catalog, query, k)[0] == spec_calc_entry(t),
        forall|i: int|
            1 <= i < spec_resolve(catalog, query, k).len() ==> !((#[trigger] spec_resolve(
                catalog,
                query,
                k,
            )[i]).kind is Result),
{
    lemma_calc_entry_first(catalog, query, k, t);
}

/// For any catalog and an empty (all-space) query, resolving returns the
/// first `min(k, catalog length)` catalog entries, in catalog order, with
/// no scoring.
pub proof fn lemma_empty_query_head(catalog: Seq<EntryView>, query: Seq<char>, k: int)
    requires
        spec_trim(query).len() == 0,
        k >= 0,
    ensures
        spec_resolve(catalog, query, k).len() == if k <= catalog.len() {
            k
        } else {
            catalog.len() as int
        },
        forall|i: int|
            0 <= i < spec_resolve(catalog, query, k).len() ==> spec_resolve(catalog, query, k)[i]
                == catalog[i],
{
}

/// The result list never exceeds the configured bound, whatever the catalog
/// and the query.
pub proof fn lemma_resolve_bounded(catalog: Seq<EntryView>, query: Seq<char>, k: int)
    requires
        k >= 0,
    ensures
        spec_resolve(catalog, query, k).len() <= k,
{
}

} // verus!
