//! The k-nearest-neighbor classifier.
//!
//! Distance records are ordered ascending by their exact fraction, with the
//! corpus index as the tie break, so the order is total over one prediction's
//! records and the sorted sequence is a function of its input. The classifier
//! sorts, keeps the `k` nearest records, looks their labels up in the corpus,
//! and elects the label with the most votes; among labels with equal votes
//! the smallest label id wins.

use vstd::multiset::Multiset;
use vstd::prelude::*;

use crate::corpus::Sample;
use crate::distance::{ncd_wf, Ncd};

verus! {

/// One computed distance: the corpus index it belongs to and its NCD.
#[derive(Clone, Copy, Debug, PartialEq, Eq, Structural)]
pub struct DistRecord {
    pub index: usize,
    pub ncd: Ncd,
}

/// A record the classifier can compare: its distance is well formed.
pub open spec fn rec_wf(r: DistRecord) -> bool {
    ncd_wf(r.ncd)
}

/// The cross product that compares the fraction of `a` against that of `b`.
pub open spec fn cross(a: Ncd, b: Ncd) -> int {
    a.num * b.den
}

/// Ascending order on records: smaller fraction first, and among equal
/// fractions the smaller corpus index first.
pub open spec fn rec_le(a: DistRecord, b: DistRecord) -> bool {
    ||| cross(a.ncd, b.ncd) < cross(b.ncd, a.ncd)
    ||| (cross(a.ncd, b.ncd) == cross(b.ncd, a.ncd) && a.index <= b.index)
}

/// Any two records are comparable.
pub proof fn lemma_rec_le_connected(a: DistRecord, b: DistRecord)
    ensures
        rec_le(a, b) || rec_le(b, a),
{
}

/// A cross product of bounded parts stays well inside `i128`.
proof fn lemma_cross_bounds(n: int, d: int)
    by (nonlinear_arith)
    requires
        -0xFFFF_FFFF <= n <= 0xFFFF_FFFF,
        0 <= d <= 0xFFFF_FFFF,
    ensures
        -0xFFFF_FFFF * 0xFFFF_FFFF <= n * d <= 0xFFFF_FFFF * 0xFFFF_FFFF,
{
}

/// Transitivity of the fraction comparison, by clearing denominators.
proof fn lemma_frac_trans(na: int, da: int, nb: int, db: int, nc: int, dc: int)
    by (nonlinear_arith)
    requires
        da >= 1,
        db >= 1,
        dc >= 1,
        na * db <= nb * da,
        nb * dc <= nc * db,
    ensures
        na * dc <= nc * da,
        na * db < nb * da ==> na * dc < nc * da,
        nb * dc < nc * db ==> na * dc < nc * da,
{
}

/// The record order is transitive over well-formed records.
pub proof fn lemma_rec_le_trans(a: DistRecord, b: DistRecord, c: DistRecord)
    requires
        rec_wf(a),
        rec_wf(b),
        rec_wf(c),
        rec_le(a, b),
        rec_le(b, c),
    ensures
        rec_le(a, c),
{
    lemma_frac_trans(
        a.ncd.num as int,
        a.ncd.den as int,
        b.ncd.num as int,
        b.ncd.den as int,
        c.ncd.num as int,
        c.ncd.den as int,
    );
    if cross(a.ncd, b.ncd) == cross(b.ncd, a.ncd) && cross(b.ncd, c.ncd) == cross(c.ncd, b.ncd) {
        lemma_frac_trans(
            c.ncd.num as int,
            c.ncd.den as int,
            b.ncd.num as int,
            b.ncd.den as int,
            a.ncd.num as int,
            a.ncd.den as int,
        );
    }
}

/// Compares two records, exactly as `rec_le` does, with cross products in
/// `i128` that the well-formedness bounds keep from overflowing.
pub fn rec_le_exec(a: &DistRecord, b: &DistRecord) -> (r: bool)
    requires
        rec_wf(*a),
        rec_wf(*b),
    ensures
        r == rec_le(*a, *b),
{
    proof {
        lemma_cross_bounds(a.ncd.num as int, b.ncd.den as int);
        lemma_cross_bounds(b.ncd.num as int, a.ncd.den as int);
    }
    let pa: i128 = (a.ncd.num as i128) * (b.ncd.den as i128);
    let pb: i128 = (b.ncd.num as i128) * (a.ncd.den as i128);
    pa < pb || (pa == pb && a.index <= b.index)
}

/// The position of the least record: the earliest index whose record is
/// `rec_le` all later ones, scanning left to right.
pub open spec fn min_idx(s: Seq<DistRecord>) -> int
    recommends
        s.len() > 0,
    decreases s.len(),
{
    if s.len() <= 1 {
        0
    } else {
        let m = min_idx(s.drop_last());
        if rec_le(s[m], s.last()) {
            m
        } else {
            s.len() - 1
        }
    }
}

/// `min_idx` stays in range.
pub proof fn lemma_min_idx_bounds(s: Seq<DistRecord>)
    requires
        s.len() > 0,
    ensures
        0 <= min_idx(s) < s.len(),
    decreases s.len(),
{
    if s.len() > 1 {
        lemma_min_idx_bounds(s.drop_last());
    }
}

/// The record at `min_idx` is `rec_le` every record of the sequence.
pub proof fn lemma_min_idx_least(s: Seq<DistRecord>)
    requires
        s.len() > 0,
        forall|j: int| 0 <= j < s.len() ==> rec_wf(#[trigger] s[j]),
    ensures
        forall|j: int| 0 <= j < s.len() ==> rec_le(s[min_idx(s)], #[trigger] s[j]),
    decreases s.len(),
{
    lemma_min_idx_bounds(s);
    if s.len() > 1 {
        let t = s.drop_last();
        lemma_min_idx_bounds(t);
        lemma_min_idx_least(t);
        let m = min_idx(t);
        assert(forall|j: int| 0 <= j < t.len() ==> t[j] == s[j]);
        if rec_le(s[m], s.last()) {
            assert forall|j: int| 0 <= j < s.len() implies rec_le(s[min_idx(s)], #[trigger] s[j]) by {
                if j < s.len() - 1 {
                    assert(rec_le(t[m], t[j]));
                }
            }
        } else {
            lemma_rec_le_connected(s[m], s.last());
            assert forall|j: int| 0 <= j < s.len() implies rec_le(s[min_idx(s)], #[trigger] s[j]) by {
                if j < s.len() - 1 {
                    assert(rec_le(t[m], t[j]));
                    lemma_rec_le_trans(s.last(), s[m], s[j]);
                }
            }
        }
    }
}

/// The ascending order of a record sequence: the least record, then the rest
/// sorted, recursively.
pub open spec fn sel_sort(s: Seq<DistRecord>) -> Seq<DistRecord>
    decreases s.len(),
    via sel_sort_decreases
{
    if s.len() == 0 {
        Seq::empty()
    } else {
        seq![s[min_idx(s)]] + sel_sort(s.remove(min_idx(s)))
    }
}

#[via_fn]
proof fn sel_sort_decreases(s: Seq<DistRecord>) {
    if s.len() > 0 {
        lemma_min_idx_bounds(s);
    }
}

/// Sorting keeps the records: the sorted sequence holds the same multiset.
pub proof fn lemma_sel_sort_multiset(s: Seq<DistRecord>)
    ensures
        sel_sort(s).to_multiset() == s.to_multiset(),
        sel_sort(s).len() == s.len(),
    decreases s.len(),
{
    broadcast use vstd::seq_lib::group_to_multiset_ensures;

    if s.len() > 0 {
        lemma_min_idx_bounds(s);
        let i = min_idx(s);
        let rest = s.remove(i);
        lemma_sel_sort_multiset(rest);
        vstd::seq_lib::lemma_multiset_commutative(seq![s[i]], sel_sort(rest));
        assert(seq![s[i]].to_multiset() =~= Multiset::empty().insert(s[i]));
        assert(rest.to_multiset() == s.to_multiset().remove(s[i]));
        assert(s.to_multiset().contains(s[i]));
        assert(sel_sort(s).to_multiset() =~= s.to_multiset());
    }
}

/// Every record of the sorted sequence comes out of the input sequence.
pub proof fn lemma_sel_sort_contains(s: Seq<DistRecord>)
    ensures
        forall|x: DistRecord| #[trigger] sel_sort(s).contains(x) ==> s.contains(x),
{
    broadcast use vstd::seq_lib::group_to_multiset_ensures;

    lemma_sel_sort_multiset(s);
    assert forall|x: DistRecord| #[trigger] sel_sort(s).contains(x) implies s.contains(x) by {
        assert(sel_sort(s).to_multiset().count(x) > 0);
        assert(s.to_multiset().count(x) > 0);
    }
}

/// A property of every input record holds of every sorted record.
pub proof fn lemma_sel_sort_all(s: Seq<DistRecord>, pred: spec_fn(DistRecord) -> bool)
    requires
        forall|j: int| 0 <= j < s.len() ==> pred(#[trigger] s[j]),
    ensures
        forall|j: int| 0 <= j < sel_sort(s).len() ==> pred(#[trigger] sel_sort(s)[j]),
{
    lemma_sel_sort_contains(s);
    assert forall|j: int| 0 <= j < sel_sort(s).len() implies pred(#[trigger] sel_sort(s)[j]) by {
        assert(sel_sort(s).contains(sel_sort(s)[j]));
        let i = choose|i: int| 0 <= i < s.len() && s[i] == sel_sort(s)[j];
    }
}

/// The sorted sequence is ascending under `rec_le`.
pub proof fn lemma_sel_sort_sorted(s: Seq<DistRecord>)
    requires
        forall|j: int| 0 <= j < s.len() ==> rec_wf(#[trigger] s[j]),
    ensures
        vstd::relations::sorted_by(sel_sort(s), |a: DistRecord, b: DistRecord| rec_le(a, b)),
    decreases s.len(),
{
    let leq = |a: DistRecord, b: DistRecord| rec_le(a, b);
    if s.len() > 0 {
        lemma_min_idx_bounds(s);
        lemma_min_idx_least(s);
        let i = min_idx(s);
        let rest = s.remove(i);
        assert(forall|j: int| 0 <= j < rest.len() ==> rec_wf(#[trigger] rest[j]));
        lemma_sel_sort_sorted(rest);
        lemma_sel_sort_contains(rest);
        assert forall|p: int, q: int| 0 <= p < q < sel_sort(s).len() implies #[trigger] leq(
            sel_sort(s)[p],
            sel_sort(s)[q],
        ) by {
            if p == 0 {
                let x = sel_sort(rest)[q - 1];
                assert(sel_sort(rest).contains(x));
                let w = choose|w: int| 0 <= w < rest.len() && rest[w] == x;
                if w < i {
                    assert(rest[w] == s[w]);
                } else {
                    assert(rest[w] == s[w + 1]);
                }
                assert(rec_le(s[i], x));
            } else {
                assert(leq(sel_sort(rest)[p - 1], sel_sort(rest)[q - 1]));
            }
        }
    }
}

/// Sorts distance records ascending: smallest distance first, ties broken by
/// the smaller corpus index, so the result is a function of the input alone.
pub fn sort_records(v: Vec<DistRecord>) -> (r: Vec<DistRecord>)
    requires
        forall|j: int| 0 <= j < v@.len() ==> rec_wf(#[trigger] v@[j]),
    ensures
        r@ == sel_sort(v@),
{
    let ghost orig = v@;
    let mut work = v;
    let mut out: Vec<DistRecord> = Vec::new();
    proof {
        assert(out@ + sel_sort(work@) =~= sel_sort(orig));
    }
    while work.len() > 0
        invariant
            out@ + sel_sort(work@) == sel_sort(orig),
            forall|j: int| 0 <= j < work@.len() ==> rec_wf(#[trigger] work@[j]),
        decreases work@.len(),
    {
        let m = find_min(&work);
        let ghost before = work@;
        let rec = work.remove(m);
        proof {
            assert(sel_sort(before) == seq![before[m as int]] + sel_sort(before.remove(m as int)));
            assert((out@ + (seq![rec] + sel_sort(work@))) =~= ((out@ + seq![rec]) + sel_sort(
                work@,
            )));
            assert(out@.push(rec) =~= out@ + seq![rec]);
        }
        out.push(rec);
    }
    proof {
        assert(out@ + sel_sort(work@) =~= out@);
    }
    out
}

/// Finds the position `min_idx` of the least record.
fn find_min(v: &Vec<DistRecord>) -> (m: usize)
    requires
        v@.len() > 0,
        forall|j: int| 0 <= j < v@.len() ==> rec_wf(#[trigger] v@[j]),
    ensures
        m as int == min_idx(v@),
        m < v@.len(),
{
    let mut best: usize = 0;
    let mut j: usize = 1;
    while j < v.len()
        invariant
            1 <= j <= v@.len(),
            best < j,
            forall|i: int| 0 <= i < v@.len() ==> rec_wf(#[trigger] v@[i]),
            best as int == min_idx(v@.take(j as int)),
        decreases v@.len() - j,
    {
        proof {
            let pre = v@.take(j as int);
            let cur = v@.take(j + 1 as int);
            assert(cur.drop_last() =~= pre);
            assert(cur.last() == v@[j as int]);
            lemma_min_idx_bounds(pre);
            assert(cur[min_idx(pre)] == pre[min_idx(pre)]);
        }
        if !rec_le_exec(&v[best], &v[j]) {
            best = j;
        }
        j = j + 1;
    }
    proof {
        assert(v@.take(v@.len() as int) =~= v@);
    }
    best
}

/// How many votes a label has.
pub open spec fn count_label(ls: Seq<i32>, x: i32) -> nat {
    ls.to_multiset().count(x)
}

/// When label `a` beats label `b` in the election over `ls`: more votes, or
/// equal votes and the smaller label id.
pub open spec fn better(ls: Seq<i32>, a: i32, b: i32) -> bool {
    ||| count_label(ls, a) > count_label(ls, b)
    ||| (count_label(ls, a) == count_label(ls, b) && a < b)
}

/// The winner among the first `n` labels, scanning left to right and
/// replacing the current winner only by a strictly better label.
pub open spec fn maj_upto(ls: Seq<i32>, n: int) -> i32
    recommends
        1 <= n <= ls.len(),
    decreases n,
{
    if n <= 1 {
        ls[0]
    } else {
        let p = maj_upto(ls, n - 1);
        if better(ls, ls[n - 1], p) {
            ls[n - 1]
        } else {
            p
        }
    }
}

/// The label with the most votes; among labels with equal votes, the
/// smallest label id.
pub open spec fn majority(ls: Seq<i32>) -> i32
    recommends
        ls.len() >= 1,
{
    maj_upto(ls, ls.len() as int)
}

proof fn lemma_maj_upto(ls: Seq<i32>, n: int)
    requires
        1 <= n <= ls.len(),
    ensures
        exists|i: int| 0 <= i < n && ls[i] == maj_upto(ls, n),
        forall|j: int| 0 <= j < n ==> !better(ls, #[trigger] ls[j], maj_upto(ls, n)),
    decreases n,
{
    if n <= 1 {
        assert(ls[0] == maj_upto(ls, n));
    } else {
        lemma_maj_upto(ls, n - 1);
        let p = maj_upto(ls, n - 1);
        if better(ls, ls[n - 1], p) {
            assert(ls[n - 1] == maj_upto(ls, n));
        } else {
            let i = choose|i: int| 0 <= i < n - 1 && ls[i] == p;
            assert(ls[i] == maj_upto(ls, n));
        }
    }
}

/// The elected label occurs among the votes, and no vote beats it.
pub proof fn lemma_majority_is_best(ls: Seq<i32>)
    requires
        ls.len() >= 1,
    ensures
        ls.contains(majority(ls)),
        forall|x: i32| ls.contains(x) ==> !better(ls, x, majority(ls)),
{
    lemma_maj_upto(ls, ls.len() as int);
}

/// The election only counts votes: label sequences holding the same multiset
/// of labels elect the same winner, whatever their order.
pub proof fn lemma_majority_multiset(ls1: Seq<i32>, ls2: Seq<i32>)
    requires
        ls1.len() >= 1,
        ls1.to_multiset() == ls2.to_multiset(),
    ensures
        majority(ls1) == majority(ls2),
{
    broadcast use vstd::seq_lib::group_to_multiset_ensures;

    lemma_majority_is_best(ls1);
    lemma_majority_is_best(ls2);
    let m1 = majority(ls1);
    let m2 = majority(ls2);
    assert(ls1.to_multiset().count(m1) > 0);
    assert(ls2.contains(m1));
    assert(ls2.to_multiset().count(m2) > 0);
    assert(ls1.contains(m2));
    assert(!better(ls2, m1, m2));
    assert(!better(ls1, m2, m1));
}

/// The corpus label each record points at, in record order.
pub open spec fn label_seq(rs: Seq<DistRecord>, c: Seq<Sample>) -> Seq<i32> {
    rs.map_values(|r: DistRecord| c[r.index as int].label)
}

/// The label the classifier elects: sort the records ascending, keep the `k`
/// nearest, look their labels up, and elect by majority.
pub open spec fn classify_spec(recs: Seq<DistRecord>, c: Seq<Sample>, k: int) -> i32 {
    majority(label_seq(sel_sort(recs).take(k), c))
}

/// Sorting does not change which labels are looked up, only their order.
pub proof fn lemma_label_seq_sel_sort(s: Seq<DistRecord>, c: Seq<Sample>)
    ensures
        label_seq(sel_sort(s), c).to_multiset() == label_seq(s, c).to_multiset(),
    decreases s.len(),
{
    broadcast use vstd::seq_lib::group_to_multiset_ensures;

    if s.len() == 0 {
        assert(label_seq(sel_sort(s), c) =~= label_seq(s, c));
    } else {
        lemma_min_idx_bounds(s);
        let i = min_idx(s);
        let rest = s.remove(i);
        let lab = c[s[i].index as int].label;
        lemma_label_seq_sel_sort(rest, c);
        assert(label_seq(sel_sort(s), c) =~= seq![lab] + label_seq(sel_sort(rest), c));
        vstd::seq_lib::lemma_multiset_commutative(seq![lab], label_seq(sel_sort(rest), c));
        assert(seq![lab].to_multiset() =~= Multiset::empty().insert(lab));
        assert(label_seq(rest, c) =~= label_seq(s, c).remove(i));
        assert(label_seq(s, c).remove(i).to_multiset() == label_seq(s, c).to_multiset().remove(
            label_seq(s, c)[i],
        ));
        assert(label_seq(s, c).contains(lab)) by {
            assert(label_seq(s, c)[i] == lab);
        }
        assert(label_seq(s, c).to_multiset().count(lab) > 0);
        assert(label_seq(sel_sort(s), c).to_multiset() =~= label_seq(s, c).to_multiset());
    }
}

/// Classifies by the `k` nearest records: sorts ascending, takes `k`, looks
/// the labels up in the corpus and elects the majority, smallest label id on
/// a tie of votes.
pub fn classify(records: Vec<DistRecord>, corpus: &Vec<Sample>, k: usize) -> (r: i32)
    requires
        1 <= k <= records@.len(),
        forall|j: int|
            0 <= j < records@.len() ==> rec_wf(#[trigger] records@[j]) && records@[j].index
                < corpus@.len(),
    ensures
        r == classify_spec(records@, corpus@, k as int),
{
    let ghost recs = records@;
    let ghost bound = corpus@.len();
    proof {
        lemma_sel_sort_all(recs, |r: DistRecord| rec_wf(r) && r.index < bound);
        lemma_sel_sort_multiset(recs);
    }
    let sorted = sort_records(records);
    let mut labels: Vec<i32> = Vec::new();
    let mut j: usize = 0;
    proof {
        assert(labels@ =~= label_seq(sorted@.take(0), corpus@));
    }
    while j < k
        invariant
            0 <= j <= k,
            k <= sorted@.len(),
            sorted@ == sel_sort(recs),
            forall|i: int|
                0 <= i < sorted@.len() ==> rec_wf(#[trigger] sorted@[i]) && sorted@[i].index
                    < corpus@.len(),
            labels@ == label_seq(sorted@.take(j as int), corpus@),
        decreases k - j,
    {
        proof {
            assert(sorted@.take(j + 1 as int) =~= sorted@.take(j as int).push(sorted@[j as int]));
            assert(label_seq(sorted@.take(j + 1 as int), corpus@) =~= label_seq(
                sorted@.take(j as int),
                corpus@,
            ).push(corpus@[sorted@[j as int].index as int].label));
        }
        let idx = sorted[j].index;
        labels.push(corpus[idx].label);
        j = j + 1;
    }
    majority_label(&labels)
}

/// Counts how many of the labels equal `x`.
pub fn count_label_exec(labels: &Vec<i32>, x: i32) -> (c: usize)
    ensures
        c == count_label(labels@, x),
{
    broadcast use vstd::seq_lib::group_to_multiset_ensures;

    let mut c: usize = 0;
    let mut j: usize = 0;
    proof {
        assert(labels@.take(0) =~= Seq::<i32>::empty());
        assert(labels@.take(0).to_multiset() =~= Multiset::<i32>::empty());
    }
    while j < labels.len()
        invariant
            0 <= j <= labels@.len(),
            c <= j,
            c == count_label(labels@.take(j as int), x),
        decreases labels@.len() - j,
    {
        proof {
            assert(labels@.take(j + 1 as int) =~= labels@.take(j as int).push(labels@[j as int]));
            vstd::seq_lib::to_multiset_build(labels@.take(j as int), labels@[j as int]);
        }
        if labels[j] == x {
            c = c + 1;
        }
        j = j + 1;
    }
    proof {
        assert(labels@.take(labels@.len() as int) =~= labels@);
    }
    c
}

/// Elects the label with the most votes; among labels with equal votes the
/// smallest label id wins.
pub fn majority_label(labels: &Vec<i32>) -> (r: i32)
    requires
        labels@.len() >= 1,
    ensures
        r == majority(labels@),
{
    let mut best: i32 = labels[0];
    let mut j: usize = 1;
    while j < labels.len()
        invariant
            1 <= j <= labels@.len(),
            best == maj_upto(labels@, j as int),
        decreases labels@.len() - j,
    {
        let cb = count_label_exec(labels, labels[j]);
        let cbest = count_label_exec(labels, best);
        if cb > cbest || (cb == cbest && labels[j] < best) {
            best = labels[j];
        }
        j = j + 1;
    }
    best
}

} // verus!
