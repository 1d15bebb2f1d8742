//! The prediction service.
//!
//! One prediction call compresses the query once, partitions the corpus into
//! batches, has a worker compute the distance records of each batch, merges
//! the workers' records into one aggregate — exactly one record per corpus
//! index — and hands the aggregate to the classifier. The predicted label is
//! a function of the query, the corpus and `k` alone: the batch size only
//! partitions the work.

use vstd::prelude::*;

use crate::batch::{batch_bounds, is_partition};
use crate::classify::{classify, classify_spec, majority, min_idx, rec_le, rec_wf, DistRecord};
use crate::compress::{compress_len, gzip_len};
use crate::corpus::{corpus_labels, Sample};
use crate::distance::{join_texts, joined, ncd_from_lens, ncd_spec, ncd_wf, pair_ok};
use crate::Error;

verus! {

/// The distance record the prediction owes corpus index `i`.
pub open spec fn rec_spec(q: Seq<char>, c: Seq<Sample>, i: int) -> DistRecord {
    DistRecord { index: i as usize, ncd: ncd_spec(q, c[i].text@) }
}

/// The complete aggregate a prediction owes: one record per corpus index,
/// in index order.
pub open spec fn records_spec(q: Seq<char>, c: Seq<Sample>) -> Seq<DistRecord> {
    Seq::new(c.len(), |i: int| rec_spec(q, c, i))
}

/// Whether every (query, sample) pair admits an exact distance.
pub open spec fn all_pairs_ok(q: Seq<char>, c: Seq<Sample>) -> bool {
    forall|i: int| 0 <= i < c.len() ==> pair_ok(q, #[trigger] c[i].text@)
}

/// The label a prediction owes: classify the complete aggregate. No batch
/// size appears here: partitioning cannot change the answer.
pub open spec fn predicted_label_spec(q: Seq<char>, c: Seq<Sample>, k: int) -> i32 {
    classify_spec(records_spec(q, c), c, k)
}

/// Everything `predict` returns, on every input: the configuration errors,
/// the distance error, and the label.
pub open spec fn predict_result(q: Seq<char>, c: Seq<Sample>, k: int, batch_size: int) -> Result<
    i32,
    Error,
> {
    if k < 1 || k > c.len() {
        Err(Error::InvalidK)
    } else if batch_size < 1 {
        Err(Error::InvalidBatchSize)
    } else if !all_pairs_ok(q, c) {
        Err(Error::DegenerateDistance)
    } else {
        Ok(predicted_label_spec(q, c, k))
    }
}

/// A pair with an exact distance yields a well-formed record.
pub proof fn lemma_pair_ok_wf(q: Seq<char>, t: Seq<char>)
    requires
        pair_ok(q, t),
    ensures
        ncd_wf(ncd_spec(q, t)),
{
}

/// The record a worker owes corpus index `i` when it was handed `cx1` as the
/// query's compressed length.
pub open spec fn worker_rec(cx1: int, q: Seq<char>, c: Seq<Sample>, i: int) -> DistRecord {
    DistRecord {
        index: i as usize,
        ncd: crate::distance::ncd_of_lens(
            cx1,
            gzip_len(c[i].text@) as int,
            gzip_len(joined(q, c[i].text@)) as int,
        ),
    }
}

/// When the pair of corpus index `i` admits an exact distance, given `cx1`.
pub open spec fn worker_pair_ok(cx1: int, q: Seq<char>, c: Seq<Sample>, i: int) -> bool {
    crate::distance::lens_ok(
        cx1,
        gzip_len(c[i].text@) as int,
        gzip_len(joined(q, c[i].text@)) as int,
    )
}

/// One worker's assignment: the distance from the query to every sample of
/// the batch `[start, end)`, one record per index, in index order. `cx1` is
/// the compressed length of the query, computed once per prediction and
/// shared by all workers; each sample costs two compressions, of the sample
/// and of the joined pair.
pub fn worker_distances(
    query: &str,
    cx1: usize,
    corpus: &Vec<Sample>,
    start: usize,
    end: usize,
) -> (r: Result<Vec<DistRecord>, Error>)
    requires
        start <= end <= corpus@.len(),
    ensures
        r is Ok <==> (forall|i: int| start <= i < end ==> worker_pair_ok(
            cx1 as int,
            query@,
            corpus@,
            i,
        )),
        r is Ok ==> r->Ok_0@.len() == end - start,
        r is Ok ==> forall|j: int|
            0 <= j < end - start ==> r->Ok_0@[j] == worker_rec(
                cx1 as int,
                query@,
                corpus@,
                start + j,
            ),
        r is Err ==> r->Err_0 == Error::DegenerateDistance,
{
    let mut out: Vec<DistRecord> = Vec::new();
    let mut i: usize = start;
    while i < end
        invariant
            start <= i <= end <= corpus@.len(),
            out@.len() == i - start,
            forall|j: int|
                0 <= j < i - start ==> out@[j] == worker_rec(cx1 as int, query@, corpus@, start + j),
            forall|ii: int| start <= ii < i ==> worker_pair_ok(cx1 as int, query@, corpus@, ii),
        decreases end - i,
    {
        let text = &corpus[i].text;
        let cx2 = compress_len(text.as_str());
        let combined = join_texts(query, text.as_str());
        let cx1x2 = compress_len(combined.as_str());
        match ncd_from_lens(cx1, cx2, cx1x2) {
            Some(d) => {
                out.push(DistRecord { index: i, ncd: d });
            },
            None => {
                proof {
                    assert(!worker_pair_ok(cx1 as int, query@, corpus@, i as int));
                }
                return Err(Error::DegenerateDistance);
            },
        }
        i = i + 1;
    }
    Ok(out)
}

/// The dispatcher and the aggregator: partitions `[0, N)` into batches of at
/// most `batch_size` indices, runs the batches to completion, and merges
/// their records in batch order. The aggregate holds exactly one record per
/// corpus index — never more, never less — whatever the batch size.
pub fn compute_distances(query: &str, corpus: &Vec<Sample>, batch_size: usize) -> (r: Result<
    Vec<DistRecord>,
    Error,
>)
    requires
        batch_size >= 1,
    ensures
        r is Ok <==> all_pairs_ok(query@, corpus@),
        r is Ok ==> r->Ok_0@ == records_spec(query@, corpus@),
        r is Ok ==> r->Ok_0@.len() == corpus@.len(),
        r is Ok ==> forall|i: int| 0 <= i < corpus@.len() ==> (#[trigger] r->Ok_0@[i]).index == i,
        r is Err ==> r->Err_0 == Error::DegenerateDistance,
{
    let n = corpus.len();
    let cx1 = compress_len(query);
    let bounds = batch_bounds(n, batch_size);
    let mut acc: Vec<DistRecord> = Vec::new();
    let mut bi: usize = 0;
    while bi < bounds.len()
        invariant
            cx1 == gzip_len(query@),
            n == corpus@.len(),
            is_partition(bounds@, n as int, batch_size as int),
            0 <= bi <= bounds@.len(),
            acc@.len() == if bi == 0 {
                0int
            } else {
                bounds@[bi - 1].1 as int
            },
            acc@.len() <= n,
            forall|j: int| 0 <= j < acc@.len() ==> acc@[j] == rec_spec(query@, corpus@, j),
            forall|ii: int| 0 <= ii < acc@.len() ==> pair_ok(query@, #[trigger] corpus@[ii].text@),
        decreases bounds@.len() - bi,
    {
        let pair = bounds[bi];
        let start = pair.0;
        let end = pair.1;
        assert(start == acc@.len());
        match worker_distances(query, cx1, corpus, start, end) {
            Ok(part) => {
                proof {
                    assert forall|i: int| start <= i < end implies pair_ok(
                        query@,
                        #[trigger] corpus@[i].text@,
                    ) by {
                        assert(worker_pair_ok(cx1 as int, query@, corpus@, i));
                    }
                    assert forall|j: int| 0 <= j < part@.len() implies part@[j] == rec_spec(
                        query@,
                        corpus@,
                        start + j,
                    ) by {
                        assert(part@[j] == worker_rec(cx1 as int, query@, corpus@, start + j));
                    }
                }
                let mut pj: usize = 0;
                while pj < part.len()
                    invariant
                        0 <= pj <= part@.len(),
                        part@.len() == end - start,
                        start <= end <= n,
                        n == corpus@.len(),
                        cx1 == gzip_len(query@),
                        forall|j: int|
                            0 <= j < part@.len() ==> part@[j] == rec_spec(
                                query@,
                                corpus@,
                                start + j,
                            ),
                        forall|i: int| start <= i < end ==> pair_ok(
                            query@,
                            #[trigger] corpus@[i].text@,
                        ),
                        acc@.len() == start + pj,
                        forall|j: int| 0 <= j < acc@.len() ==> acc@[j] == rec_spec(
                            query@,
                            corpus@,
                            j,
                        ),
                        forall|ii: int| 0 <= ii < acc@.len() ==> pair_ok(
                            query@,
                            #[trigger] corpus@[ii].text@,
                        ),
                    decreases part@.len() - pj,
                {
                    acc.push(part[pj]);
                    pj = pj + 1;
                }
            },
            Err(e) => {
                return Err(e);
            },
        }
        bi = bi + 1;
    }
    proof {
        if n > 0 {
            assert(acc@.len() == bounds@[bounds@.len() - 1].1);
        }
        assert(acc@ =~= records_spec(query@, corpus@));
    }
    Ok(acc)
}

/// Predicts the label of `query` by majority vote among the `k` nearest
/// corpus samples. Exactly when `k` is zero or exceeds the corpus size (an
/// empty corpus admits no `k`) the call reports `InvalidK`; exactly when the
/// batch size is zero it reports `InvalidBatchSize`; exactly when some pair
/// admits no exact distance it reports `DegenerateDistance`; otherwise it
/// returns the label `predicted_label_spec` owes — the same label for every
/// batch size.
pub fn predict(query: &str, corpus: &Vec<Sample>, batch_size: usize, k: usize) -> (r: Result<
    i32,
    Error,
>)
    ensures
        r == predict_result(query@, corpus@, k as int, batch_size as int),
        k == 0 || k > corpus@.len() ==> r == Err::<i32, Error>(Error::InvalidK),
        r is Ok ==> r->Ok_0 == predicted_label_spec(query@, corpus@, k as int),
{
    if k == 0 || k > corpus.len() {
        return Err(Error::InvalidK);
    }
    if batch_size == 0 {
        return Err(Error::InvalidBatchSize);
    }
    match compute_distances(query, corpus, batch_size) {
        Ok(records) => {
            proof {
                assert forall|j: int| 0 <= j < records@.len() implies rec_wf(
                    #[trigger] records@[j],
                ) && records@[j].index < corpus@.len() by {
                    lemma_pair_ok_wf(query@, corpus@[j].text@);
                }
            }
            let label = classify(records, corpus, k);
            Ok(label)
        },
        Err(e) => Err(e),
    }
}

/// Two predictions with the same query, corpus, `k` and batch size resolve
/// to the same outcome: the result is a function of those inputs alone.
pub proof fn lemma_predict_deterministic(
    q1: Seq<char>,
    q2: Seq<char>,
    c1: Seq<Sample>,
    c2: Seq<Sample>,
    k1: int,
    k2: int,
    b1: int,
    b2: int,
)
    requires
        q1 == q2,
        c1 == c2,
        k1 == k2,
        b1 == b2,
    ensures
        predict_result(q1, c1, k1, b1) == predict_result(q2, c2, k2, b2),
{
}

/// The batch size never changes the outcome: any two positive batch sizes
/// give the same result, label or error.
pub proof fn lemma_batch_size_invariance(q: Seq<char>, c: Seq<Sample>, k: int, b1: int, b2: int)
    requires
        b1 >= 1,
        b2 >= 1,
    ensures
        predict_result(q, c, k, b1) == predict_result(q, c, k, b2),
{
}

/// With `k = 1` the prediction is the label of the single nearest record:
/// the one that is `rec_le` every record of the aggregate.
pub proof fn lemma_k_one(q: Seq<char>, c: Seq<Sample>)
    requires
        c.len() >= 1,
        all_pairs_ok(q, c),
    ensures
        ({
            let recs = records_spec(q, c);
            let nearest = recs[min_idx(recs)];
            &&& predicted_label_spec(q, c, 1) == c[nearest.index as int].label
            &&& forall|j: int| 0 <= j < recs.len() ==> rec_le(nearest, #[trigger] recs[j])
        }),
{
    let recs = records_spec(q, c);
    assert forall|j: int| 0 <= j < recs.len() implies rec_wf(#[trigger] recs[j]) by {
        lemma_pair_ok_wf(q, c[j].text@);
    }
    crate::classify::lemma_min_idx_bounds(recs);
    crate::classify::lemma_min_idx_least(recs);
    let nearest = recs[min_idx(recs)];
    let sorted = crate::classify::sel_sort(recs);
    assert(sorted.take(1) =~= seq![nearest]);
    assert(crate::classify::label_seq(seq![nearest], c) =~= seq![c[nearest.index as int].label]);
}

/// With `k = N` every record votes: the prediction is the majority label of
/// the whole corpus, whatever the distances.
pub proof fn lemma_k_full(q: Seq<char>, c: Seq<Sample>)
    requires
        1 <= c.len() <= usize::MAX,
        all_pairs_ok(q, c),
    ensures
        predicted_label_spec(q, c, c.len() as int) == majority(corpus_labels(c)),
{
    let recs = records_spec(q, c);
    crate::classify::lemma_sel_sort_multiset(recs);
    crate::classify::lemma_label_seq_sel_sort(recs, c);
    let sorted = crate::classify::sel_sort(recs);
    assert(sorted.take(c.len() as int) =~= sorted);
    assert forall|i: int|
        0 <= i < c.len() implies crate::classify::label_seq(recs, c)[i] == corpus_labels(c)[i] by {
        assert(recs[i] == rec_spec(q, c, i));
    }
    assert(crate::classify::label_seq(recs, c) =~= corpus_labels(c));
    crate::classify::lemma_majority_multiset(
        crate::classify::label_seq(sorted, c),
        corpus_labels(c),
    );
}

/// How many of the first `n` test samples `predict` labels correctly, by
/// exact equality of labels.
pub open spec fn correct_upto(test: Seq<Sample>, c: Seq<Sample>, k: int, n: int) -> int
    decreases n,
{
    if n <= 0 {
        0
    } else {
        correct_upto(test, c, k, n - 1) + if predicted_label_spec(test[n - 1].text@, c, k)
            == test[n - 1].label {
            1int
        } else {
            0int
        }
    }
}

/// Whether every test sample admits a prediction against the corpus.
pub open spec fn eval_ok(test: Seq<Sample>, c: Seq<Sample>) -> bool {
    forall|i: int| 0 <= i < test.len() ==> all_pairs_ok(#[trigger] test[i].text@, c)
}

/// Evaluation mode: predicts every test sample against the corpus and counts
/// the exact label matches. Returns `(correct, total)`; the accuracy is their
/// quotient, left to the caller to display.
pub fn evaluate(test: &Vec<Sample>, corpus: &Vec<Sample>, batch_size: usize, k: usize) -> (r:
    Result<(usize, usize), Error>)
    ensures
        r is Ok <==> (1 <= k <= corpus@.len() && batch_size >= 1 && eval_ok(test@, corpus@)),
        r is Ok ==> r->Ok_0.1 == test@.len(),
        r is Ok ==> r->Ok_0.0 == correct_upto(test@, corpus@, k as int, test@.len() as int),
{
    if k == 0 || k > corpus.len() {
        return Err(Error::InvalidK);
    }
    if batch_size == 0 {
        return Err(Error::InvalidBatchSize);
    }
    let mut correct: usize = 0;
    let mut i: usize = 0;
    while i < test.len()
        invariant
            1 <= k <= corpus@.len(),
            batch_size >= 1,
            0 <= i <= test@.len(),
            correct <= i,
            correct == correct_upto(test@, corpus@, k as int, i as int),
            forall|ii: int| 0 <= ii < i ==> all_pairs_ok(#[trigger] test@[ii].text@, corpus@),
        decreases test@.len() - i,
    {
        let sample = &test[i];
        match predict(sample.text.as_str(), corpus, batch_size, k) {
            Ok(label) => {
                if label == sample.label {
                    correct = correct + 1;
                }
            },
            Err(e) => {
                return Err(e);
            },
        }
        i = i + 1;
    }
    Ok((correct, test.len()))
}

} // verus!
