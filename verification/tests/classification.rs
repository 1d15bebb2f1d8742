use std::io::Write;

use knnzip::args::Args;
use knnzip::batch::batch_bounds;
use knnzip::classify::{majority_label, sort_records, DistRecord};
use knnzip::corpus::{make_sample, Sample};
use knnzip::distance::{ncd, ncd_from_lens, Ncd};
use knnzip::predict::{compute_distances, evaluate, predict, worker_distances};
use knnzip::Error;

fn corpus_of(items: &[(i32, &str)]) -> Vec<Sample> {
    items
        .iter()
        .map(|&(label, text)| Sample { label, text: text.to_string() })
        .collect()
}

fn gzip_len_of(text: &str) -> usize {
    let mut encoder =
        flate2::write::GzEncoder::new(Vec::new(), flate2::Compression::default());
    encoder.write_all(text.as_bytes()).unwrap();
    encoder.finish().unwrap().len()
}

fn as_f64(d: Ncd) -> f64 {
    d.num as f64 / d.den as f64
}

#[test]
fn ncd_is_nonnegative_on_text() {
    let d = ncd("the quick brown fox", "jumps over the lazy dog").unwrap();
    assert!(d.den >= 1);
    assert!(d.num >= 0);
    assert!(as_f64(d) >= 0.0);
}

#[test]
fn self_distance_is_small() {
    let text = "the cat sat on the mat and the cat sat on the mat ".repeat(8);
    let d = ncd(&text, &text).unwrap();
    let v = as_f64(d);
    assert!(v >= 0.0);
    assert!(v < 0.5, "self distance {} not near minimal", v);
}

#[test]
fn ncd_matches_the_compressed_lengths() {
    let a = "cat";
    let b = "quarterly finance report";
    let cx1 = gzip_len_of(a);
    let cx2 = gzip_len_of(b);
    let joined = format!("{} {}", a, b);
    let cx1x2 = gzip_len_of(&joined);
    let expected = Ncd {
        num: cx1x2 as i64 - cx1.min(cx2) as i64,
        den: cx1.max(cx2) as u64,
    };
    assert_eq!(ncd(a, b).unwrap(), expected);
}

#[test]
fn ncd_from_lens_on_exact_values() {
    assert_eq!(ncd_from_lens(10, 20, 15), Some(Ncd { num: 5, den: 20 }));
    assert_eq!(ncd_from_lens(20, 10, 35), Some(Ncd { num: 25, den: 20 }));
    assert_eq!(ncd_from_lens(0, 0, 0), None);
    assert_eq!(ncd_from_lens(usize::MAX, 1, 2), None);
}

#[test]
fn batch_bounds_partition_the_corpus() {
    assert_eq!(batch_bounds(10, 3), vec![(0, 3), (3, 6), (6, 9), (9, 10)]);
    assert_eq!(batch_bounds(4, 4), vec![(0, 4)]);
    assert_eq!(batch_bounds(4, 100), vec![(0, 4)]);
    assert_eq!(batch_bounds(0, 5), vec![]);
}

#[test]
fn aggregate_holds_one_record_per_index() {
    let c = corpus_of(&[
        (1, "cat"),
        (1, "cats"),
        (2, "finance report"),
        (2, "stock market"),
        (3, "volcano"),
    ]);
    for batch_size in 1..=6 {
        let records = compute_distances("kitten", &c, batch_size).unwrap();
        assert_eq!(records.len(), c.len());
        for (i, r) in records.iter().enumerate() {
            assert_eq!(r.index, i);
        }
    }
}

#[test]
fn worker_covers_its_range() {
    let c = corpus_of(&[(1, "cat"), (2, "dog"), (3, "owl"), (4, "fox")]);
    let cx1 = gzip_len_of("kitten");
    let part = worker_distances("kitten", cx1, &c, 1, 3).unwrap();
    assert_eq!(part.len(), 2);
    assert_eq!(part[0].index, 1);
    assert_eq!(part[1].index, 2);
}

#[test]
fn prediction_is_deterministic() {
    let c = corpus_of(&[(1, "cat"), (1, "cats"), (2, "finance report"), (2, "stock market")]);
    let first = predict("kitten", &c, 2, 2);
    let second = predict("kitten", &c, 2, 2);
    assert_eq!(first, second);
}

#[test]
fn prediction_ignores_the_batch_size() {
    let c = corpus_of(&[(1, "cat"), (1, "cats"), (2, "finance report"), (2, "stock market")]);
    let reference = predict("kitten", &c, 1, 2).unwrap();
    for batch_size in [2, 3, 4, 100] {
        assert_eq!(predict("kitten", &c, batch_size, 2).unwrap(), reference);
    }
}

#[test]
fn k_one_takes_the_nearest_label() {
    let c = corpus_of(&[(1, "cat"), (2, "finance report quarterly earnings")]);
    let label = predict("finance report quarterly earnings", &c, 10, 1).unwrap();
    assert_eq!(label, 2);
}

#[test]
fn k_equal_to_n_takes_the_global_majority() {
    let c = corpus_of(&[(7, "alpha"), (7, "beta"), (7, "gamma"), (3, "delta")]);
    assert_eq!(predict("anything at all", &c, 2, 4).unwrap(), 7);
}

#[test]
fn vote_ties_go_to_the_smallest_label() {
    let c = corpus_of(&[(9, "alpha"), (5, "beta"), (9, "gamma"), (5, "delta")]);
    assert_eq!(predict("zzz", &c, 4, 4).unwrap(), 5);
}

#[test]
fn end_to_end_scenario() {
    let c = corpus_of(&[(1, "cat"), (1, "cats"), (2, "finance report"), (2, "stock market")]);
    assert_eq!(predict("kitten", &c, 2, 2).unwrap(), 1);
}

#[test]
fn evaluation_counts_exact_matches() {
    let c = corpus_of(&[(1, "cat"), (2, "finance report"), (3, "volcano eruption")]);
    let test_ok = corpus_of(&[(1, "cat"), (2, "finance report"), (3, "volcano eruption")]);
    let (correct, total) = evaluate(&test_ok, &c, 2, 1).unwrap();
    assert_eq!(total, 3);
    assert_eq!(correct, 3);
    assert_eq!(correct as f64 / total as f64, 1.0);

    let test_mislabeled = corpus_of(&[(9, "cat")]);
    let (correct, total) = evaluate(&test_mislabeled, &c, 2, 1).unwrap();
    assert_eq!((correct, total), (0, 1));
}

#[test]
fn invalid_k_is_reported() {
    let c = corpus_of(&[(1, "cat"), (2, "dog"), (3, "owl"), (4, "fox")]);
    assert_eq!(predict("kitten", &c, 2, 0), Err(Error::InvalidK));
    assert_eq!(predict("kitten", &c, 2, 5), Err(Error::InvalidK));
    let empty: Vec<Sample> = Vec::new();
    assert_eq!(predict("kitten", &empty, 2, 1), Err(Error::InvalidK));
    assert_eq!(evaluate(&c, &c, 2, 0), Err(Error::InvalidK));
}

#[test]
fn invalid_batch_size_is_reported() {
    let c = corpus_of(&[(1, "cat"), (2, "dog")]);
    assert_eq!(predict("kitten", &c, 0, 1), Err(Error::InvalidBatchSize));
    assert_eq!(evaluate(&c, &c, 0, 1), Err(Error::InvalidBatchSize));
}

#[test]
fn records_sort_by_distance_then_index() {
    let records = vec![
        DistRecord { index: 0, ncd: Ncd { num: 1, den: 2 } },
        DistRecord { index: 1, ncd: Ncd { num: 1, den: 3 } },
        DistRecord { index: 2, ncd: Ncd { num: 2, den: 6 } },
        DistRecord { index: 3, ncd: Ncd { num: -1, den: 4 } },
    ];
    let sorted = sort_records(records);
    let order: Vec<usize> = sorted.iter().map(|r| r.index).collect();
    assert_eq!(order, vec![3, 1, 2, 0]);
}

#[test]
fn majority_prefers_votes_then_smaller_label() {
    assert_eq!(majority_label(&vec![2, 1, 2]), 2);
    assert_eq!(majority_label(&vec![2, 1]), 1);
    assert_eq!(majority_label(&vec![4]), 4);
}

#[test]
fn default_configuration_values() {
    let a = Args::default();
    assert_eq!(a.k, 10);
    assert_eq!(a.train_samples, 120000);
    assert_eq!(a.batch_size, 10000);
    assert_eq!(a.train_path, "data/ag_news/train.csv");
    assert!(a.test_path.is_none());
    assert_eq!(a.num_test_samples, 1000);
    assert!(!a.help);
}

#[test]
fn samples_join_title_and_body_with_a_comma() {
    let s = make_sample(3, "title text", "body text");
    assert_eq!(s.label, 3);
    assert_eq!(s.text, "title text,body text");
}
