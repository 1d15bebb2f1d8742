//! Labeled samples and the reference corpus.
//!
//! The corpus is an ordered sequence of labeled samples, indexed from zero,
//! shared read-only by everything that computes distances. A sample's text is
//! built once, from the two text columns of a row, joined by a comma.

use vstd::prelude::*;

verus! {

/// One labeled reference sample: an integer class id and the text it labels.
#[derive(Clone, Debug)]
pub struct Sample {
    pub label: i32,
    pub text: String,
}

/// The label of each sample, in corpus order.
pub open spec fn corpus_labels(c: Seq<Sample>) -> Seq<i32> {
    c.map_values(|s: Sample| s.label)
}

/// Builds one sample out of a row's label and two text columns, joined by a
/// comma, in column order.
pub fn make_sample(label: i32, title: &str, desc: &str) -> (s: Sample)
    ensures
        s.label == label,
        s.text@ == title@ + ","@ + desc@,
{
    let mut text = String::from_str(title);
    text.append(",");
    text.append(desc);
    Sample { label, text }
}

} // verus!
