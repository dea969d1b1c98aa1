//! The corpus writer's verified half: flattening a derived split into the
//! five parallel arrays of the output JSON schema. Serializing the arrays to
//! JSON text is plain encoding and happens outside the library.

use vstd::prelude::*;
use crate::corpus::Corpus;
use crate::record::Answers;

verus! {

/// The flattened output schema: five parallel arrays, one element per
/// emitted example, in corpus order.
pub struct Output {
    pub title: Vec<Vec<u8>>,
    pub context: Vec<Vec<u8>>,
    pub question: Vec<Vec<u8>>,
    pub id: Vec<Vec<u8>>,
    pub answers: Vec<Answers>,
}

/// Flattens a derived split into the parallel-array output schema: element
/// `i` of every array comes from the split's entry at position `i`.
pub fn flatten_examples(c: &Corpus) -> (out: Output)
    requires
        c.wf(),
    ensures
        out.id@.len() == c.key_seq().len(),
        out.title@.len() == c.key_seq().len(),
        out.context@.len() == c.key_seq().len(),
        out.question@.len() == c.key_seq().len(),
        out.answers@.len() == c.key_seq().len(),
        forall|i: int| 0 <= i < c.key_seq().len() ==> #[trigger] out.id@[i]@ == c.key_seq()[i],
        forall|i: int|
            0 <= i < c.key_seq().len() ==> #[trigger] out.title@[i]@ == c.val_seq()[i].title,
        forall|i: int|
            0 <= i < c.key_seq().len() ==> #[trigger] out.context@[i]@ == c.val_seq()[i].context,
        forall|i: int|
            0 <= i < c.key_seq().len() ==> #[trigger] out.question@[i]@ == c.val_seq()[i].question,
        forall|i: int|
            0 <= i < c.key_seq().len() ==> #[trigger] out.answers@[i]@ == c.val_seq()[i].answers,
{
    let n = c.len();
    let mut out = Output {
        title: Vec::new(),
        context: Vec::new(),
        question: Vec::new(),
        id: Vec::new(),
        answers: Vec::new(),
    };
    let mut i: usize = 0;
    while i < n
        invariant
            c.wf(),
            0 <= i <= n,
            n == c.key_seq().len(),
            out.id@.len() == i,
            out.title@.len() == i,
            out.context@.len() == i,
            out.question@.len() == i,
            out.answers@.len() == i,
            forall|j: int| 0 <= j < i ==> #[trigger] out.id@[j]@ == c.key_seq()[j],
            forall|j: int| 0 <= j < i ==> #[trigger] out.title@[j]@ == c.val_seq()[j].title,
            forall|j: int| 0 <= j < i ==> #[trigger] out.context@[j]@ == c.val_seq()[j].context,
            forall|j: int| 0 <= j < i ==> #[trigger] out.question@[j]@ == c.val_seq()[j].question,
            forall|j: int| 0 <= j < i ==> #[trigger] out.answers@[j]@ == c.val_seq()[j].answers,
        decreases n - i,
    {
        let v = c.val_at(i);
        out.id.push(crate::record::copy_bytes(c.key_at(i)));
        out.title.push(crate::record::copy_bytes(&v.title));
        out.context.push(crate::record::copy_bytes(&v.context));
        out.question.push(crate::record::copy_bytes(&v.question));
        out.answers.push(v.answers.duplicate());
        i = i + 1;
    }
    out
}

/// Round-trip law of the flattened form: the id array and the example
/// arrays carry exactly the split's mapping. Every array position holds an
/// entry of the split under its own id, every id of the split occurs at
/// exactly one position, and the example stored there is the split's value
/// for that id — so rebuilding an id-to-example mapping from the arrays
/// reconstructs the split exactly, whatever order the arrays are read in.
pub proof fn lemma_flatten_round_trip(c: Corpus)
    requires
        c.wf(),
    ensures
        forall|i: int|
            0 <= i < c.key_seq().len() ==> c.has(#[trigger] c.key_seq()[i]) && c.val_of(
                c.key_seq()[i],
            ) == c.val_seq()[i],
        forall|k: Seq<u8>| #[trigger] c.has(k) ==> exists|i: int|
            0 <= i < c.key_seq().len() && c.key_seq()[i] == k && c.val_seq()[i] == c.val_of(k),
        forall|i: int, j: int|
            0 <= i < c.key_seq().len() && 0 <= j < c.key_seq().len() && i != j
                ==> c.key_seq()[i] != c.key_seq()[j],
{
    assert forall|i: int|
        0 <= i < c.key_seq().len() implies c.has(#[trigger] c.key_seq()[i]) && c.val_of(
        c.key_seq()[i],
    ) == c.val_seq()[i] by {
        c.lemma_at_index(i);
    }
    assert forall|k: Seq<u8>| #[trigger] c.has(k) implies exists|i: int|
        0 <= i < c.key_seq().len() && c.key_seq()[i] == k && c.val_seq()[i] == c.val_of(k) by {
        let i = choose|i: int| 0 <= i < c.key_seq().len() && c.key_seq()[i] == k;
        c.lemma_at_index(i);
        assert(c.key_seq()[i] == k && c.val_seq()[i] == c.val_of(k));
    }
}

} // verus!
