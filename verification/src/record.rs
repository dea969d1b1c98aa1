//! The record model: answers and examples.
//!
//! All text (titles, contexts, questions, answer strings) is held as UTF-8
//! bytes, and answer offsets are byte offsets into the context, as in the
//! source dataset format.

use vstd::prelude::*;

verus! {

/// Possible answers to a question. Each answer is a substring of the owning
/// example's context together with its starting byte offset in that context.
/// The two arrays are parallel: `text[i]` starts at `answer_start[i]`.
#[derive(Debug)]
pub struct Answers {
    pub text: Vec<Vec<u8>>,
    pub answer_start: Vec<i64>,
}

/// Mathematical image of [`Answers`].
#[verifier::ext_equal]
pub struct AnswersView {
    pub text: Seq<Seq<u8>>,
    pub answer_start: Seq<i64>,
}

impl View for Answers {
    type V = AnswersView;

    open spec fn view(&self) -> AnswersView {
        AnswersView { text: self.text.deep_view(), answer_start: self.answer_start@ }
    }
}

impl AnswersView {
    /// The two arrays are co-indexed.
    pub open spec fn wf(self) -> bool {
        self.text.len() == self.answer_start.len()
    }
}

impl Answers {
    /// The two arrays are co-indexed.
    pub open spec fn wf(self) -> bool {
        self@.wf()
    }

    /// Returns a value-equal copy of the answers.
    pub fn duplicate(&self) -> (r: Answers)
        ensures
            r@ == self@,
    {
        let r = Answers { text: copy_texts(&self.text), answer_start: copy_starts(&self.answer_start) };
        assert(r@ =~= self@);
        r
    }
}

/// A flattened question-answering example: the title of its passage group,
/// the reading passage (context), the question, and the answers.
#[derive(Debug)]
pub struct Example {
    pub title: Vec<u8>,
    pub context: Vec<u8>,
    pub question: Vec<u8>,
    pub answers: Answers,
}

/// Mathematical image of [`Example`].
#[verifier::ext_equal]
pub struct ExampleView {
    pub title: Seq<u8>,
    pub context: Seq<u8>,
    pub question: Seq<u8>,
    pub answers: AnswersView,
}

impl View for Example {
    type V = ExampleView;

    open spec fn view(&self) -> ExampleView {
        ExampleView {
            title: self.title@,
            context: self.context@,
            question: self.question@,
            answers: self.answers@,
        }
    }
}

/// The span `[start, start + text.len())` lies inside the context and the
/// context holds exactly `text` there.
pub open spec fn answer_span_valid(context: Seq<u8>, start: i64, text: Seq<u8>) -> bool {
    &&& 0 <= start
    &&& start + text.len() <= context.len()
    &&& context.subrange(start as int, start + text.len()) == text
}

impl ExampleView {
    /// The answer arrays are co-indexed.
    pub open spec fn wf(self) -> bool {
        self.answers.wf()
    }

    /// Every recorded answer span lies inside the context and matches its
    /// answer text.
    pub open spec fn spans_valid(self) -> bool {
        forall|i: int|
            0 <= i < self.answers.text.len() ==> answer_span_valid(
                self.context,
                self.answers.answer_start[i],
                #[trigger] self.answers.text[i],
            )
    }
}

impl Example {
    /// The answer arrays are co-indexed.
    pub open spec fn wf(self) -> bool {
        self@.wf()
    }

    /// Returns a value-equal copy of the example.
    pub fn duplicate(&self) -> (r: Example)
        ensures
            r@ == self@,
    {
        let r = Example {
            title: copy_bytes(&self.title),
            context: copy_bytes(&self.context),
            question: copy_bytes(&self.question),
            answers: self.answers.duplicate(),
        };
        assert(r@ =~= self@);
        r
    }
}

/// Returns a value-equal copy of a byte string.
pub fn copy_bytes(v: &Vec<u8>) -> (r: Vec<u8>)
    ensures
        r@ == v@,
{
    let n = v.len();
    let mut r: Vec<u8> = Vec::new();
    let mut i: usize = 0;
    while i < n
        invariant
            0 <= i <= n,
            n == v@.len(),
            r@ == v@.take(i as int),
        decreases n - i,
    {
        r.push(v[i]);
        assert(r@ =~= v@.take(i as int + 1));
        i = i + 1;
    }
    assert(r@ =~= v@);
    r
}

/// Returns a value-equal copy of an array of byte strings.
pub fn copy_texts(v: &Vec<Vec<u8>>) -> (r: Vec<Vec<u8>>)
    ensures
        r.deep_view() == v.deep_view(),
{
    let n = v.len();
    let mut r: Vec<Vec<u8>> = Vec::new();
    let mut i: usize = 0;
    while i < n
        invariant
            0 <= i <= n,
            n == v@.len(),
            r@.len() == i,
            forall|j: int| 0 <= j < i ==> #[trigger] r@[j]@ == v@[j]@,
        decreases n - i,
    {
        r.push(copy_bytes(&v[i]));
        i = i + 1;
    }
    assert forall|j: int| 0 <= j < n implies r.deep_view()[j] == v.deep_view()[j] by {
        assert(r@[j]@ == v@[j]@);
        assert(r.deep_view()[j] =~= r@[j]@);
        assert(v.deep_view()[j] =~= v@[j]@);
    }
    assert(r.deep_view() =~= v.deep_view());
    r
}

/// Returns a value-equal copy of an array of answer offsets.
pub fn copy_starts(v: &Vec<i64>) -> (r: Vec<i64>)
    ensures
        r@ == v@,
{
    let n = v.len();
    let mut r: Vec<i64> = Vec::new();
    let mut i: usize = 0;
    while i < n
        invariant
            0 <= i <= n,
            n == v@.len(),
            r@ == v@.take(i as int),
        decreases n - i,
    {
        r.push(v[i]);
        assert(r@ =~= v@.take(i as int + 1));
        i = i + 1;
    }
    assert(r@ =~= v@);
    r
}

} // verus!
