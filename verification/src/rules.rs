//! The partition rules: Clean, Append, Twoway, Challenge.
//!
//! Each rule consumes the full id-to-example corpus and produces a derived
//! split, keyed by base id (Clean, Append, Twoway) or by full variant id
//! (Challenge). Append and Twoway choose among the clean example, the
//! adversarially appended variant and (for Twoway) a prepended rewrite by
//! drawing one pseudo-random sample per qualifying id; everything after the
//! draw is verified for every possible sample value.

use vstd::prelude::*;
use crate::corpus::Corpus;
use crate::ids::{has_hyphen, base_of, high_conf_suffix, id_has_hyphen, base_id, high_conf_id,
    lemma_base_no_hyphen, lemma_high_conf_base};
use crate::record::{Answers, AnswersView, Example, ExampleView, answer_span_valid, copy_bytes,
    copy_texts};
use crate::sample::{new_rng, sample_below};
use crate::text::{trimmed, trim_bytes, concat_bytes, suffix_from, lemma_trimmed_len};

verus! {

/// Size of the half-open sample range drawn from for Append and Twoway.
pub const SAMPLE_SPACE: u32 = 69808;

/// Append: samples below this limit choose the clean example.
pub const APPEND_CLEAN_LIMIT: u32 = 26009;

/// Twoway: samples below this limit choose the clean example.
pub const TWOWAY_CLEAN_LIMIT: u32 = 11339;

/// Twoway: samples in `[TWOWAY_CLEAN_LIMIT, TWOWAY_APPEND_LIMIT)` choose the
/// appended variant; the rest choose the prepended rewrite.
pub const TWOWAY_APPEND_LIMIT: u32 = 40469;

/// Summary counts emitted by the Append rule.
pub struct AppendCounts {
    pub clean: usize,
    pub appended: usize,
}

/// Summary counts emitted by the Twoway rule.
pub struct TwowayCounts {
    pub clean: usize,
    pub appended: usize,
    pub prepended: usize,
}

/// Summary counts emitted by the Challenge rule.
pub struct ChallengeCounts {
    pub clean: usize,
    pub challenge: usize,
}

/// The adversarial sentence that the append perturbation put after the
/// original context, trimmed of surrounding white space, with one trailing
/// space: the text that the prepend transformation moves to the front.
pub open spec fn prefix_of(clean_context: Seq<u8>, variant_context: Seq<u8>) -> Seq<u8> {
    trimmed(variant_context.skip(clean_context.len() as int)) + seq![32u8]
}

/// The example produced by the prepend transformation from a clean example
/// and its appended variant: the adversarial sentence now precedes the
/// original context, and every answer offset moves forward by its length.
pub open spec fn prepend_view(clean: ExampleView, variant: ExampleView) -> ExampleView {
    let pre = prefix_of(clean.context, variant.context);
    ExampleView {
        title: clean.title,
        context: pre + clean.context,
        question: clean.question,
        answers: AnswersView {
            text: clean.answers.text,
            answer_start: Seq::new(
                clean.answers.answer_start.len(),
                |i: int| (clean.answers.answer_start[i] + pre.len()) as i64,
            ),
        },
    }
}

/// The machine limits under which the prepend transformation is exact: the
/// variant context extends the clean one, and the rewritten context length
/// and shifted answer offsets stay representable.
pub open spec fn prepend_fits(clean: ExampleView, variant: ExampleView) -> bool {
    &&& clean.context.len() <= variant.context.len()
    &&& clean.context.len() + variant.context.len() + 1 <= i64::MAX
    &&& clean.context.len() + variant.context.len() + 1 <= usize::MAX
    &&& forall|i: int|
        0 <= i < clean.answers.answer_start.len()
            ==> clean.answers.answer_start[i] + variant.context.len() + 1 <= i64::MAX
}

/// Every variant in the corpus whose base id is present can be prepended
/// within machine limits.
pub open spec fn twoway_compatible(c: Corpus) -> bool {
    forall|k: Seq<u8>|
        #[trigger] c.has(k) && has_hyphen(k) && c.has(base_of(k)) ==> prepend_fits(
            c.val_of(base_of(k)),
            c.val_of(k),
        )
}

/// The value stored under base id `k` of an Append split: exactly the clean
/// example, or exactly the appended variant of some variant id with base `k`.
pub open spec fn append_value_ok(out: Corpus, c: Corpus, k: Seq<u8>) -> bool {
    ||| out.val_of(k) == c.val_of(k)
    ||| exists|v: Seq<u8>|
        c.has(v) && has_hyphen(v) && base_of(v) == k && out.val_of(k) == #[trigger] c.val_of(v)
}

/// The value stored under base id `k` of a Twoway split: exactly the clean
/// example, exactly the appended variant, or exactly the prepended rewrite.
pub open spec fn twoway_value_ok(out: Corpus, c: Corpus, k: Seq<u8>) -> bool {
    ||| out.val_of(k) == c.val_of(k)
    ||| exists|v: Seq<u8>|
        c.has(v) && has_hyphen(v) && base_of(v) == k && (out.val_of(k) == #[trigger] c.val_of(v)
            || out.val_of(k) == prepend_view(c.val_of(k), c.val_of(v)))
}

/// Clean rule: copy every example whose id has no hyphen, keyed by itself.
pub fn get_clean_examples(c: &Corpus) -> (r: (Corpus, usize))
    requires
        c.wf(),
    ensures
        r.0.wf(),
        forall|k: Seq<u8>| #[trigger] r.0.has(k) <==> c.has(k) && !has_hyphen(k),
        forall|k: Seq<u8>| #[trigger] r.0.has(k) ==> r.0.val_of(k) == c.val_of(k),
        r.1 == r.0.key_seq().len(),
{
    let n = c.len();
    let mut out = Corpus::new();
    let mut count: usize = 0;
    let mut i: usize = 0;
    while i < n
        invariant
            c.wf(),
            out.wf(),
            0 <= i <= n,
            n == c.key_seq().len(),
            forall|k: Seq<u8>| #[trigger] out.has(k) ==> c.has(k) && !has_hyphen(k)
                && out.val_of(k) == c.val_of(k),
            forall|k: Seq<u8>| #[trigger] out.has(k) ==> exists|j: int|
                0 <= j < i && c.key_seq()[j] == k,
            forall|j: int| 0 <= j < i && !has_hyphen(#[trigger] c.key_seq()[j]) ==> out.has(
                c.key_seq()[j],
            ),
            count == out.key_seq().len(),
            count <= i,
        decreases n - i,
    {
        let k = c.key_at(i);
        proof {
            c.lemma_at_index(i as int);
        }
        if !id_has_hyphen(k) {
            proof {
                if out.has(k@) {
                    let j = choose|j: int| 0 <= j < i && c.key_seq()[j] == k@;
                    assert(c.key_seq()[j] == c.key_seq()[i as int]);
                    assert(false);
                }
            }
            let kk = copy_bytes(k);
            let v = c.val_at(i).duplicate();
            let ghost pre_out = out;
            out.insert(kk, v);
            count = count + 1;
            proof {
                assert forall|k2: Seq<u8>| #[trigger] out.has(k2) implies c.has(k2)
                    && !has_hyphen(k2) && out.val_of(k2) == c.val_of(k2) by {
                    if k2 == k@ {
                        assert(out.val_of(k2) == c.val_seq()[i as int]);
                    } else {
                        assert(pre_out.has(k2));
                    }
                }
                assert forall|k2: Seq<u8>| #[trigger] out.has(k2) implies exists|j: int|
                    0 <= j < i + 1 && c.key_seq()[j] == k2 by {
                    if k2 == k@ {
                        assert(c.key_seq()[i as int] == k2);
                    } else {
                        let j = choose|j: int| 0 <= j < i && c.key_seq()[j] == k2;
                        assert(0 <= j < i + 1 && c.key_seq()[j] == k2);
                    }
                }
            }
        }
        i = i + 1;
    }
    proof {
        assert forall|k: Seq<u8>| c.has(k) && !has_hyphen(k) implies out.has(k) by {
            let j = choose|j: int| 0 <= j < c.key_seq().len() && c.key_seq()[j] == k;
            assert(!has_hyphen(c.key_seq()[j]));
        }
    }
    (out, count)
}

/// Challenge rule: drop every hyphen-free id; copy every variant example
/// unchanged, keyed by its full id.
pub fn get_challenge_examples(c: &Corpus) -> (r: (Corpus, ChallengeCounts))
    requires
        c.wf(),
    ensures
        r.0.wf(),
        forall|k: Seq<u8>| #[trigger] r.0.has(k) <==> c.has(k) && has_hyphen(k),
        forall|k: Seq<u8>| #[trigger] r.0.has(k) ==> r.0.val_of(k) == c.val_of(k),
        r.1.challenge == r.0.key_seq().len(),
        r.1.clean + r.1.challenge == c.key_seq().len(),
{
    let n = c.len();
    let mut out = Corpus::new();
    let mut n_clean: usize = 0;
    let mut n_challenge: usize = 0;
    let mut i: usize = 0;
    while i < n
        invariant
            c.wf(),
            out.wf(),
            0 <= i <= n,
            n == c.key_seq().len(),
            forall|k: Seq<u8>| #[trigger] out.has(k) ==> c.has(k) && has_hyphen(k)
                && out.val_of(k) == c.val_of(k),
            forall|k: Seq<u8>| #[trigger] out.has(k) ==> exists|j: int|
                0 <= j < i && c.key_seq()[j] == k,
            forall|j: int| 0 <= j < i && has_hyphen(#[trigger] c.key_seq()[j]) ==> out.has(
                c.key_seq()[j],
            ),
            n_challenge == out.key_seq().len(),
            n_clean + n_challenge == i,
        decreases n - i,
    {
        let k = c.key_at(i);
        proof {
            c.lemma_at_index(i as int);
        }
        if !id_has_hyphen(k) {
            n_clean = n_clean + 1;
        } else {
            proof {
                if out.has(k@) {
                    let j = choose|j: int| 0 <= j < i && c.key_seq()[j] == k@;
                    assert(c.key_seq()[j] == c.key_seq()[i as int]);
                    assert(false);
                }
            }
            let kk = copy_bytes(k);
            let v = c.val_at(i).duplicate();
            let ghost pre_out = out;
            out.insert(kk, v);
            n_challenge = n_challenge + 1;
            proof {
                assert forall|k2: Seq<u8>| #[trigger] out.has(k2) implies c.has(k2)
                    && has_hyphen(k2) && out.val_of(k2) == c.val_of(k2) by {
                    if k2 == k@ {
                        assert(out.val_of(k2) == c.val_seq()[i as int]);
                    } else {
                        assert(pre_out.has(k2));
                    }
                }
                assert forall|k2: Seq<u8>| #[trigger] out.has(k2) implies exists|j: int|
                    0 <= j < i + 1 && c.key_seq()[j] == k2 by {
                    if k2 == k@ {
                        assert(c.key_seq()[i as int] == k2);
                    } else {
                        let j = choose|j: int| 0 <= j < i && c.key_seq()[j] == k2;
                        assert(0 <= j < i + 1 && c.key_seq()[j] == k2);
                    }
                }
            }
        }
        i = i + 1;
    }
    proof {
        assert forall|k: Seq<u8>| c.has(k) && has_hyphen(k) implies out.has(k) by {
            let j = choose|j: int| 0 <= j < c.key_seq().len() && c.key_seq()[j] == k;
            assert(has_hyphen(c.key_seq()[j]));
        }
    }
    (out, ChallengeCounts { clean: n_clean, challenge: n_challenge })
}

/// The choice the Append rule makes from one sample: below the limit, the
/// clean example; otherwise the appended variant. Never a blend of the two.
pub fn append_pick(sample: u32, clean_ex: &Example, variant_ex: &Example) -> (r: Example)
    ensures
        sample < APPEND_CLEAN_LIMIT ==> r@ == clean_ex@,
        sample >= APPEND_CLEAN_LIMIT ==> r@ == variant_ex@,
{
    if sample < APPEND_CLEAN_LIMIT {
        clean_ex.duplicate()
    } else {
        variant_ex.duplicate()
    }
}

/// The choice the Twoway rule makes from one sample: the clean example, the
/// appended variant, or the prepended rewrite, by which of the three buckets
/// the sample falls in.
pub fn twoway_pick(sample: u32, clean_ex: &Example, variant_ex: &Example) -> (r: Example)
    requires
        prepend_fits(clean_ex@, variant_ex@),
    ensures
        sample < TWOWAY_CLEAN_LIMIT ==> r@ == clean_ex@,
        TWOWAY_CLEAN_LIMIT <= sample < TWOWAY_APPEND_LIMIT ==> r@ == variant_ex@,
        sample >= TWOWAY_APPEND_LIMIT ==> r@ == prepend_view(clean_ex@, variant_ex@),
{
    if sample < TWOWAY_CLEAN_LIMIT {
        clean_ex.duplicate()
    } else if sample < TWOWAY_APPEND_LIMIT {
        variant_ex.duplicate()
    } else {
        prepend_example(clean_ex, variant_ex)
    }
}

/// Builds the prepended rewrite of a clean example and its appended variant:
/// the adversarial sentence (the variant context past the clean context,
/// trimmed, plus one space) moves in front of the clean context, and every
/// answer offset shifts forward by its length.
pub fn prepend_example(clean_ex: &Example, variant_ex: &Example) -> (r: Example)
    requires
        prepend_fits(clean_ex@, variant_ex@),
    ensures
        r@ == prepend_view(clean_ex@, variant_ex@),
{
    let clen = clean_ex.context.len();
    let suffix = suffix_from(&variant_ex.context, clen);
    let mut prefix = trim_bytes(&suffix);
    prefix.push(32u8);
    proof {
        assert(prefix@ =~= prefix_of(clean_ex@.context, variant_ex@.context));
    }
    let new_context = concat_bytes(&prefix, &clean_ex.context);
    let off = prefix.len();
    let ghost pre = prefix_of(clean_ex@.context, variant_ex@.context);
    let m = clean_ex.answers.answer_start.len();
    let mut starts: Vec<i64> = Vec::new();
    let mut i: usize = 0;
    while i < m
        invariant
            0 <= i <= m,
            m == clean_ex@.answers.answer_start.len(),
            off == pre.len(),
            off <= variant_ex@.context.len() + 1,
            prepend_fits(clean_ex@, variant_ex@),
            starts@.len() == i,
            forall|j: int| 0 <= j < i ==> starts@[j]
                == clean_ex@.answers.answer_start[j] + pre.len(),
        decreases m - i,
    {
        let s = clean_ex.answers.answer_start[i];
        proof {
            assert(clean_ex@.answers.answer_start[i as int] + variant_ex@.context.len() + 1
                <= i64::MAX);
        }
        starts.push(s + (off as i64));
        i = i + 1;
    }
    let r = Example {
        title: copy_bytes(&clean_ex.title),
        context: new_context,
        question: copy_bytes(&clean_ex.question),
        answers: Answers { text: copy_texts(&clean_ex.answers.text), answer_start: starts },
    };
    proof {
        let goal = prepend_view(clean_ex@, variant_ex@);
        assert(r@.answers.answer_start =~= goal.answers.answer_start);
        assert(r@.answers =~= goal.answers);
        assert(r@ =~= goal);
    }
    r
}

/// Law of the prepend transformation: the rewritten context is the prefix
/// text followed by the original context; answer texts are unchanged; every
/// answer offset moves forward by exactly the prefix length; and when the
/// original answer spans match their texts, so do the rewritten ones.
pub proof fn lemma_prepend_law(clean: ExampleView, variant: ExampleView)
    requires
        clean.wf(),
        clean.spans_valid(),
        prepend_fits(clean, variant),
    ensures
        ({
            let r = prepend_view(clean, variant);
            let pre = prefix_of(clean.context, variant.context);
            &&& r.context == pre + clean.context
            &&& r.answers.text == clean.answers.text
            &&& r.answers.answer_start.len() == clean.answers.answer_start.len()
            &&& forall|i: int|
                0 <= i < r.answers.answer_start.len() ==> r.answers.answer_start[i]
                    - clean.answers.answer_start[i] == pre.len()
            &&& r.wf()
            &&& r.spans_valid()
        }),
{
    let r = prepend_view(clean, variant);
    let pre = prefix_of(clean.context, variant.context);
    lemma_trimmed_len(variant.context.skip(clean.context.len() as int));
    assert(pre.len() <= variant.context.len() + 1);
    assert forall|i: int| 0 <= i < r.answers.answer_start.len() implies r.answers.answer_start[i]
        - clean.answers.answer_start[i] == pre.len() by {
        let s = clean.answers.answer_start[i];
        assert(answer_span_valid(clean.context, s, clean.answers.text[i]));
        assert(0 <= s + pre.len() <= i64::MAX);
    }
    assert forall|i: int| 0 <= i < r.answers.text.len() implies answer_span_valid(
        r.context,
        r.answers.answer_start[i],
        #[trigger] r.answers.text[i],
    ) by {
        let s = clean.answers.answer_start[i];
        let t = clean.answers.text[i];
        assert(answer_span_valid(clean.context, s, t));
        let s2 = r.answers.answer_start[i];
        assert(s2 == s + pre.len());
        assert(r.context.subrange(s2 as int, s2 + t.len()) =~= clean.context.subrange(
            s as int,
            s + t.len(),
        ));
    }
}

/// Append rule: a base id with no high-conf variant is emitted unchanged;
/// for every variant id whose base is present, one sample chooses between
/// the clean example and the appended variant, keyed by the base id.
pub fn get_append_examples(c: &Corpus) -> (r: (Corpus, AppendCounts))
    requires
        c.wf(),
    ensures
        r.0.wf(),
        forall|k: Seq<u8>| #[trigger] r.0.has(k) ==> c.has(k) && !has_hyphen(k),
        forall|k: Seq<u8>| #[trigger] r.0.has(k) ==> append_value_ok(r.0, *c, k),
        forall|k: Seq<u8>|
            c.has(k) && !has_hyphen(k) && !c.has(k + high_conf_suffix()) ==> r.0.has(k),
        forall|v: Seq<u8>|
            #[trigger] c.has(v) && has_hyphen(v) && c.has(base_of(v)) ==> r.0.has(base_of(v)),
        forall|k: Seq<u8>|
            c.has(k) && !has_hyphen(k) && c.has(k + high_conf_suffix()) ==> r.0.has(k),
        r.0.key_seq().len() <= r.1.clean + r.1.appended <= c.key_seq().len(),
{
    let n = c.len();
    let mut out = Corpus::new();
    let mut n_clean: usize = 0;
    let mut n_appended: usize = 0;
    let mut rng = new_rng();
    let mut i: usize = 0;
    while i < n
        invariant
            c.wf(),
            out.wf(),
            0 <= i <= n,
            n == c.key_seq().len(),
            forall|k: Seq<u8>| #[trigger] out.has(k) ==> c.has(k) && !has_hyphen(k),
            forall|k: Seq<u8>| #[trigger] out.has(k) ==> append_value_ok(out, *c, k),
            forall|j: int|
                0 <= j < i && !has_hyphen(#[trigger] c.key_seq()[j]) && !c.has(
                    c.key_seq()[j] + high_conf_suffix(),
                ) ==> out.has(c.key_seq()[j]),
            forall|j: int|
                0 <= j < i && has_hyphen(#[trigger] c.key_seq()[j]) && c.has(
                    base_of(c.key_seq()[j]),
                ) ==> out.has(base_of(c.key_seq()[j])),
            out.key_seq().len() <= n_clean + n_appended <= i,
        decreases n - i,
    {
        let k = c.key_at(i);
        proof {
            c.lemma_at_index(i as int);
        }
        if !id_has_hyphen(k) {
            let alt = high_conf_id(k);
            if !c.contains(&alt) {
                let kk = copy_bytes(k);
                let v = c.val_at(i).duplicate();
                let ghost pre_out = out;
                out.insert(kk, v);
                n_clean = n_clean + 1;
                proof {
                    append_insert_preserved(pre_out, out, *c, k@, v@);
                    assert(out.val_of(k@) == c.val_of(k@));
                    assert(append_value_ok(out, *c, k@));
                }
            }
        } else {
            let base = base_id(k);
            match c.get(&base) {
                Some(v2) => {
                    let sample = sample_below(&mut rng, SAMPLE_SPACE);
                    let chosen = append_pick(sample, v2, c.val_at(i));
                    let ghost pre_out = out;
                    let ghost chv = chosen@;
                    out.insert(base, chosen);
                    if sample < APPEND_CLEAN_LIMIT {
                        n_clean = n_clean + 1;
                    } else {
                        n_appended = n_appended + 1;
                    }
                    proof {
                        lemma_base_no_hyphen(k@);
                        append_insert_preserved(pre_out, out, *c, base_of(k@), chv);
                        if sample < APPEND_CLEAN_LIMIT {
                            assert(out.val_of(base_of(k@)) == c.val_of(base_of(k@)));
                        } else {
                            assert(c.has(k@) && has_hyphen(k@) && base_of(k@) == base_of(k@)
                                && out.val_of(base_of(k@)) == c.val_of(k@));
                        }
                        assert(append_value_ok(out, *c, base_of(k@)));
                    }
                },
                None => {},
            }
        }
        i = i + 1;
    }
    proof {
        assert forall|k: Seq<u8>|
            c.has(k) && !has_hyphen(k) && !c.has(k + high_conf_suffix()) implies out.has(k) by {
            let j = choose|j: int| 0 <= j < c.key_seq().len() && c.key_seq()[j] == k;
            assert(!has_hyphen(c.key_seq()[j]));
        }
        assert forall|v: Seq<u8>|
            c.has(v) && has_hyphen(v) && c.has(base_of(v)) implies out.has(base_of(v)) by {
            let j = choose|j: int| 0 <= j < c.key_seq().len() && c.key_seq()[j] == v;
            assert(has_hyphen(c.key_seq()[j]));
        }
        assert forall|k: Seq<u8>|
            c.has(k) && !has_hyphen(k) && c.has(k + high_conf_suffix()) implies out.has(k) by {
            lemma_high_conf_base(k);
            assert(c.has(k + high_conf_suffix()) && has_hyphen(k + high_conf_suffix()) && c.has(
                base_of(k + high_conf_suffix()),
            ));
        }
    }
    (out, AppendCounts { clean: n_clean, appended: n_appended })
}

/// After one Append insertion, every stored value is still exactly a clean
/// example or exactly a variant example of its key.
proof fn append_insert_preserved(
    pre_out: Corpus,
    out: Corpus,
    c: Corpus,
    k: Seq<u8>,
    v: ExampleView,
)
    requires
        forall|j: Seq<u8>| #[trigger] out.has(j) <==> pre_out.has(j) || j == k,
        out.val_of(k) == v,
        forall|j: Seq<u8>| pre_out.has(j) && j != k ==> out.val_of(j) == pre_out.val_of(j),
        forall|j: Seq<u8>| #[trigger] pre_out.has(j) ==> append_value_ok(pre_out, c, j),
        append_value_ok(out, c, k),
    ensures
        forall|j: Seq<u8>| #[trigger] out.has(j) ==> append_value_ok(out, c, j),
{
    assert forall|j: Seq<u8>| #[trigger] out.has(j) implies append_value_ok(out, c, j) by {
        if j != k {
            assert(pre_out.has(j));
            assert(append_value_ok(pre_out, c, j));
            assert(out.val_of(j) == pre_out.val_of(j));
            if pre_out.val_of(j) == c.val_of(j) {
            } else {
                let v2 = choose|v2: Seq<u8>|
                    c.has(v2) && has_hyphen(v2) && base_of(v2) == j && pre_out.val_of(j)
                        == c.val_of(v2);
                assert(c.has(v2) && has_hyphen(v2) && base_of(v2) == j && out.val_of(j)
                    == c.val_of(v2));
            }
        }
    }
}

/// Twoway rule: a base id with no high-conf variant is emitted unchanged;
/// for every variant id whose base is present, one sample chooses among the
/// clean example, the appended variant, and the prepended rewrite, keyed by
/// the base id.
pub fn get_twoway_examples(c: &Corpus) -> (r: (Corpus, TwowayCounts))
    requires
        c.wf(),
        twoway_compatible(*c),
    ensures
        r.0.wf(),
        forall|k: Seq<u8>| #[trigger] r.0.has(k) ==> c.has(k) && !has_hyphen(k),
        forall|k: Seq<u8>| #[trigger] r.0.has(k) ==> twoway_value_ok(r.0, *c, k),
        forall|k: Seq<u8>|
            c.has(k) && !has_hyphen(k) && !c.has(k + high_conf_suffix()) ==> r.0.has(k),
        forall|v: Seq<u8>|
            #[trigger] c.has(v) && has_hyphen(v) && c.has(base_of(v)) ==> r.0.has(base_of(v)),
        forall|k: Seq<u8>|
            c.has(k) && !has_hyphen(k) && c.has(k + high_conf_suffix()) ==> r.0.has(k),
        r.0.key_seq().len() <= r.1.clean + r.1.appended + r.1.prepended <= c.key_seq().len(),
{
    let n = c.len();
    let mut out = Corpus::new();
    let mut n_clean: usize = 0;
    let mut n_appended: usize = 0;
    let mut n_prepended: usize = 0;
    let mut rng = new_rng();
    let mut i: usize = 0;
    while i < n
        invariant
            c.wf(),
            twoway_compatible(*c),
            out.wf(),
            0 <= i <= n,
            n == c.key_seq().len(),
            forall|k: Seq<u8>| #[trigger] out.has(k) ==> c.has(k) && !has_hyphen(k),
            forall|k: Seq<u8>| #[trigger] out.has(k) ==> twoway_value_ok(out, *c, k),
            forall|j: int|
                0 <= j < i && !has_hyphen(#[trigger] c.key_seq()[j]) && !c.has(
                    c.key_seq()[j] + high_conf_suffix(),
                ) ==> out.has(c.key_seq()[j]),
            forall|j: int|
                0 <= j < i && has_hyphen(#[trigger] c.key_seq()[j]) && c.has(
                    base_of(c.key_seq()[j]),
                ) ==> out.has(base_of(c.key_seq()[j])),
            out.key_seq().len() <= n_clean + n_appended + n_prepended <= i,
        decreases n - i,
    {
        let k = c.key_at(i);
        proof {
            c.lemma_at_index(i as int);
        }
        if !id_has_hyphen(k) {
            let alt = high_conf_id(k);
            if !c.contains(&alt) {
                let kk = copy_bytes(k);
                let v = c.val_at(i).duplicate();
                let ghost pre_out = out;
                out.insert(kk, v);
                n_clean = n_clean + 1;
                proof {
                    twoway_insert_preserved(pre_out, out, *c, k@, v@);
                    assert(out.val_of(k@) == c.val_of(k@));
                    assert(twoway_value_ok(out, *c, k@));
                }
            }
        } else {
            let base = base_id(k);
            match c.get(&base) {
                Some(v2) => {
                    proof {
                        assert(c.has(k@) && has_hyphen(k@) && c.has(base_of(k@)));
                        assert(prepend_fits(c.val_of(base_of(k@)), c.val_of(k@)));
                    }
                    let sample = sample_below(&mut rng, SAMPLE_SPACE);
                    let chosen = twoway_pick(sample, v2, c.val_at(i));
                    let ghost pre_out = out;
                    let ghost chv = chosen@;
                    out.insert(base, chosen);
                    if sample < TWOWAY_CLEAN_LIMIT {
                        n_clean = n_clean + 1;
                    } else if sample < TWOWAY_APPEND_LIMIT {
                        n_appended = n_appended + 1;
                    } else {
                        n_prepended = n_prepended + 1;
                    }
                    proof {
                        lemma_base_no_hyphen(k@);
                        twoway_insert_preserved(pre_out, out, *c, base_of(k@), chv);
                        if sample < TWOWAY_CLEAN_LIMIT {
                            assert(out.val_of(base_of(k@)) == c.val_of(base_of(k@)));
                        } else if sample < TWOWAY_APPEND_LIMIT {
                            assert(c.has(k@) && has_hyphen(k@) && base_of(k@) == base_of(k@)
                                && out.val_of(base_of(k@)) == c.val_of(k@));
                        } else {
                            assert(c.has(k@) && has_hyphen(k@) && base_of(k@) == base_of(k@)
                                && out.val_of(base_of(k@)) == prepend_view(
                                c.val_of(base_of(k@)),
                                c.val_of(k@),
                            ));
                        }
                        assert(twoway_value_ok(out, *c, base_of(k@)));
                    }
                },
                None => {},
            }
        }
        i = i + 1;
    }
    proof {
        assert forall|k: Seq<u8>|
            c.has(k) && !has_hyphen(k) && !c.has(k + high_conf_suffix()) implies out.has(k) by {
            let j = choose|j: int| 0 <= j < c.key_seq().len() && c.key_seq()[j] == k;
            assert(!has_hyphen(c.key_seq()[j]));
        }
        assert forall|v: Seq<u8>|
            c.has(v) && has_hyphen(v) && c.has(base_of(v)) implies out.has(base_of(v)) by {
            let j = choose|j: int| 0 <= j < c.key_seq().len() && c.key_seq()[j] == v;
            assert(has_hyphen(c.key_seq()[j]));
        }
        assert forall|k: Seq<u8>|
            c.has(k) && !has_hyphen(k) && c.has(k + high_conf_suffix()) implies out.has(k) by {
            lemma_high_conf_base(k);
            assert(c.has(k + high_conf_suffix()) && has_hyphen(k + high_conf_suffix()) && c.has(
                base_of(k + high_conf_suffix()),
            ));
        }
    }
    (out, TwowayCounts { clean: n_clean, appended: n_appended, prepended: n_prepended })
}

/// After one Twoway insertion, every stored value is still exactly a clean
/// example, a variant example, or a prepended rewrite for its key.
proof fn twoway_insert_preserved(
    pre_out: Corpus,
    out: Corpus,
    c: Corpus,
    k: Seq<u8>,
    v: ExampleView,
)
    requires
        forall|j: Seq<u8>| #[trigger] out.has(j) <==> pre_out.has(j) || j == k,
        out.val_of(k) == v,
        forall|j: Seq<u8>| pre_out.has(j) && j != k ==> out.val_of(j) == pre_out.val_of(j),
        forall|j: Seq<u8>| #[trigger] pre_out.has(j) ==> twoway_value_ok(pre_out, c, j),
        twoway_value_ok(out, c, k),
    ensures
        forall|j: Seq<u8>| #[trigger] out.has(j) ==> twoway_value_ok(out, c, j),
{
    assert forall|j: Seq<u8>| #[trigger] out.has(j) implies twoway_value_ok(out, c, j) by {
        if j != k {
            assert(pre_out.has(j));
            assert(twoway_value_ok(pre_out, c, j));
            assert(out.val_of(j) == pre_out.val_of(j));
            if pre_out.val_of(j) == c.val_of(j) {
            } else {
                let v2 = choose|v2: Seq<u8>|
                    c.has(v2) && has_hyphen(v2) && base_of(v2) == j && (pre_out.val_of(j)
                        == c.val_of(v2) || pre_out.val_of(j) == prepend_view(
                        c.val_of(j),
                        c.val_of(v2),
                    ));
                assert(c.has(v2) && has_hyphen(v2) && base_of(v2) == j && (out.val_of(j)
                    == c.val_of(v2) || out.val_of(j) == prepend_view(c.val_of(j), c.val_of(v2))));
            }
        }
    }
}

/// Reports whether every variant/base pair of the corpus is within the
/// machine limits of the prepend transformation, i.e. whether the Twoway
/// rule may be applied.
pub fn corpus_prepend_ready(c: &Corpus) -> (r: bool)
    requires
        c.wf(),
    ensures
        r == twoway_compatible(*c),
{
    let n = c.len();
    let mut i: usize = 0;
    while i < n
        invariant
            c.wf(),
            0 <= i <= n,
            n == c.key_seq().len(),
            forall|j: int|
                0 <= j < i && has_hyphen(#[trigger] c.key_seq()[j]) && c.has(
                    base_of(c.key_seq()[j]),
                ) ==> prepend_fits(c.val_of(base_of(c.key_seq()[j])), c.val_of(c.key_seq()[j])),
        decreases n - i,
    {
        let k = c.key_at(i);
        proof {
            c.lemma_at_index(i as int);
        }
        if id_has_hyphen(k) {
            let base = base_id(k);
            match c.get(&base) {
                Some(v2) => {
                    if !fits_check(v2, c.val_at(i)) {
                        proof {
                            assert(c.has(k@) && has_hyphen(k@) && c.has(base_of(k@)));
                            assert(!prepend_fits(c.val_of(base_of(k@)), c.val_of(k@)));
                        }
                        return false;
                    }
                },
                None => {},
            }
        }
        i = i + 1;
    }
    proof {
        assert forall|k: Seq<u8>|
            #[trigger] c.has(k) && has_hyphen(k) && c.has(base_of(k)) implies prepend_fits(
            c.val_of(base_of(k)),
            c.val_of(k),
        ) by {
            let j = choose|j: int| 0 <= j < c.key_seq().len() && c.key_seq()[j] == k;
            assert(has_hyphen(c.key_seq()[j]));
        }
    }
    true
}

/// Checks the machine limits of the prepend transformation for one
/// clean/variant pair.
pub fn fits_check(clean_ex: &Example, variant_ex: &Example) -> (r: bool)
    ensures
        r == prepend_fits(clean_ex@, variant_ex@),
{
    let cl = clean_ex.context.len();
    let vl = variant_ex.context.len();
    if cl > vl {
        return false;
    }
    if !(cl as u128 + vl as u128 + 1 <= i64::MAX as u128) {
        return false;
    }
    if !(cl as u128 + vl as u128 + 1 <= usize::MAX as u128) {
        return false;
    }
    let m = clean_ex.answers.answer_start.len();
    let mut i: usize = 0;
    while i < m
        invariant
            0 <= i <= m,
            m == clean_ex@.answers.answer_start.len(),
            vl == variant_ex@.context.len(),
            forall|j: int|
                0 <= j < i ==> clean_ex@.answers.answer_start[j] + variant_ex@.context.len() + 1
                    <= i64::MAX,
        decreases m - i,
    {
        let s = clean_ex.answers.answer_start[i];
        if !((s as i128) + (vl as i128) + 1 <= i64::MAX as i128) {
            return false;
        }
        i = i + 1;
    }
    true
}

} // verus!
