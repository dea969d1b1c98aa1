//! The corpus loader: from the source JSON document to a [`Corpus`].
//!
//! The document is held as the library's own [`JsonValue`] of plain values;
//! the embedding program parses JSON text (with serde_json) and converts the
//! parsed tree into this type node for node. The walk over the document, the
//! field checks and the corpus construction are verified: loading succeeds
//! exactly when the document matches the schema, and the loaded corpus is
//! exactly the document's qa-id mapping, later duplicate ids overwriting
//! earlier ones.

use vstd::prelude::*;
use crate::corpus::{Corpus, bytes_eq};
use crate::record::{Answers, AnswersView, Example, ExampleView, copy_bytes};

verus! {

/// A JSON value of plain values: the loader's view of a parsed document.
/// Numbers are kept as `i64` where representable, as [`JsonValue::BigNumber`]
/// otherwise; strings are UTF-8 bytes; objects are key-value lists in
/// document order with distinct keys.
pub enum JsonValue {
    Null,
    Bool(bool),
    Int(i64),
    BigNumber,
    Text(Vec<u8>),
    Array(Vec<JsonValue>),
    Object(Vec<(Vec<u8>, JsonValue)>),
}

/// A required field of the source schema that was missing or of the wrong
/// type.
#[derive(Clone, Copy, PartialEq, Eq, Debug, Structural)]
pub enum ParseError {
    MissingData,
    MissingTitle,
    MissingParagraphs,
    MissingContext,
    MissingQas,
    MissingQuestion,
    MissingId,
    MissingAnswers,
    MissingAnswerStart,
    MissingText,
}

/// `v` is a JSON string.
pub open spec fn is_text(v: JsonValue) -> bool {
    v matches JsonValue::Text(_)
}

/// The bytes of a JSON string (empty for any other value).
pub open spec fn text_of(v: JsonValue) -> Seq<u8> {
    match v {
        JsonValue::Text(b) => b@,
        _ => Seq::empty(),
    }
}

/// `v` is a JSON number representable as `i64`.
pub open spec fn is_int(v: JsonValue) -> bool {
    v matches JsonValue::Int(_)
}

/// The integer content of a JSON number (0 for any other value).
pub open spec fn int_of(v: JsonValue) -> i64 {
    match v {
        JsonValue::Int(x) => x,
        _ => 0,
    }
}

/// `v` is a JSON array.
pub open spec fn is_array(v: JsonValue) -> bool {
    v matches JsonValue::Array(_)
}

/// The elements of a JSON array (empty for any other value).
pub open spec fn elems(v: JsonValue) -> Seq<JsonValue> {
    match v {
        JsonValue::Array(a) => a@,
        _ => Seq::empty(),
    }
}

/// The first entry of the key-value list under `key`, if any.
pub open spec fn obj_get(m: Seq<(Vec<u8>, JsonValue)>, key: Seq<u8>) -> Option<JsonValue>
    decreases m.len(),
{
    if m.len() == 0 {
        None
    } else if m[0].0@ == key {
        Some(m[0].1)
    } else {
        obj_get(m.skip(1), key)
    }
}

/// The member of a JSON object under `key`; `None` when `v` is not an object
/// or has no such member.
pub open spec fn get_field(v: JsonValue, key: Seq<u8>) -> Option<JsonValue> {
    match v {
        JsonValue::Object(m) => obj_get(m@, key),
        _ => None,
    }
}

/// The string content of the member under `key` (empty when absent or not a
/// string).
pub open spec fn field_text(v: JsonValue, key: Seq<u8>) -> Seq<u8> {
    match get_field(v, key) {
        Some(x) => text_of(x),
        None => Seq::empty(),
    }
}

/// The integer content of the member under `key` (0 when absent or not an
/// `i64` number).
pub open spec fn field_int(v: JsonValue, key: Seq<u8>) -> i64 {
    match get_field(v, key) {
        Some(x) => int_of(x),
        None => 0,
    }
}

/// The elements of the array member under `key` (empty when absent or not an
/// array).
pub open spec fn field_elems(v: JsonValue, key: Seq<u8>) -> Seq<JsonValue> {
    match get_field(v, key) {
        Some(x) => elems(x),
        None => Seq::empty(),
    }
}

/// The member under `key` exists and is a string.
pub open spec fn field_is_text(v: JsonValue, key: Seq<u8>) -> bool {
    get_field(v, key) matches Some(x) && is_text(x)
}

/// The member under `key` exists and is an `i64` number.
pub open spec fn field_is_int(v: JsonValue, key: Seq<u8>) -> bool {
    get_field(v, key) matches Some(x) && is_int(x)
}

/// The member under `key` exists and is an array.
pub open spec fn field_is_array(v: JsonValue, key: Seq<u8>) -> bool {
    get_field(v, key) matches Some(x) && is_array(x)
}

/// An answer object: an `answer_start` integer and a `text` string.
pub open spec fn answer_ok(a: JsonValue) -> bool {
    &&& field_is_int(a, key_answer_start())
    &&& field_is_text(a, key_text())
}

/// A qa object: a `question` string, an `id` string, and an `answers` array
/// of well-formed answers.
pub open spec fn qa_ok(qa: JsonValue) -> bool {
    &&& field_is_text(qa, key_question())
    &&& field_is_text(qa, key_id())
    &&& field_is_array(qa, key_answers())
    &&& forall|i: int|
        0 <= i < field_elems(qa, key_answers()).len() ==> answer_ok(
            #[trigger] field_elems(qa, key_answers())[i],
        )
}

/// Every qa in the sequence is well formed.
pub open spec fn qas_ok(qs: Seq<JsonValue>) -> bool {
    forall|i: int| 0 <= i < qs.len() ==> qa_ok(#[trigger] qs[i])
}

/// A paragraph object: a `context` string and a `qas` array of well-formed
/// qas.
pub open spec fn paragraph_ok(p: JsonValue) -> bool {
    &&& field_is_text(p, key_context())
    &&& field_is_array(p, key_qas())
    &&& qas_ok(field_elems(p, key_qas()))
}

/// Every paragraph in the sequence is well formed.
pub open spec fn paras_ok(ps: Seq<JsonValue>) -> bool {
    forall|i: int| 0 <= i < ps.len() ==> paragraph_ok(#[trigger] ps[i])
}

/// A passage group: a `title` string and a `paragraphs` array of well-formed
/// paragraphs.
pub open spec fn group_ok(g: JsonValue) -> bool {
    &&& field_is_text(g, key_title())
    &&& field_is_array(g, key_paragraphs())
    &&& paras_ok(field_elems(g, key_paragraphs()))
}

/// Every passage group in the sequence is well formed.
pub open spec fn groups_ok(gs: Seq<JsonValue>) -> bool {
    forall|i: int| 0 <= i < gs.len() ==> group_ok(#[trigger] gs[i])
}

/// The document matches the source schema: a `data` array of well-formed
/// passage groups.
pub open spec fn schema_ok(doc: JsonValue) -> bool {
    &&& field_is_array(doc, key_data())
    &&& groups_ok(field_elems(doc, key_data()))
}

/// The answers of one qa, as parallel arrays in the qa's answer order.
pub open spec fn answers_view(s: Seq<JsonValue>) -> AnswersView {
    AnswersView {
        text: Seq::new(s.len(), |i: int| field_text(s[i], key_text())),
        answer_start: Seq::new(s.len(), |i: int| field_int(s[i], key_answer_start())),
    }
}

/// The corpus entry of one qa: its id, mapped to the example built from the
/// enclosing group's title, the enclosing paragraph's context, the qa's
/// question and its answers.
pub open spec fn qa_entry(title: Seq<u8>, context: Seq<u8>, qa: JsonValue) -> (
    Seq<u8>,
    ExampleView,
) {
    (
        field_text(qa, key_id()),
        ExampleView {
            title: title,
            context: context,
            question: field_text(qa, key_question()),
            answers: answers_view(field_elems(qa, key_answers())),
        },
    )
}

/// The corpus entries of a qa sequence, in order.
pub open spec fn qas_entries(title: Seq<u8>, context: Seq<u8>, qs: Seq<JsonValue>) -> Seq<
    (Seq<u8>, ExampleView),
>
    decreases qs.len(),
{
    if qs.len() == 0 {
        Seq::empty()
    } else {
        qas_entries(title, context, qs.drop_last()) + seq![qa_entry(title, context, qs.last())]
    }
}

/// The corpus entries of a paragraph sequence, in order.
pub open spec fn paras_entries(title: Seq<u8>, ps: Seq<JsonValue>) -> Seq<(Seq<u8>, ExampleView)>
    decreases ps.len(),
{
    if ps.len() == 0 {
        Seq::empty()
    } else {
        paras_entries(title, ps.drop_last()) + qas_entries(
            title,
            field_text(ps.last(), key_context()),
            field_elems(ps.last(), key_qas()),
        )
    }
}

/// The corpus entries of a passage-group sequence, in order.
pub open spec fn groups_entries(gs: Seq<JsonValue>) -> Seq<(Seq<u8>, ExampleView)>
    decreases gs.len(),
{
    if gs.len() == 0 {
        Seq::empty()
    } else {
        groups_entries(gs.drop_last()) + paras_entries(
            field_text(gs.last(), key_title()),
            field_elems(gs.last(), key_paragraphs()),
        )
    }
}

/// All corpus entries of the document, in document order (group order, then
/// paragraph order, then qa order).
pub open spec fn doc_entries(doc: JsonValue) -> Seq<(Seq<u8>, ExampleView)> {
    groups_entries(field_elems(doc, key_data()))
}

/// Some entry carries id `k`.
pub open spec fn entries_has(e: Seq<(Seq<u8>, ExampleView)>, k: Seq<u8>) -> bool {
    exists|i: int| 0 <= i < e.len() && #[trigger] e[i].0 == k
}

/// No later entry carries the same id as entry `i`.
pub open spec fn is_last_of(e: Seq<(Seq<u8>, ExampleView)>, i: int) -> bool {
    forall|j: int| i < j < e.len() ==> (#[trigger] e[j]).0 != e[i].0
}

/// `c1` is `c0` with the entries `e` inserted in order, later entries with a
/// duplicate id overwriting earlier ones.
pub open spec fn folded_into(c0: Corpus, e: Seq<(Seq<u8>, ExampleView)>, c1: Corpus) -> bool {
    &&& forall|k: Seq<u8>| #[trigger] c1.has(k) <==> c0.has(k) || entries_has(e, k)
    &&& forall|i: int|
        0 <= i < e.len() && is_last_of(e, i) ==> c1.val_of((#[trigger] e[i]).0) == e[i].1
    &&& forall|k: Seq<u8>|
        c0.has(k) && !entries_has(e, k) ==> c1.val_of(k) == c0.val_of(k)
}

/// `c` holds exactly the mapping that the entries `e` describe: its ids are
/// the entry ids, and each id maps to the value of its last entry.
pub open spec fn corpus_matches(c: Corpus, e: Seq<(Seq<u8>, ExampleView)>) -> bool {
    &&& forall|k: Seq<u8>| #[trigger] c.has(k) <==> entries_has(e, k)
    &&& forall|i: int|
        0 <= i < e.len() && is_last_of(e, i) ==> c.val_of((#[trigger] e[i]).0) == e[i].1
}

/// A passage group that is not well formed refutes the whole schema.
proof fn group_defect(doc: JsonValue, gs: Seq<JsonValue>, g: int)
    requires
        gs == field_elems(doc, key_data()),
        0 <= g < gs.len(),
        !group_ok(gs[g]),
    ensures
        !schema_ok(doc),
{
    if schema_ok(doc) {
        assert(group_ok(field_elems(doc, key_data())[g]));
    }
}

proof fn lemma_folded_from_empty(c0: Corpus, e: Seq<(Seq<u8>, ExampleView)>, c1: Corpus)
    requires
        folded_into(c0, e, c1),
        forall|k: Seq<u8>| !c0.has(k),
    ensures
        corpus_matches(c1, e),
{
}

/// Folding one more entry after `e` is inserting it, overwriting its id.
proof fn lemma_folded_insert(
    c0: Corpus,
    e: Seq<(Seq<u8>, ExampleView)>,
    c1: Corpus,
    c2: Corpus,
    k: Seq<u8>,
    v: ExampleView,
)
    requires
        folded_into(c0, e, c1),
        forall|j: Seq<u8>| #[trigger] c2.has(j) <==> c1.has(j) || j == k,
        c2.val_of(k) == v,
        forall|j: Seq<u8>| c1.has(j) && j != k ==> c2.val_of(j) == c1.val_of(j),
    ensures
        folded_into(c0, e.push((k, v)), c2),
{
    let e2 = e.push((k, v));
    assert forall|j: Seq<u8>| #[trigger] c2.has(j) <==> c0.has(j) || entries_has(e2, j) by {
        if c2.has(j) {
            if c1.has(j) {
                if !c0.has(j) {
                    let i = choose|i: int| 0 <= i < e.len() && #[trigger] e[i].0 == j;
                    assert(e2[i].0 == j);
                }
            } else {
                assert(j == k);
                assert(e2[e.len() as int].0 == j);
            }
        }
        if c0.has(j) {
            assert(c2.has(j));
        }
        if entries_has(e2, j) {
            let i = choose|i: int| 0 <= i < e2.len() && #[trigger] e2[i].0 == j;
            if i < e.len() {
                assert(e[i].0 == j);
                assert(c1.has(j));
            } else {
                assert(j == k);
            }
            assert(c2.has(j));
        }
    }
    assert forall|i: int|
        0 <= i < e2.len() && is_last_of(e2, i) implies c2.val_of((#[trigger] e2[i]).0)
        == e2[i].1 by {
        if i < e.len() {
            assert(e2[e.len() as int].0 != e2[i].0);
            assert(e[i].0 != k);
            assert forall|j: int| i < j < e.len() implies (#[trigger] e[j]).0 != e[i].0 by {
                assert(e2[j] == e[j]);
            }
            assert(is_last_of(e, i));
            assert(c1.val_of(e[i].0) == e[i].1);
            assert(c1.has(e[i].0));
        } else {
            assert(e2[i] == (k, v));
        }
    }
    assert forall|j: Seq<u8>|
        c0.has(j) && !entries_has(e2, j) implies c2.val_of(j) == c0.val_of(j) by {
        assert forall|i: int| 0 <= i < e.len() implies (#[trigger] e[i]).0 != j by {
            assert(e2[i] == e[i]);
        }
        assert(!entries_has(e, j));
        assert(e2[e.len() as int].0 == k);
        assert(j != k);
        assert(c1.has(j));
    }
}

/// Folding `e1` and then `e2` is folding their concatenation.
proof fn lemma_folded_trans(
    c0: Corpus,
    e1: Seq<(Seq<u8>, ExampleView)>,
    c1: Corpus,
    e2: Seq<(Seq<u8>, ExampleView)>,
    c2: Corpus,
)
    requires
        folded_into(c0, e1, c1),
        folded_into(c1, e2, c2),
    ensures
        folded_into(c0, e1 + e2, c2),
{
    let e = e1 + e2;
    let n1 = e1.len() as int;
    assert forall|k: Seq<u8>| #[trigger] c2.has(k) <==> c0.has(k) || entries_has(e, k) by {
        if c2.has(k) && !c0.has(k) {
            if c1.has(k) {
                let i = choose|i: int| 0 <= i < e1.len() && #[trigger] e1[i].0 == k;
                assert(e[i].0 == k);
            } else {
                let i = choose|i: int| 0 <= i < e2.len() && #[trigger] e2[i].0 == k;
                assert(e[n1 + i].0 == k);
            }
        }
        if c0.has(k) {
            assert(c1.has(k));
            assert(c2.has(k));
        }
        if entries_has(e, k) {
            let i = choose|i: int| 0 <= i < e.len() && #[trigger] e[i].0 == k;
            if i < n1 {
                assert(e1[i].0 == k);
                assert(c1.has(k));
            } else {
                assert(e2[i - n1].0 == k);
            }
            assert(c2.has(k));
        }
    }
    assert forall|i: int|
        0 <= i < e.len() && is_last_of(e, i) implies c2.val_of((#[trigger] e[i]).0) == e[i].1 by {
        if i < n1 {
            assert forall|j: int| i < j < e1.len() implies (#[trigger] e1[j]).0 != e1[i].0 by {
                assert(e[j] == e1[j]);
            }
            assert(is_last_of(e1, i));
            assert(c1.val_of(e1[i].0) == e1[i].1);
            assert forall|j: int| 0 <= j < e2.len() implies (#[trigger] e2[j]).0 != e1[i].0 by {
                assert(e[n1 + j] == e2[j]);
            }
            assert(!entries_has(e2, e1[i].0));
            assert(c1.has(e1[i].0));
            assert(c2.val_of(e1[i].0) == c1.val_of(e1[i].0));
            assert(e[i] == e1[i]);
        } else {
            let i2 = i - n1;
            assert(e[i] == e2[i2]);
            assert forall|j: int| i2 < j < e2.len() implies (#[trigger] e2[j]).0 != e2[i2].0 by {
                assert(e[n1 + j] == e2[j]);
            }
            assert(is_last_of(e2, i2));
        }
    }
    assert forall|k: Seq<u8>|
        c0.has(k) && !entries_has(e, k) implies c2.val_of(k) == c0.val_of(k) by {
        assert forall|i: int| 0 <= i < e1.len() implies (#[trigger] e1[i]).0 != k by {
            assert(e[i] == e1[i]);
        }
        assert forall|i: int| 0 <= i < e2.len() implies (#[trigger] e2[i]).0 != k by {
            assert(e[n1 + i] == e2[i]);
        }
        assert(!entries_has(e1, k));
        assert(!entries_has(e2, k));
        assert(c1.has(k));
    }
}

proof fn lemma_obj_get_none(m: Seq<(Vec<u8>, JsonValue)>, key: Seq<u8>)
    requires
        forall|j: int| 0 <= j < m.len() ==> (#[trigger] m[j]).0@ != key,
    ensures
        obj_get(m, key) is None,
    decreases m.len(),
{
    if m.len() > 0 {
        assert(m[0].0@ != key);
        assert forall|j: int| 0 <= j < m.skip(1).len() implies (#[trigger] m.skip(1)[j]).0@
            != key by {
            assert(m.skip(1)[j] == m[j + 1]);
        }
        lemma_obj_get_none(m.skip(1), key);
    }
}

proof fn lemma_obj_get_at(m: Seq<(Vec<u8>, JsonValue)>, key: Seq<u8>, i: int)
    requires
        0 <= i < m.len(),
        m[i].0@ == key,
        forall|j: int| 0 <= j < i ==> (#[trigger] m[j]).0@ != key,
    ensures
        obj_get(m, key) == Some(m[i].1),
    decreases i,
{
    if i == 0 {
    } else {
        assert(m[0].0@ != key);
        assert(m.skip(1)[i - 1] == m[i]);
        assert forall|j: int| 0 <= j < i - 1 implies (#[trigger] m.skip(1)[j]).0@ != key by {
            assert(m.skip(1)[j] == m[j + 1]);
        }
        lemma_obj_get_at(m.skip(1), key, i - 1);
    }
}

/// Looks up the member of a JSON object under `key`.
pub fn jv_get<'a>(v: &'a JsonValue, key: &Vec<u8>) -> (r: Option<&'a JsonValue>)
    ensures
        match r {
            Some(x) => get_field(*v, key@) == Some(*x),
            None => get_field(*v, key@) is None,
        },
{
    match v {
        JsonValue::Object(m) => {
            let n = m.len();
            let mut i: usize = 0;
            while i < n
                invariant
                    0 <= i <= n,
                    n == m@.len(),
                    get_field(*v, key@) == obj_get(m@, key@),
                    forall|j: int| 0 <= j < i ==> (#[trigger] m@[j]).0@ != key@,
                decreases n - i,
            {
                if bytes_eq(&m[i].0, key) {
                    proof {
                        lemma_obj_get_at(m@, key@, i as int);
                        assert(obj_get(m@, key@) == Some(m@[i as int].1));
                        assert(get_field(*v, key@) == obj_get(m@, key@));
                    }
                    return Some(&m[i].1);
                }
                i = i + 1;
            }
            proof {
                lemma_obj_get_none(m@, key@);
            }
            None
        },
        _ => None,
    }
}

/// The content of a JSON string, copied out.
pub fn jv_text(v: &JsonValue) -> (r: Option<Vec<u8>>)
    ensures
        match r {
            Some(b) => is_text(*v) && b@ == text_of(*v),
            None => !is_text(*v),
        },
{
    match v {
        JsonValue::Text(b) => Some(copy_bytes(b)),
        _ => None,
    }
}

/// The content of an `i64` JSON number.
pub fn jv_int(v: &JsonValue) -> (r: Option<i64>)
    ensures
        match r {
            Some(x) => is_int(*v) && x == int_of(*v),
            None => !is_int(*v),
        },
{
    match v {
        JsonValue::Int(x) => Some(*x),
        _ => None,
    }
}

/// The elements of a JSON array.
pub fn jv_array<'a>(v: &'a JsonValue) -> (r: Option<&'a Vec<JsonValue>>)
    ensures
        match r {
            Some(a) => is_array(*v) && a@ == elems(*v),
            None => !is_array(*v),
        },
{
    match v {
        JsonValue::Array(a) => Some(a),
        _ => None,
    }
}

/// Loads the answers array of one qa.
fn load_answers(arr: &Vec<JsonValue>) -> (r: Result<Answers, ParseError>)
    ensures
        r is Ok <==> (forall|i: int| 0 <= i < arr@.len() ==> answer_ok(#[trigger] arr@[i])),
        r matches Ok(a) ==> a@ == answers_view(arr@) && a.wf(),
{
    let n = arr.len();
    let mut answer_start: Vec<i64> = Vec::new();
    let mut answer_text: Vec<Vec<u8>> = Vec::new();
    let mut i: usize = 0;
    while i < n
        invariant
            0 <= i <= n,
            n == arr@.len(),
            answer_start@.len() == i,
            answer_text@.len() == i,
            forall|j: int| 0 <= j < i ==> answer_ok(#[trigger] arr@[j]),
            forall|j: int|
                0 <= j < i ==> #[trigger] answer_start@[j] == field_int(
                    arr@[j],
                    key_answer_start(),
                ),
            forall|j: int| 0 <= j < i ==> #[trigger] answer_text@[j]@ == field_text(
                arr@[j],
                key_text(),
            ),
        decreases n - i,
    {
        let a = &arr[i];
        let start = match jv_get(a, &k_answer_start()) {
            Some(s) => match jv_int(s) {
                Some(x) => x,
                None => {
                    return Err(ParseError::MissingAnswerStart);
                },
            },
            None => {
                return Err(ParseError::MissingAnswerStart);
            },
        };
        let atext = match jv_get(a, &k_text()) {
            Some(t) => match jv_text(t) {
                Some(b) => b,
                None => {
                    return Err(ParseError::MissingText);
                },
            },
            None => {
                return Err(ParseError::MissingText);
            },
        };
        answer_start.push(start);
        answer_text.push(atext);
        i = i + 1;
    }
    let a = Answers { text: answer_text, answer_start };
    proof {
        let goal = answers_view(arr@);
        assert forall|j: int| 0 <= j < n implies a@.text[j] == goal.text[j] by {
            assert(a@.text[j] =~= a.text@[j]@);
        }
        assert(a@.text =~= goal.text);
        assert(a@.answer_start =~= goal.answer_start);
        assert(a@ =~= goal);
    }
    Ok(a)
}

/// Loads one qa into its corpus entry, given the enclosing group's title and
/// paragraph's context.
fn load_qa(title: &Vec<u8>, context: &Vec<u8>, qa: &JsonValue) -> (r: Result<
    (Vec<u8>, Example),
    ParseError,
>)
    ensures
        r is Ok <==> qa_ok(*qa),
        r matches Ok(p) ==> p.0@ == qa_entry(title@, context@, *qa).0 && p.1@ == qa_entry(
            title@,
            context@,
            *qa,
        ).1 && p.1@.wf(),
{
    let question = match jv_get(qa, &k_question()) {
        Some(t) => match jv_text(t) {
            Some(b) => b,
            None => {
                return Err(ParseError::MissingQuestion);
            },
        },
        None => {
            return Err(ParseError::MissingQuestion);
        },
    };
    let id = match jv_get(qa, &k_id()) {
        Some(t) => match jv_text(t) {
            Some(b) => b,
            None => {
                return Err(ParseError::MissingId);
            },
        },
        None => {
            return Err(ParseError::MissingId);
        },
    };
    let answers_arr = match jv_get(qa, &k_answers()) {
        Some(a) => match jv_array(a) {
            Some(arr) => arr,
            None => {
                return Err(ParseError::MissingAnswers);
            },
        },
        None => {
            return Err(ParseError::MissingAnswers);
        },
    };
    proof {
        assert(field_elems(*qa, key_answers()) == answers_arr@);
    }
    let answers = match load_answers(answers_arr) {
        Ok(a) => {
            proof {
                assert forall|i: int|
                    0 <= i < field_elems(*qa, key_answers()).len() implies answer_ok(
                    #[trigger] field_elems(*qa, key_answers())[i],
                ) by {
                    assert(field_elems(*qa, key_answers())[i] == answers_arr@[i]);
                    assert(answer_ok(answers_arr@[i]));
                }
                assert(qa_ok(*qa));
            }
            a
        },
        Err(e) => {
            proof {
                if qa_ok(*qa) {
                    assert forall|i: int|
                        0 <= i < answers_arr@.len() implies answer_ok(
                        #[trigger] answers_arr@[i],
                    ) by {
                        assert(answers_arr@[i] == field_elems(*qa, key_answers())[i]);
                        assert(answer_ok(field_elems(*qa, key_answers())[i]));
                    }
                    assert(false);
                }
            }
            return Err(e);
        },
    };
    let example = Example {
        title: copy_bytes(title),
        context: copy_bytes(context),
        question,
        answers,
    };
    proof {
        assert(example@ =~= qa_entry(title@, context@, *qa).1);
    }
    Ok((id, example))
}

/// Loads the qas of one paragraph into the corpus, in order.
fn load_qas(title: &Vec<u8>, context: &Vec<u8>, qs: &Vec<JsonValue>, corpus: &mut Corpus) -> (r:
    Result<(), ParseError>)
    requires
        old(corpus).wf(),
        forall|k: Seq<u8>| #[trigger] old(corpus).has(k) ==> old(corpus).val_of(k).wf(),
    ensures
        final(corpus).wf(),
        forall|k: Seq<u8>| #[trigger] final(corpus).has(k) ==> final(corpus).val_of(k).wf(),
        r is Ok <==> qas_ok(qs@),
        r is Ok ==> folded_into(*old(corpus), qas_entries(title@, context@, qs@), *final(corpus)),
{
    let n = qs.len();
    let ghost c0 = *corpus;
    let mut i: usize = 0;
    while i < n
        invariant
            0 <= i <= n,
            n == qs@.len(),
            corpus.wf(),
            forall|k: Seq<u8>| #[trigger] corpus.has(k) ==> corpus.val_of(k).wf(),
            forall|j: int| 0 <= j < i ==> qa_ok(#[trigger] qs@[j]),
            folded_into(c0, qas_entries(title@, context@, qs@.take(i as int)), *corpus),
        decreases n - i,
    {
        match load_qa(title, context, &qs[i]) {
            Ok((id, example)) => {
                let ghost c_before = *corpus;
                let ghost idv = id@;
                let ghost exv = example@;
                corpus.insert(id, example);
                proof {
                    assert forall|k: Seq<u8>| #[trigger] corpus.has(k) implies corpus.val_of(
                        k,
                    ).wf() by {
                        if k == idv {
                            assert(corpus.val_of(k) == exv);
                        } else {
                            assert(c_before.has(k));
                        }
                    }
                    lemma_folded_insert(
                        c0,
                        qas_entries(title@, context@, qs@.take(i as int)),
                        c_before,
                        *corpus,
                        idv,
                        exv,
                    );
                    assert(qs@.take(i as int + 1).drop_last() =~= qs@.take(i as int));
                    assert(qas_entries(title@, context@, qs@.take(i as int + 1))
                        == qas_entries(title@, context@, qs@.take(i as int)).push(
                        qa_entry(title@, context@, qs@[i as int]),
                    ));
                }
            },
            Err(e) => {
                proof {
                    assert(!qa_ok(qs@[i as int]));
                }
                return Err(e);
            },
        }
        i = i + 1;
    }
    proof {
        assert(qs@.take(n as int) =~= qs@);
    }
    Ok(())
}

/// Loads the paragraphs of one passage group into the corpus, in order.
fn load_paragraphs(title: &Vec<u8>, ps: &Vec<JsonValue>, corpus: &mut Corpus) -> (r: Result<
    (),
    ParseError,
>)
    requires
        old(corpus).wf(),
        forall|k: Seq<u8>| #[trigger] old(corpus).has(k) ==> old(corpus).val_of(k).wf(),
    ensures
        final(corpus).wf(),
        forall|k: Seq<u8>| #[trigger] final(corpus).has(k) ==> final(corpus).val_of(k).wf(),
        r is Ok <==> paras_ok(ps@),
        r is Ok ==> folded_into(*old(corpus), paras_entries(title@, ps@), *final(corpus)),
{
    let n = ps.len();
    let ghost c0 = *corpus;
    let mut i: usize = 0;
    while i < n
        invariant
            0 <= i <= n,
            n == ps@.len(),
            corpus.wf(),
            forall|k: Seq<u8>| #[trigger] corpus.has(k) ==> corpus.val_of(k).wf(),
            forall|j: int| 0 <= j < i ==> paragraph_ok(#[trigger] ps@[j]),
            folded_into(c0, paras_entries(title@, ps@.take(i as int)), *corpus),
        decreases n - i,
    {
        let p = &ps[i];
        let context = match jv_get(p, &k_context()) {
            Some(t) => match jv_text(t) {
                Some(b) => b,
                None => {
                    return Err(ParseError::MissingContext);
                },
            },
            None => {
                return Err(ParseError::MissingContext);
            },
        };
        let qas_arr = match jv_get(p, &k_qas()) {
            Some(q) => match jv_array(q) {
                Some(a) => a,
                None => {
                    return Err(ParseError::MissingQas);
                },
            },
            None => {
                return Err(ParseError::MissingQas);
            },
        };
        let ghost c_before = *corpus;
        match load_qas(title, &context, qas_arr, corpus) {
            Ok(()) => {
                proof {
                    lemma_folded_trans(
                        c0,
                        paras_entries(title@, ps@.take(i as int)),
                        c_before,
                        qas_entries(title@, context@, qas_arr@),
                        *corpus,
                    );
                    assert(ps@.take(i as int + 1).drop_last() =~= ps@.take(i as int));
                    assert(context@ == field_text(ps@[i as int], key_context()));
                    assert(qas_arr@ == field_elems(ps@[i as int], key_qas()));
                    assert(paras_entries(title@, ps@.take(i as int + 1)) == paras_entries(
                        title@,
                        ps@.take(i as int),
                    ) + qas_entries(title@, context@, qas_arr@));
                }
            },
            Err(e) => {
                proof {
                    assert(!qas_ok(qas_arr@));
                    assert(!paragraph_ok(ps@[i as int]));
                }
                return Err(e);
            },
        }
        i = i + 1;
    }
    proof {
        assert(ps@.take(n as int) =~= ps@);
    }
    Ok(())
}

/// Loads a corpus from a parsed source document: a `data` array of passage
/// groups with a `title` and `paragraphs`, each paragraph a `context` and
/// `qas`, each qa a `question`, `id` and `answers`, each answer an
/// `answer_start` and `text`. Succeeds exactly when the document matches
/// that schema; the corpus then maps each qa id to the example built from
/// its qa, later entries with a duplicate id overwriting earlier ones.
pub fn read_raw_examples(doc: &JsonValue) -> (r: Result<Corpus, ParseError>)
    ensures
        r is Ok <==> schema_ok(*doc),
        r matches Ok(c) ==> c.wf() && corpus_matches(c, doc_entries(*doc)) && (forall|k: Seq<u8>|
            #[trigger] c.has(k) ==> c.val_of(k).wf()),
{
    let groups = match jv_get(doc, &k_data()) {
        Some(d) => match jv_array(d) {
            Some(a) => a,
            None => {
                return Err(ParseError::MissingData);
            },
        },
        None => {
            return Err(ParseError::MissingData);
        },
    };
    let mut corpus = Corpus::new();
    let ghost c0 = corpus;
    let n = groups.len();
    let mut g: usize = 0;
    while g < n
        invariant
            0 <= g <= n,
            n == groups@.len(),
            corpus.wf(),
            forall|k: Seq<u8>| #[trigger] corpus.has(k) ==> corpus.val_of(k).wf(),
            forall|j: int| 0 <= j < g ==> group_ok(#[trigger] groups@[j]),
            folded_into(c0, groups_entries(groups@.take(g as int)), corpus),
            forall|k: Seq<u8>| !c0.has(k),
            groups@ == field_elems(*doc, key_data()),
        decreases n - g,
    {
        let group = &groups[g];
        proof {
            assert(field_elems(*doc, key_data()) == groups@);
        }
        let title = match jv_get(group, &k_title()) {
            Some(t) => match jv_text(t) {
                Some(b) => b,
                None => {
                    proof {
                        group_defect(*doc, groups@, g as int);
                    }
                    return Err(ParseError::MissingTitle);
                },
            },
            None => {
                proof {
                    group_defect(*doc, groups@, g as int);
                }
                return Err(ParseError::MissingTitle);
            },
        };
        let paragraphs = match jv_get(group, &k_paragraphs()) {
            Some(p) => match jv_array(p) {
                Some(a) => a,
                None => {
                    proof {
                        group_defect(*doc, groups@, g as int);
                    }
                    return Err(ParseError::MissingParagraphs);
                },
            },
            None => {
                proof {
                    group_defect(*doc, groups@, g as int);
                }
                return Err(ParseError::MissingParagraphs);
            },
        };
        let ghost c_before = corpus;
        match load_paragraphs(&title, paragraphs, &mut corpus) {
            Ok(()) => {
                proof {
                    lemma_folded_trans(
                        c0,
                        groups_entries(groups@.take(g as int)),
                        c_before,
                        paras_entries(title@, paragraphs@),
                        corpus,
                    );
                    assert(groups@.take(g as int + 1).drop_last() =~= groups@.take(g as int));
                    assert(title@ == field_text(groups@[g as int], key_title()));
                    assert(paragraphs@ == field_elems(groups@[g as int], key_paragraphs()));
                    assert(groups_entries(groups@.take(g as int + 1)) == groups_entries(
                        groups@.take(g as int),
                    ) + paras_entries(title@, paragraphs@));
                }
            },
            Err(e) => {
                proof {
                    assert(!paras_ok(paragraphs@));
                    assert(!group_ok(groups@[g as int]));
                    group_defect(*doc, groups@, g as int);
                }
                return Err(e);
            },
        }
        g = g + 1;
    }
    proof {
        assert(groups@.take(n as int) =~= groups@);
        lemma_folded_from_empty(c0, groups_entries(groups@), corpus);
        assert(groups@ == field_elems(*doc, key_data()));
        assert forall|j: int|
            0 <= j < field_elems(*doc, key_data()).len() implies group_ok(
            #[trigger] field_elems(*doc, key_data())[j],
        ) by {
            assert(field_elems(*doc, key_data())[j] == groups@[j]);
        }
        assert(schema_ok(*doc));
    }
    Ok(corpus)
}

/// The bytes of the field name `data`.
pub open spec fn key_data() -> Seq<u8> {
    seq![100u8, 97u8, 116u8, 97u8]
}

/// The bytes of the field name `title`.
pub open spec fn key_title() -> Seq<u8> {
    seq![116u8, 105u8, 116u8, 108u8, 101u8]
}

/// The bytes of the field name `paragraphs`.
pub open spec fn key_paragraphs() -> Seq<u8> {
    seq![112u8, 97u8, 114u8, 97u8, 103u8, 114u8, 97u8, 112u8, 104u8, 115u8]
}

/// The bytes of the field name `context`.
pub open spec fn key_context() -> Seq<u8> {
    seq![99u8, 111u8, 110u8, 116u8, 101u8, 120u8, 116u8]
}

/// The bytes of the field name `qas`.
pub open spec fn key_qas() -> Seq<u8> {
    seq![113u8, 97u8, 115u8]
}

/// The bytes of the field name `question`.
pub open spec fn key_question() -> Seq<u8> {
    seq![113u8, 117u8, 101u8, 115u8, 116u8, 105u8, 111u8, 110u8]
}

/// The bytes of the field name `id`.
pub open spec fn key_id() -> Seq<u8> {
    seq![105u8, 100u8]
}

/// The bytes of the field name `answers`.
pub open spec fn key_answers() -> Seq<u8> {
    seq![97u8, 110u8, 115u8, 119u8, 101u8, 114u8, 115u8]
}

/// The bytes of the field name `answer_start`.
pub open spec fn key_answer_start() -> Seq<u8> {
    seq![97u8, 110u8, 115u8, 119u8, 101u8, 114u8, 95u8, 115u8, 116u8, 97u8, 114u8, 116u8]
}

/// The bytes of the field name `text`.
pub open spec fn key_text() -> Seq<u8> {
    seq![116u8, 101u8, 120u8, 116u8]
}
fn k_data() -> (r: Vec<u8>)
    ensures
        r@ == key_data(),
{
    let mut r: Vec<u8> = Vec::new();
    r.push(100u8);
    r.push(97u8);
    r.push(116u8);
    r.push(97u8);
    assert(r@ =~= key_data());
    r
}

fn k_title() -> (r: Vec<u8>)
    ensures
        r@ == key_title(),
{
    let mut r: Vec<u8> = Vec::new();
    r.push(116u8);
    r.push(105u8);
    r.push(116u8);
    r.push(108u8);
    r.push(101u8);
    assert(r@ =~= key_title());
    r
}

fn k_paragraphs() -> (r: Vec<u8>)
    ensures
        r@ == key_paragraphs(),
{
    let mut r: Vec<u8> = Vec::new();
    r.push(112u8);
    r.push(97u8);
    r.push(114u8);
    r.push(97u8);
    r.push(103u8);
    r.push(114u8);
    r.push(97u8);
    r.push(112u8);
    r.push(104u8);
    r.push(115u8);
    assert(r@ =~= key_paragraphs());
    r
}

fn k_context() -> (r: Vec<u8>)
    ensures
        r@ == key_context(),
{
    let mut r: Vec<u8> = Vec::new();
    r.push(99u8);
    r.push(111u8);
    r.push(110u8);
    r.push(116u8);
    r.push(101u8);
    r.push(120u8);
    r.push(116u8);
    assert(r@ =~= key_context());
    r
}

fn k_qas() -> (r: Vec<u8>)
    ensures
        r@ == key_qas(),
{
    let mut r: Vec<u8> = Vec::new();
    r.push(113u8);
    r.push(97u8);
    r.push(115u8);
    assert(r@ =~= key_qas());
    r
}

fn k_question() -> (r: Vec<u8>)
    ensures
        r@ == key_question(),
{
    let mut r: Vec<u8> = Vec::new();
    r.push(113u8);
    r.push(117u8);
    r.push(101u8);
    r.push(115u8);
    r.push(116u8);
    r.push(105u8);
    r.push(111u8);
    r.push(110u8);
    assert(r@ =~= key_question());
    r
}

fn k_id() -> (r: Vec<u8>)
    ensures
        r@ == key_id(),
{
    let mut r: Vec<u8> = Vec::new();
    r.push(105u8);
    r.push(100u8);
    assert(r@ =~= key_id());
    r
}

fn k_answers() -> (r: Vec<u8>)
    ensures
        r@ == key_answers(),
{
    let mut r: Vec<u8> = Vec::new();
    r.push(97u8);
    r.push(110u8);
    r.push(115u8);
    r.push(119u8);
    r.push(101u8);
    r.push(114u8);
    r.push(115u8);
    assert(r@ =~= key_answers());
    r
}

fn k_answer_start() -> (r: Vec<u8>)
    ensures
        r@ == key_answer_start(),
{
    let mut r: Vec<u8> = Vec::new();
    r.push(97u8);
    r.push(110u8);
    r.push(115u8);
    r.push(119u8);
    r.push(101u8);
    r.push(114u8);
    r.push(95u8);
    r.push(115u8);
    r.push(116u8);
    r.push(97u8);
    r.push(114u8);
    r.push(116u8);
    assert(r@ =~= key_answer_start());
    r
}

fn k_text() -> (r: Vec<u8>)
    ensures
        r@ == key_text(),
{
    let mut r: Vec<u8> = Vec::new();
    r.push(116u8);
    r.push(101u8);
    r.push(120u8);
    r.push(116u8);
    assert(r@ =~= key_text());
    r
}
} // verus!
