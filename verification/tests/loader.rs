use qabuild::jsonio::{read_raw_examples, JsonValue, ParseError};
use qabuild::output::flatten_examples;
use qabuild::ids::{id_has_hyphen, base_id, high_conf_id};

fn txt(s: &str) -> JsonValue {
    JsonValue::Text(s.as_bytes().to_vec())
}

fn num(i: i64) -> JsonValue {
    JsonValue::Int(i)
}

fn obj(fields: Vec<(&str, JsonValue)>) -> JsonValue {
    JsonValue::Object(fields.into_iter().map(|(k, v)| (k.as_bytes().to_vec(), v)).collect())
}

fn arr(items: Vec<JsonValue>) -> JsonValue {
    JsonValue::Array(items)
}

fn answer(start: i64, text: &str) -> JsonValue {
    obj(vec![("answer_start", num(start)), ("text", txt(text))])
}

fn qa(question: &str, id: &str, answers: Vec<JsonValue>) -> JsonValue {
    obj(vec![("question", txt(question)), ("id", txt(id)), ("answers", arr(answers))])
}

fn paragraph(context: &str, qas: Vec<JsonValue>) -> JsonValue {
    obj(vec![("context", txt(context)), ("qas", arr(qas))])
}

fn group(title: &str, paragraphs: Vec<JsonValue>) -> JsonValue {
    obj(vec![("title", txt(title)), ("paragraphs", arr(paragraphs))])
}

fn doc(groups: Vec<JsonValue>) -> JsonValue {
    obj(vec![("data", arr(groups))])
}

fn nested_doc() -> JsonValue {
    doc(vec![
        group(
            "T1",
            vec![paragraph(
                "Paris is the capital. It is large.",
                vec![
                    qa("What is the capital?", "Q1", vec![answer(0, "Paris")]),
                    qa("What is the capital?", "Q1-high-conf", vec![]),
                ],
            )],
        ),
        group(
            "T2",
            vec![paragraph(
                "Rivers flow north.",
                vec![qa("Where do rivers flow?", "Q2", vec![answer(7, "flow"), answer(12, "north")])],
            )],
        ),
    ])
}

#[test]
fn loader_builds_the_corpus() {
    let c = read_raw_examples(&nested_doc()).expect("well-formed input");
    assert_eq!(c.len(), 3);
    let q1 = c.get(&b"Q1".to_vec()).unwrap();
    assert_eq!(q1.title, b"T1".to_vec());
    assert_eq!(q1.context, "Paris is the capital. It is large.".as_bytes().to_vec());
    assert_eq!(q1.question, "What is the capital?".as_bytes().to_vec());
    assert_eq!(q1.answers.text, vec![b"Paris".to_vec()]);
    assert_eq!(q1.answers.answer_start, vec![0i64]);
    let v1 = c.get(&b"Q1-high-conf".to_vec()).unwrap();
    assert_eq!(v1.title, b"T1".to_vec());
    assert!(v1.answers.text.is_empty());
    let q2 = c.get(&b"Q2".to_vec()).unwrap();
    assert_eq!(q2.title, b"T2".to_vec());
    assert_eq!(q2.answers.answer_start, vec![7i64, 12i64]);
    assert_eq!(q2.answers.text, vec![b"flow".to_vec(), b"north".to_vec()]);
}

#[test]
fn loader_later_duplicate_id_wins() {
    let d = doc(vec![group(
        "T",
        vec![paragraph(
            "One.",
            vec![qa("Q?", "D1", vec![]), qa("Q?", "D1", vec![answer(0, "One.")])],
        )],
    )]);
    let c = read_raw_examples(&d).unwrap();
    assert_eq!(c.len(), 1);
    let got = c.get(&b"D1".to_vec()).unwrap();
    assert_eq!(got.answers.text, vec![b"One.".to_vec()]);
}

#[test]
fn flatten_round_trips_the_mapping() {
    let c = read_raw_examples(&nested_doc()).unwrap();
    let out = flatten_examples(&c);
    assert_eq!(out.id.len(), c.len());
    assert_eq!(out.title.len(), c.len());
    assert_eq!(out.context.len(), c.len());
    assert_eq!(out.question.len(), c.len());
    assert_eq!(out.answers.len(), c.len());
    // Rebuilding the mapping from the parallel arrays gives back exactly the
    // corpus, whatever order the arrays are read in.
    let mut seen: usize = 0;
    for i in 0..out.id.len() {
        let v = c.get(&out.id[i]).expect("flattened id is a corpus id");
        assert_eq!(out.title[i], v.title);
        assert_eq!(out.context[i], v.context);
        assert_eq!(out.question[i], v.question);
        assert_eq!(out.answers[i].text, v.answers.text);
        assert_eq!(out.answers[i].answer_start, v.answers.answer_start);
        seen += 1;
    }
    assert_eq!(seen, c.len());
    for i in 0..out.id.len() {
        for j in 0..i {
            assert_ne!(out.id[i], out.id[j]);
        }
    }
}

#[test]
fn loader_rejects_missing_or_non_array_data() {
    assert_eq!(read_raw_examples(&obj(vec![])).unwrap_err(), ParseError::MissingData);
    assert_eq!(
        read_raw_examples(&obj(vec![("data", num(5))])).unwrap_err(),
        ParseError::MissingData
    );
    assert_eq!(read_raw_examples(&num(1)).unwrap_err(), ParseError::MissingData);
}

#[test]
fn loader_rejects_missing_title() {
    assert_eq!(read_raw_examples(&doc(vec![obj(vec![])])).unwrap_err(), ParseError::MissingTitle);
    assert_eq!(
        read_raw_examples(&doc(vec![obj(vec![("title", num(3)), ("paragraphs", arr(vec![]))])]))
            .unwrap_err(),
        ParseError::MissingTitle
    );
}

#[test]
fn loader_rejects_missing_paragraphs() {
    assert_eq!(
        read_raw_examples(&doc(vec![obj(vec![("title", txt("T"))])])).unwrap_err(),
        ParseError::MissingParagraphs
    );
}

#[test]
fn loader_rejects_missing_context() {
    assert_eq!(
        read_raw_examples(&doc(vec![group("T", vec![obj(vec![])])])).unwrap_err(),
        ParseError::MissingContext
    );
}

#[test]
fn loader_rejects_missing_qas() {
    assert_eq!(
        read_raw_examples(&doc(vec![group("T", vec![obj(vec![("context", txt("C"))])])]))
            .unwrap_err(),
        ParseError::MissingQas
    );
}

#[test]
fn loader_rejects_missing_question_id_answers() {
    let with_qa = |q: JsonValue| doc(vec![group("T", vec![paragraph("C", vec![q])])]);
    assert_eq!(read_raw_examples(&with_qa(obj(vec![]))).unwrap_err(), ParseError::MissingQuestion);
    assert_eq!(
        read_raw_examples(&with_qa(obj(vec![("question", txt("Q?"))]))).unwrap_err(),
        ParseError::MissingId
    );
    assert_eq!(
        read_raw_examples(&with_qa(obj(vec![("question", txt("Q?")), ("id", txt("X"))])))
            .unwrap_err(),
        ParseError::MissingAnswers
    );
}

#[test]
fn loader_rejects_missing_answer_fields() {
    let with_answer = |a: JsonValue| {
        doc(vec![group("T", vec![paragraph("C", vec![qa("Q?", "X", vec![a])])])])
    };
    assert_eq!(
        read_raw_examples(&with_answer(obj(vec![("text", txt("A"))]))).unwrap_err(),
        ParseError::MissingAnswerStart
    );
    assert_eq!(
        read_raw_examples(&with_answer(obj(vec![("answer_start", num(0))]))).unwrap_err(),
        ParseError::MissingText
    );
}

#[test]
fn id_helpers_split_on_the_first_hyphen() {
    assert!(!id_has_hyphen(&b"Q1".to_vec()));
    assert!(id_has_hyphen(&b"Q1-high-conf".to_vec()));
    assert_eq!(base_id(&b"Q1-high-conf".to_vec()), b"Q1".to_vec());
    assert_eq!(base_id(&b"Q1".to_vec()), b"Q1".to_vec());
    assert_eq!(base_id(&b"-leading".to_vec()), b"".to_vec());
    assert_eq!(base_id(&b"".to_vec()), b"".to_vec());
    assert_eq!(high_conf_id(&b"Q1".to_vec()), b"Q1-high-conf".to_vec());
}
