use qabuild::corpus::Corpus;
use qabuild::record::{Answers, Example};
use qabuild::rules::{get_clean_examples, get_append_examples, get_twoway_examples,
    get_challenge_examples, append_pick, twoway_pick, prepend_example, fits_check,
    corpus_prepend_ready, SAMPLE_SPACE, APPEND_CLEAN_LIMIT, TWOWAY_CLEAN_LIMIT,
    TWOWAY_APPEND_LIMIT};

fn example(title: &str, context: &str, question: &str, answers: &[(&str, i64)]) -> Example {
    Example {
        title: title.as_bytes().to_vec(),
        context: context.as_bytes().to_vec(),
        question: question.as_bytes().to_vec(),
        answers: Answers {
            text: answers.iter().map(|(t, _)| t.as_bytes().to_vec()).collect(),
            answer_start: answers.iter().map(|(_, s)| *s).collect(),
        },
    }
}

fn ex_eq(a: &Example, b: &Example) -> bool {
    a.title == b.title && a.context == b.context && a.question == b.question
        && a.answers.text == b.answers.text && a.answers.answer_start == b.answers.answer_start
}

fn scenario_corpus() -> Corpus {
    let mut c = Corpus::new();
    c.insert(
        b"Q1".to_vec(),
        example("T", "Paris is the capital. It is large.", "What is the capital?", &[("Paris", 0)]),
    );
    c.insert(
        b"Q1-high-conf".to_vec(),
        example(
            "T",
            "Paris is the capital. It is large. Rome is also a capital.",
            "What is the capital?",
            &[("Paris", 0)],
        ),
    );
    c
}

#[test]
fn clean_keeps_exactly_the_base_ids() {
    let c = scenario_corpus();
    let (out, count) = get_clean_examples(&c);
    assert_eq!(count, 1);
    assert_eq!(out.len(), 1);
    let got = out.get(&b"Q1".to_vec()).expect("Q1 in clean split");
    assert!(ex_eq(got, c.get(&b"Q1".to_vec()).unwrap()));
    assert!(out.get(&b"Q1-high-conf".to_vec()).is_none());
}

#[test]
fn challenge_keeps_exactly_the_variant_ids() {
    let c = scenario_corpus();
    let (out, counts) = get_challenge_examples(&c);
    assert_eq!(counts.clean, 1);
    assert_eq!(counts.challenge, 1);
    assert_eq!(out.len(), 1);
    let got = out.get(&b"Q1-high-conf".to_vec()).expect("variant in challenge split");
    assert!(ex_eq(got, c.get(&b"Q1-high-conf".to_vec()).unwrap()));
    assert!(out.get(&b"Q1".to_vec()).is_none());
}

#[test]
fn twoway_prepend_scenario() {
    let c = scenario_corpus();
    let clean_ex = c.get(&b"Q1".to_vec()).unwrap();
    let variant_ex = c.get(&b"Q1-high-conf".to_vec()).unwrap();
    // A sample in the third bucket forces the prepend transformation.
    let picked = twoway_pick(TWOWAY_APPEND_LIMIT, clean_ex, variant_ex);
    assert_eq!(
        picked.context,
        "Rome is also a capital. Paris is the capital. It is large.".as_bytes().to_vec()
    );
    assert_eq!(picked.answers.answer_start[0], "Rome is also a capital. ".len() as i64);
    assert_eq!(picked.title, clean_ex.title);
    assert_eq!(picked.question, clean_ex.question);
    assert_eq!(picked.answers.text, clean_ex.answers.text);
}

#[test]
fn twoway_pick_buckets() {
    let c = scenario_corpus();
    let clean_ex = c.get(&b"Q1".to_vec()).unwrap();
    let variant_ex = c.get(&b"Q1-high-conf".to_vec()).unwrap();
    let p = twoway_pick(0, clean_ex, variant_ex);
    assert!(ex_eq(&p, clean_ex));
    let p = twoway_pick(TWOWAY_CLEAN_LIMIT - 1, clean_ex, variant_ex);
    assert!(ex_eq(&p, clean_ex));
    let p = twoway_pick(TWOWAY_CLEAN_LIMIT, clean_ex, variant_ex);
    assert!(ex_eq(&p, variant_ex));
    let p = twoway_pick(TWOWAY_APPEND_LIMIT - 1, clean_ex, variant_ex);
    assert!(ex_eq(&p, variant_ex));
    let p = twoway_pick(SAMPLE_SPACE - 1, clean_ex, variant_ex);
    assert!(!ex_eq(&p, clean_ex) && !ex_eq(&p, variant_ex));
}

#[test]
fn append_pick_buckets() {
    let c = scenario_corpus();
    let clean_ex = c.get(&b"Q1".to_vec()).unwrap();
    let variant_ex = c.get(&b"Q1-high-conf".to_vec()).unwrap();
    let p = append_pick(APPEND_CLEAN_LIMIT - 1, clean_ex, variant_ex);
    assert!(ex_eq(&p, clean_ex));
    let p = append_pick(APPEND_CLEAN_LIMIT, clean_ex, variant_ex);
    assert!(ex_eq(&p, variant_ex));
}

#[test]
fn prepend_shifts_every_answer_and_spans_still_match() {
    let clean_ex = example(
        "T",
        "Lyon sits on two rivers. The rivers meet there.",
        "Where do the rivers meet?",
        &[("Lyon", 0), ("two rivers", 13)],
    );
    let variant_ex = example(
        "T",
        "Lyon sits on two rivers. The rivers meet there.   A third river is elsewhere.  ",
        "Where do the rivers meet?",
        &[("Lyon", 0), ("two rivers", 13)],
    );
    let r = prepend_example(&clean_ex, &variant_ex);
    let prefix = "A third river is elsewhere. ";
    let mut expected = prefix.as_bytes().to_vec();
    expected.extend_from_slice(&clean_ex.context);
    assert_eq!(r.context, expected);
    assert_eq!(r.answers.text, clean_ex.answers.text);
    for i in 0..r.answers.answer_start.len() {
        assert_eq!(
            r.answers.answer_start[i] - clean_ex.answers.answer_start[i],
            prefix.len() as i64
        );
        let s = r.answers.answer_start[i] as usize;
        let t = &r.answers.text[i];
        assert_eq!(&r.context[s..s + t.len()], t.as_slice());
    }
}

#[test]
fn prepend_trims_unicode_whitespace() {
    // The adversarial sentence is set off by a no-break space and an
    // ideographic space; trimming must remove them, as str::trim would.
    let clean_ctx = "Berlin is a city.";
    let variant_ctx = "Berlin is a city.\u{00A0}Bonn is a city.\u{3000}";
    let clean_ex = example("T", clean_ctx, "Which city?", &[("Berlin", 0)]);
    let variant_ex = example("T", variant_ctx, "Which city?", &[("Berlin", 0)]);
    let r = prepend_example(&clean_ex, &variant_ex);
    let raw_sentence = &variant_ctx[clean_ctx.len()..];
    let prefix = format!("{} ", raw_sentence.trim());
    assert_eq!(prefix, "Bonn is a city. ");
    let mut expected = prefix.as_bytes().to_vec();
    expected.extend_from_slice(&clean_ex.context);
    assert_eq!(r.context, expected);
    assert_eq!(r.answers.answer_start[0], prefix.len() as i64);
}

#[test]
fn prepend_of_identical_contexts_adds_one_space() {
    let clean_ex = example("T", "Same.", "Q?", &[("Same.", 0)]);
    let variant_ex = example("T", "Same.", "Q?", &[("Same.", 0)]);
    let r = prepend_example(&clean_ex, &variant_ex);
    assert_eq!(r.context, " Same.".as_bytes().to_vec());
    assert_eq!(r.answers.answer_start[0], 1);
}

#[test]
fn append_keeps_clean_only_base_ids_and_skips_orphan_variants() {
    let mut c = Corpus::new();
    c.insert(b"A1".to_vec(), example("T", "Alpha.", "Q?", &[("Alpha", 0)]));
    // A variant whose base id is absent is silently skipped.
    c.insert(b"B7-high-conf".to_vec(), example("T", "Beta. Gamma.", "Q?", &[("Beta", 0)]));
    let (out, counts) = get_append_examples(&c);
    assert_eq!(out.len(), 1);
    assert!(ex_eq(out.get(&b"A1".to_vec()).unwrap(), c.get(&b"A1".to_vec()).unwrap()));
    assert!(out.get(&b"B7".to_vec()).is_none());
    assert!(out.get(&b"B7-high-conf".to_vec()).is_none());
    assert_eq!(counts.clean, 1);
    assert_eq!(counts.appended, 0);
}

#[test]
fn twoway_keeps_clean_only_base_ids_and_skips_orphan_variants() {
    let mut c = Corpus::new();
    c.insert(b"A1".to_vec(), example("T", "Alpha.", "Q?", &[("Alpha", 0)]));
    c.insert(b"B7-high-conf".to_vec(), example("T", "Beta. Gamma.", "Q?", &[("Beta", 0)]));
    assert!(corpus_prepend_ready(&c));
    let (out, counts) = get_twoway_examples(&c);
    assert_eq!(out.len(), 1);
    assert!(ex_eq(out.get(&b"A1".to_vec()).unwrap(), c.get(&b"A1".to_vec()).unwrap()));
    assert_eq!(counts.clean, 1);
    assert_eq!(counts.appended + counts.prepended, 0);
}

fn pair_corpus(n: usize) -> Corpus {
    let mut c = Corpus::new();
    for i in 0..n {
        let base = format!("Q{}", i);
        let clean_ctx = format!("Fact number {} stands alone.", i);
        let variant_ctx = format!("Fact number {} stands alone. A distractor follows.", i);
        c.insert(
            base.as_bytes().to_vec(),
            example("T", &clean_ctx, "Which fact?", &[("Fact", 0)]),
        );
        c.insert(
            format!("{}-high-conf", base).as_bytes().to_vec(),
            example("T", &variant_ctx, "Which fact?", &[("Fact", 0)]),
        );
    }
    c
}

#[test]
fn append_ratio_converges_and_never_blends() {
    let n: usize = 2000;
    let c = pair_corpus(n);
    let (out, counts) = get_append_examples(&c);
    assert_eq!(out.len(), n);
    assert_eq!(counts.clean + counts.appended, n);
    // Every chosen example is exactly the clean or exactly the variant one.
    let mut clean_seen: usize = 0;
    for i in 0..n {
        let base = format!("Q{}", i).as_bytes().to_vec();
        let variant = format!("Q{}-high-conf", i).as_bytes().to_vec();
        let got = out.get(&base).expect("base id emitted");
        let is_clean = ex_eq(got, c.get(&base).unwrap());
        let is_variant = ex_eq(got, c.get(&variant).unwrap());
        assert!(is_clean != is_variant);
        if is_clean {
            clean_seen += 1;
        }
    }
    assert_eq!(clean_seen, counts.clean);
    let expected = APPEND_CLEAN_LIMIT as f64 / SAMPLE_SPACE as f64;
    let observed = counts.clean as f64 / n as f64;
    assert!(
        (observed - expected).abs() < 0.06,
        "clean fraction {} too far from {}",
        observed,
        expected
    );
}

#[test]
fn twoway_ratio_converges() {
    let n: usize = 2000;
    let c = pair_corpus(n);
    assert!(corpus_prepend_ready(&c));
    let (out, counts) = get_twoway_examples(&c);
    assert_eq!(out.len(), n);
    assert_eq!(counts.clean + counts.appended + counts.prepended, n);
    let total = SAMPLE_SPACE as f64;
    let p_clean = TWOWAY_CLEAN_LIMIT as f64 / total;
    let p_appended = (TWOWAY_APPEND_LIMIT - TWOWAY_CLEAN_LIMIT) as f64 / total;
    let p_prepended = (SAMPLE_SPACE - TWOWAY_APPEND_LIMIT) as f64 / total;
    let f_clean = counts.clean as f64 / n as f64;
    let f_appended = counts.appended as f64 / n as f64;
    let f_prepended = counts.prepended as f64 / n as f64;
    assert!((f_clean - p_clean).abs() < 0.06, "clean fraction {}", f_clean);
    assert!((f_appended - p_appended).abs() < 0.06, "appended fraction {}", f_appended);
    assert!((f_prepended - p_prepended).abs() < 0.06, "prepended fraction {}", f_prepended);
}

#[test]
fn fits_check_refuses_shorter_variant_context() {
    let clean_ex = example("T", "A long clean context.", "Q?", &[("A", 0)]);
    let variant_ex = example("T", "Short.", "Q?", &[("S", 0)]);
    assert!(!fits_check(&clean_ex, &variant_ex));
    let mut c = Corpus::new();
    c.insert(b"Q1".to_vec(), clean_ex);
    c.insert(b"Q1-high-conf".to_vec(), variant_ex);
    assert!(!corpus_prepend_ready(&c));
}

#[test]
fn insert_overwrites_duplicate_ids() {
    let mut c = Corpus::new();
    c.insert(b"Q1".to_vec(), example("T", "First.", "Q?", &[]));
    c.insert(b"Q1".to_vec(), example("T", "Second.", "Q?", &[]));
    assert_eq!(c.len(), 1);
    assert_eq!(c.get(&b"Q1".to_vec()).unwrap().context, b"Second.".to_vec());
}
