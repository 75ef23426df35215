use jarvis_core::commands::SlotDefinition;
use jarvis_core::slots::{
    candidate_span, span_candidates, OutputShape, SpanCandidate,
    assign_slots, build_prompt, encode_layout, extraction_enabled, extraction_input, greedy_flat, group_labels,
    make_span_tensors, normalize_backend, resolve_spans, slots_init_plan, sort_spans, split_words,
    word_splitter, FoundEntity, ScoredSpan, SlotsInit,
};

#[test]
fn normalize_backend_handles_all_none_variants() {
    assert_eq!(normalize_backend("None"), "none");
    assert_eq!(normalize_backend("NONE"), "none");
    assert_eq!(normalize_backend("none"), "none");
    assert_eq!(normalize_backend(""), "none");
    assert_eq!(normalize_backend("some-model-id"), "some-model-id");
    assert_eq!(normalize_backend("gliner-small"), "gliner-small");
}

#[test]
fn normalize_backend_is_idempotent_on_examples() {
    for raw in ["", "None", "nOnE", "gliner-small", "non", "nones"] {
        let once = normalize_backend(raw);
        assert_eq!(normalize_backend(&once), once);
    }
}

#[test]
fn slots_init_plans() {
    assert_eq!(slots_init_plan(Some("x"), Some("gliner")), SlotsInit::AlreadySet);
    assert_eq!(slots_init_plan(None, Some("NONE")), SlotsInit::Disabled);
    assert_eq!(slots_init_plan(None, None), SlotsInit::Disabled);
    assert_eq!(slots_init_plan(None, Some("gliner-small")), SlotsInit::LoadModel("gliner-small".to_string()));
    assert!(!extraction_enabled(0, Some("m")));
    assert!(!extraction_enabled(2, Some("none")));
    assert!(!extraction_enabled(2, None));
    assert!(extraction_enabled(2, Some("m")));
}

fn slot(name: &str, entity: &str) -> (String, SlotDefinition) {
    (name.to_string(), SlotDefinition { entity: entity.to_string() })
}

#[test]
fn labels_group_their_slots() {
    let slots = vec![slot("city", "location"), slot("when", "time"), slot("town", "location"), slot("x", "")];
    let g = group_labels(&slots);
    assert_eq!(
        g,
        vec![
            ("location".to_string(), vec!["city".to_string(), "town".to_string()]),
            ("time".to_string(), vec!["when".to_string()]),
        ]
    );
}

#[test]
fn prompt_layout() {
    let labels = vec!["location".to_string(), "time".to_string()];
    let words = vec!["hi".to_string(), "there".to_string()];
    let (p, n) = build_prompt(&labels, &words);
    assert_eq!(p, vec!["<<ENT>>", "location", "<<ENT>>", "time", "<<SEP>>", "hi", "there"]);
    assert_eq!(n, 5);
}

#[test]
fn token_layout_numbers_text_words() {
    let encs: Vec<Vec<u32>> = vec![vec![10], vec![11, 12], vec![13], vec![20], vec![21, 22]];
    let l = encode_layout(&encs, 3, 2);
    assert_eq!(l.input_ids, vec![1, 10, 11, 12, 13, 20, 21, 22, 2]);
    assert_eq!(l.attention_masks, vec![1; 9]);
    assert_eq!(l.word_masks, vec![0, 0, 0, 0, 0, 1, 2, 0, 0]);
    assert_eq!(l.text_length, 3);
    assert_eq!(l.num_words, 3);
}

#[test]
fn span_tensors() {
    let (idx, mask) = make_span_tensors(3, 2);
    assert_eq!(idx, vec![(0, 0), (0, 1), (1, 1), (1, 2), (2, 2), (0, 0)]);
    assert_eq!(mask, vec![true, true, true, true, true, false]);
}

fn sp(start: usize, end: usize, score: u32, item: usize) -> ScoredSpan {
    ScoredSpan { start, end, score, item }
}

#[test]
fn overlapping_spans_keep_the_stronger() {
    let spans = vec![sp(10, 15, 5, 0), sp(0, 4, 3, 1), sp(2, 6, 9, 2), sp(20, 25, 1, 3)];
    let kept: Vec<usize> = resolve_spans(&spans).into_iter().map(|s| s.item).collect();
    assert_eq!(kept, vec![2, 0, 3]);
    let sorted: Vec<usize> = sort_spans(&spans).into_iter().map(|s| s.item).collect();
    assert_eq!(sorted, vec![1, 2, 0, 3]);
    // an equal score keeps the earlier span
    let tie = greedy_flat(vec![sp(0, 4, 7, 0), sp(1, 3, 7, 1)]);
    assert_eq!(tie.iter().map(|s| s.item).collect::<Vec<_>>(), vec![0]);
    assert!(greedy_flat(vec![]).is_empty());
}

#[test]
fn kept_spans_never_overlap() {
    let spans = vec![sp(0, 5, 1, 0), sp(1, 2, 2, 1), sp(3, 9, 3, 2), sp(4, 6, 1, 3), sp(9, 12, 2, 4), sp(10, 11, 5, 5)];
    let kept = resolve_spans(&spans);
    for w in kept.windows(2) {
        assert!(w[0].end <= w[1].start);
    }
}

#[test]
fn confident_entities_fill_each_slot_once() {
    let slots = vec![slot("city", "location"), slot("when", "time"), slot("town", "location")];
    let groups = group_labels(&slots);
    let ents = vec![
        FoundEntity { label: "location".to_string(), text: "Moscow".to_string(), confident: true },
        FoundEntity { label: "location".to_string(), text: "Paris".to_string(), confident: true },
        FoundEntity { label: "time".to_string(), text: "now".to_string(), confident: false },
    ];
    let r = assign_slots(&ents, &groups);
    assert_eq!(
        r,
        vec![("city".to_string(), "Moscow".to_string()), ("town".to_string(), "Moscow".to_string())]
    );
}

#[test]
fn words_of_a_text() {
    let splitter = word_splitter().unwrap();
    let words = split_words(&splitter, "hello, big-world!", None);
    let v: Vec<(usize, usize, String)> = words.into_iter().map(|w| (w.start, w.end, w.text)).collect();
    assert_eq!(
        v,
        vec![
            (0, 5, "hello".to_string()),
            (5, 6, ",".to_string()),
            (7, 16, "big-world".to_string()),
            (16, 17, "!".to_string()),
        ]
    );
    assert_eq!(split_words(&splitter, "hello, big-world!", Some(2)).len(), 2);
    assert_eq!(split_words(&splitter, "hello, big-world!", Some(0)).len(), 1);
    assert!(split_words(&splitter, "   ", Some(3)).is_empty());
}

#[test]
fn candidates_follow_the_output_layout() {
    let sh = OutputShape { num_words: 2, max_width: 2, dim_width: 2, dim_labels: 1, num_labels: 1, len: 100 };
    let c = span_candidates(&sh);
    assert_eq!(
        c,
        vec![
            SpanCandidate { first_word: 0, last_word: 0, label: 0, flat: 2 },
            SpanCandidate { first_word: 0, last_word: 1, label: 0, flat: 3 },
            SpanCandidate { first_word: 1, last_word: 1, label: 0, flat: 4 },
        ]
    );
    let short = OutputShape { len: 4, ..sh };
    assert_eq!(span_candidates(&short).len(), 2);
    let splitter = word_splitter().unwrap();
    let words = split_words(&splitter, "new york", None);
    let s = candidate_span(&c[1], &words, 7, 1);
    assert_eq!((s.start, s.end, s.score, s.item), (0, 8, 7, 1));
}

#[test]
fn extraction_input_groups_splits_and_prompts() {
    let splitter = word_splitter().unwrap();
    let slots = vec![
        ("from".to_string(), SlotDefinition { entity: "city".to_string() }),
        ("to".to_string(), SlotDefinition { entity: "city".to_string() }),
        ("when".to_string(), SlotDefinition { entity: "date".to_string() }),
        ("note".to_string(), SlotDefinition { entity: String::new() }),
    ];
    let inp = extraction_input(&splitter, "из Москвы в Тверь", &slots, Some("gliner-small"), 512).unwrap();
    assert_eq!(inp.groups.len(), 2);
    let labels: Vec<&str> = inp.groups.iter().map(|g| g.0.as_str()).collect();
    assert_eq!(inp.words.len(), 4);
    let mut expected: Vec<String> = Vec::new();
    for l in &labels {
        expected.push("<<ENT>>".to_string());
        expected.push(l.to_string());
    }
    expected.push("<<SEP>>".to_string());
    for w in ["из", "Москвы", "в", "Тверь"] {
        expected.push(w.to_string());
    }
    assert_eq!(inp.prompt, expected);
    assert_eq!(inp.ent_len, 5);
    // a limit of two words
    let inp = extraction_input(&splitter, "из Москвы в Тверь", &slots, Some("gliner-small"), 2).unwrap();
    assert_eq!(inp.words.len(), 2);
    // off, no labels, no words
    assert!(extraction_input(&splitter, "из Москвы", &slots, Some("none"), 512).is_none());
    assert!(extraction_input(&splitter, "из Москвы", &slots, None, 512).is_none());
    let unlabeled = vec![("note".to_string(), SlotDefinition { entity: String::new() })];
    assert!(extraction_input(&splitter, "из Москвы", &unlabeled, Some("gliner-small"), 512).is_none());
    assert!(extraction_input(&splitter, "   ", &slots, Some("gliner-small"), 512).is_none());
}
