use engram::batch::pack_batch;
use engram::encoder::{special_tokens, LayaEncoder, LayaError, SpecialTokens};
use engram::laya::{
    build_sequence, default_head_max_len, default_max_len, head_text, nli_question, option_text, scrub_mask,
    sequence_from_ids, temperature_key, LayoutError, QType, Question, SpecialIds,
};
use engram::state::{nli_state, state_json, StateValue};

#[test]
fn state_json_matches_python_dumps() {
    // json.dumps({"premise": "a \"b\"", "hypothesis": "ü\n", "links": ["x", "y"]},
    //            ensure_ascii=False)
    let s = state_json(&[
        ("premise", StateValue::Text("a \"b\"".into())),
        ("hypothesis", StateValue::Text("ü\n".into())),
        ("links", StateValue::List(vec!["x".into(), "y".into()])),
    ]);
    assert_eq!(
        s,
        r#"{"premise": "a \"b\"", "hypothesis": "ü\n", "links": ["x", "y"]}"#
    );
}

#[test]
fn build_sequence_lays_out_markers_and_truncates_state() {
    let ids = SpecialIds {
        cls: 1,
        sep: 2,
        mask: 3,
        pad: 0,
    };
    let (seq, markers) = build_sequence(
        ids,
        vec![10, 11],
        vec![vec![20], vec![21, 22]],
        &[30; 50],
        16,
        192,
    );
    assert_eq!(&seq[..4], &[1, 10, 11, 2]);
    assert_eq!(markers, vec![4, 6]);
    assert_eq!(&seq[4..10], &[3, 20, 3, 21, 22, 2]);
    assert_eq!(seq.len(), 16);
    assert_eq!(*seq.last().unwrap(), 2);
}

fn ids() -> SpecialIds {
    SpecialIds { cls: 1, sep: 2, mask: 3, pad: 0 }
}

#[test]
fn build_sequence_keeps_whole_state_when_it_fits() {
    let (seq, markers) = build_sequence(ids(), vec![10], vec![vec![20]], &[30, 31], 64, 192);
    assert_eq!(seq, vec![1, 10, 2, 3, 20, 2, 30, 31, 2]);
    assert_eq!(markers, vec![3]);
}

#[test]
fn build_sequence_markers_point_at_masks() {
    let (seq, markers) = build_sequence(ids(), vec![10, 11, 12], vec![vec![20, 21], vec![22], vec![23, 24, 25]], &[30; 9], 20, 192);
    assert_eq!(markers.len(), 3);
    for m in &markers {
        assert_eq!(seq[*m], 3);
    }
    assert!(seq.len() <= 20);
}

#[test]
fn build_sequence_drops_markers_past_max_len() {
    // [CLS] 10 [SEP] [MASK] 20 [MASK] 21 ... : a max_len of 5 keeps only the first marker.
    let (seq, markers) = build_sequence(ids(), vec![10], vec![vec![20], vec![21]], &[30], 5, 192);
    assert_eq!(seq, vec![1, 10, 2, 3, 20]);
    assert_eq!(markers, vec![3]);
}

#[test]
fn build_sequence_cuts_options_to_the_head_budget() {
    // head_max_len 20: 2 options of 11 tokens with their markers leave -2 < 16,
    // so each is cut to max(4, (20 - 16) / 2) = 4 tokens; the head keeps
    // max(20 - 8, 8) = 12 of its tokens.
    let head: Vec<u32> = (100..120).collect();
    let o1: Vec<u32> = (200..210).collect();
    let o2: Vec<u32> = (300..310).collect();
    let (seq, markers) = build_sequence(ids(), head, vec![o1, o2], &[], 64, 20);
    let mut want = vec![1];
    want.extend(100..112);
    want.push(2);
    want.extend([3, 200, 201, 202, 3, 300, 301, 302]);
    want.push(2);
    want.push(2);
    assert_eq!(seq, want);
    assert_eq!(markers, vec![14, 18]);
}

#[test]
fn sequence_from_ids_refuses_options_past_max_len() {
    let r = sequence_from_ids(ids(), vec![10], vec![vec![20], vec![21]], &[30], 5, 192);
    assert_eq!(r.unwrap_err(), LayoutError::OptionsExceedHead { head_max_len: 192 });
}

#[test]
fn sequence_from_ids_caps_options_at_48_tokens() {
    let long: Vec<u32> = (1000..1100).collect();
    let (seq, markers) = sequence_from_ids(ids(), vec![10], vec![long], &[], 512, 192).unwrap();
    assert_eq!(markers, vec![3]);
    // [CLS] 10 [SEP] [MASK] 48 tokens [SEP] [SEP]
    assert_eq!(seq.len(), 3 + 1 + 48 + 2);
    assert_eq!(seq[4 + 47], 1047);
}

#[test]
fn nli_question_lists_labels_in_order() {
    let q = nli_question();
    assert_eq!(q.qtype, QType::Choice);
    assert_eq!(q.instructions, "What is the relationship between `premise` and `hypothesis`?");
    assert_eq!(
        q.options,
        vec![
            "entailment: the premise implies the hypothesis is true".to_string(),
            "neutral: the premise neither implies nor contradicts the hypothesis".to_string(),
            "contradiction: the premise implies the hypothesis is false".to_string(),
        ]
    );
}

#[test]
fn choice_renders_key_and_description() {
    let q = Question::choice("Which?", &[("yes", "it holds"), ("no", "")]);
    assert_eq!(q.qtype, QType::Choice);
    assert_eq!(q.instructions, "Which?");
    assert_eq!(q.options, vec!["yes: it holds".to_string(), "no".to_string()]);
}

#[test]
fn qtype_names_and_indices() {
    assert_eq!(QType::Choice.name(), "choice");
    assert_eq!(QType::Score.name(), "score");
    assert_eq!(QType::Noul.name(), "noul");
    assert_eq!(QType::Choice.index(), 0);
    assert_eq!(QType::Score.index(), 1);
    assert_eq!(QType::Noul.index(), 2);
}

#[test]
fn temperature_keys_bucket_option_counts() {
    assert_eq!(temperature_key(QType::Choice, 2), "choice:2");
    assert_eq!(temperature_key(QType::Choice, 3), "choice:3-5");
    assert_eq!(temperature_key(QType::Choice, 12), "choice:11+");
    assert_eq!(temperature_key(QType::Score, 7), "score:6-10");
    assert_eq!(temperature_key(QType::Noul, 1), "noul:2");
}

#[test]
fn config_defaults() {
    assert_eq!(default_max_len(), 512);
    assert_eq!(default_head_max_len(), 192);
}

#[test]
fn prompt_pieces() {
    let q = nli_question();
    assert_eq!(
        head_text(&q),
        "choice question: What is the relationship between `premise` and `hypothesis`?"
    );
    assert_eq!(option_text("yes"), " yes");
}

#[test]
fn scrub_mask_reads_the_mask_as_a_space() {
    assert_eq!(scrub_mask("a [MASK] b[MASK]", "[MASK]"), "a   b ");
    assert_eq!(scrub_mask("ab", ""), " a b ");
    assert_eq!(scrub_mask("plain", "<mask>"), "plain");
}

#[test]
fn nli_state_is_the_two_field_object() {
    assert_eq!(nli_state("it rains", "it is \"dry\""), r#"{"premise": "it rains", "hypothesis": "it is \"dry\""}"#);
}

#[test]
fn state_json_escapes_control_chars() {
    let s = state_json(&[("k", StateValue::Text("\u{1}\t\\".into())), ("e", StateValue::List(vec![]))]);
    assert_eq!(s, r#"{"k": "\u0001\t\\", "e": []}"#);
}

#[test]
fn pack_batch_pads_rows_and_markers() {
    let built = vec![(vec![1u32, 2, 3], vec![1usize]), (vec![4u32], vec![0usize, 0])];
    let b = pack_batch(&built, &vec![QType::Choice, QType::Noul], 9);
    assert_eq!(b.rows, 2);
    assert_eq!(b.len, 3);
    assert_eq!(b.kmax, 2);
    assert_eq!(b.input_ids, vec![1, 2, 3, 4, 9, 9]);
    assert_eq!(b.attention_mask, vec![1, 1, 1, 1, 0, 0]);
    assert_eq!(b.marker_pos, vec![1, 0, 0, 0]);
    assert_eq!(b.marker_mask, vec![true, false, true, true]);
    assert_eq!(b.qtype, vec![0, 2]);
}

const TOKENIZER: &str = r#"{
  "version": "1.0",
  "truncation": null,
  "padding": null,
  "added_tokens": [],
  "normalizer": null,
  "pre_tokenizer": {"type": "Whitespace"},
  "post_processor": null,
  "decoder": null,
  "model": {
    "type": "WordLevel",
    "vocab": {"[PAD]": 0, "[CLS]": 1, "[SEP]": 2, "[MASK]": 3, "[UNK]": 4,
              "choice": 5, "question": 6, ":": 7, "yes": 8, "no": 9, "hello": 10},
    "unk_token": "[UNK]"
  }
}"#;

fn tokens(mask: &str) -> SpecialTokens {
    SpecialTokens {
        cls: "[CLS]".into(),
        sep: "[SEP]".into(),
        mask: mask.into(),
        pad: "[PAD]".into(),
    }
}

#[test]
fn encoder_lays_out_a_tokenized_row() {
    let tok = tokenizers::Tokenizer::from_bytes(TOKENIZER.as_bytes()).unwrap();
    let enc = LayaEncoder::new(tok, &tokens("[MASK]"), 64, 192).unwrap();
    assert_eq!(enc.ids.cls, 1);
    assert_eq!(enc.ids.mask, 3);
    assert_eq!(enc.encode("hello [MASK] yes").unwrap(), vec![10, 8]);
    let q = Question::choice("pick", &[("yes", ""), ("no", "")]);
    let (seq, markers) = enc.sequence("hello", &q).unwrap();
    assert_eq!(seq, vec![1, 5, 6, 7, 4, 2, 3, 8, 3, 9, 2, 10, 2]);
    assert_eq!(markers, vec![6, 8]);
}

#[test]
fn encoder_refuses_options_that_do_not_fit() {
    let tok = tokenizers::Tokenizer::from_bytes(TOKENIZER.as_bytes()).unwrap();
    let enc = LayaEncoder::new(tok, &tokens("[MASK]"), 8, 192).unwrap();
    let q = Question::choice("pick", &[("yes", ""), ("no", "")]);
    match enc.sequence("hello", &q) {
        Err(LayaError::Layout(LayoutError::OptionsExceedHead { head_max_len })) => assert_eq!(head_max_len, 192),
        other => panic!("expected a layout error, got {other:?}"),
    }
}

#[test]
fn encoder_names_the_missing_special_token() {
    let tok = tokenizers::Tokenizer::from_bytes(TOKENIZER.as_bytes()).unwrap();
    match LayaEncoder::new(tok, &tokens("<mask>"), 64, 192) {
        Err(LayaError::MissingToken(t)) => assert_eq!(t, "<mask>"),
        Err(e) => panic!("unexpected error {e:?}"),
        Ok(_) => panic!("expected a missing token"),
    }
}

#[test]
fn encoder_reports_tokenizer_errors() {
    // A WordLevel model whose unknown token is missing from its vocabulary
    // cannot encode an unknown word.
    let json = TOKENIZER.replace(r#""[UNK]": 4,"#, "");
    let tok = tokenizers::Tokenizer::from_bytes(json.as_bytes()).unwrap();
    let enc = LayaEncoder::new(tok, &tokens("[MASK]"), 64, 192).unwrap();
    assert_eq!(enc.encode("hello").unwrap(), vec![10]);
    match enc.encode("zzz") {
        Err(LayaError::Tokenizer(message)) => assert!(!message.is_empty()),
        other => panic!("expected a tokenizer error, got {other:?}"),
    }
}

#[test]
fn encoder_loads_but_flags_a_truncation_that_would_panic() {
    let json = TOKENIZER.replace(
        r#""truncation": null"#,
        r#""truncation": {"direction": "Right", "max_length": 2, "strategy": "LongestFirst", "stride": 2}"#,
    );
    let tok = tokenizers::Tokenizer::from_bytes(json.as_bytes()).unwrap();
    let enc = LayaEncoder::new(tok, &tokens("[MASK]"), 64, 192).unwrap();
    assert_eq!(enc.ids.pad, 0);
    assert!(!enc.encodes_safely());
}

#[test]
fn encoder_keeps_a_safe_truncation() {
    let json = TOKENIZER.replace(
        r#""truncation": null"#,
        r#""truncation": {"direction": "Right", "max_length": 2, "strategy": "LongestFirst", "stride": 0}"#,
    );
    let tok = tokenizers::Tokenizer::from_bytes(json.as_bytes()).unwrap();
    let enc = LayaEncoder::new(tok, &tokens("[MASK]"), 64, 192).unwrap();
    assert!(enc.encodes_safely());
    assert_eq!(enc.encode("hello yes no").unwrap(), vec![10, 8]);
}

#[test]
fn special_tokens_read_the_config_or_default() {
    let t = special_tokens(Some(br#"{"mask_token": "<mask>", "cls_token": 5, "pad_token": "<pad>"}"#.as_slice()));
    assert_eq!(t.cls, "[CLS]");
    assert_eq!(t.sep, "[SEP]");
    assert_eq!(t.mask, "<mask>");
    assert_eq!(t.pad, "<pad>");
    let d = special_tokens(None);
    assert_eq!((d.cls.as_str(), d.sep.as_str(), d.mask.as_str(), d.pad.as_str()), ("[CLS]", "[SEP]", "[MASK]", "[PAD]"));
    let bad = special_tokens(Some(b"not json".as_slice()));
    assert_eq!(bad.mask, "[MASK]");
    let list = special_tokens(Some(b"[1, 2]".as_slice()));
    assert_eq!(list.pad, "[PAD]");
}

#[test]
fn encoder_names_the_first_missing_token() {
    let tok = tokenizers::Tokenizer::from_bytes(TOKENIZER.as_bytes()).unwrap();
    let t = SpecialTokens { cls: "[CLS]".into(), sep: "<sep>".into(), mask: "<mask>".into(), pad: "[PAD]".into() };
    match LayaEncoder::new(tok, &t, 64, 192) {
        Err(LayaError::MissingToken(m)) => assert_eq!(m, "<sep>"),
        Err(e) => panic!("unexpected error {e:?}"),
        Ok(_) => panic!("expected a missing token"),
    }
}
