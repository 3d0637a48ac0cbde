use traza::content::{
    bit_positions, build, for_each_token, probe_key, size_bits, tokens, Bloom, Query, HASH_COUNT,
    MAX_TOKEN_LEN,
};

fn fill_ratio(bloom: &Bloom) -> f64 {
    bloom.set_bits() as f64 / bloom.bit_len() as f64
}

#[test]
fn tokenization_is_pinned_to_the_format() {
    assert_eq!(
        tokens("Refund the ORDER, please."),
        ["refund", "the", "order", "please"]
    );
    assert_eq!(
        tokens("gen_ai.request.model"),
        ["gen", "ai", "request", "model"]
    );
    assert_eq!(
        tokens(r#"{"role":"user","content":"hi"}"#),
        ["role", "user", "content", "hi"]
    );
    assert_eq!(tokens("gpt-4o-mini"), ["gpt", "4o", "mini"]);
    assert_eq!(tokens("   "), Vec::<String>::new());
    assert_eq!(tokens(""), Vec::<String>::new());
}

#[test]
fn long_runs_are_truncated_for_the_filter_and_nowhere_else() {
    let long = "a".repeat(MAX_TOKEN_LEN + 25);
    assert_eq!(
        tokens(&long),
        std::slice::from_ref(&long),
        "the token itself is whole"
    );
    assert_eq!(probe_key(&long).len(), MAX_TOKEN_LEN);

    let first = format!("{}aaa", "z".repeat(MAX_TOKEN_LEN));
    let second = format!("{}bbb", "z".repeat(MAX_TOKEN_LEN));

    let mut bloom = Bloom::new(size_bits(8, 64, 4096));
    bloom.insert(&second);
    assert!(
        bloom.may_contain(&first),
        "a shared 40-byte prefix must still admit the candidate"
    );

    assert!(
        !Query::new(&first).matches(&[&second]),
        "distinct words sharing a prefix must not match"
    );
    assert!(Query::new(&first).matches(&[&first]));
}

#[test]
fn non_ascii_is_a_separator_and_says_so() {
    assert_eq!(tokens("hello 世界 world"), ["hello", "world"]);
    assert!(!Query::new("世界").is_indexable());
    assert!(!Query::new("!!!").is_indexable());
    assert!(Query::new("hello").is_indexable());
}

#[test]
fn matching_tests_exactly_what_the_filter_approximates() {
    let query = Query::new("refund");
    assert!(query.matches(&["please REFUND the order"]));
    assert!(query.matches(&["refund,"]));
    assert!(query.matches(&[r#"{"note":"refund"}"#]));

    assert!(!query.matches(&["refunds were issued"]));
    assert!(!query.matches(&["prerefund"]));
    let mut bloom = Bloom::new(size_bits(8, 64, 4096));
    for token in tokens("refunds were issued") {
        bloom.insert(&token);
    }
    assert!(
        !bloom.may_contain("refund"),
        "the filter really does exclude this span, so matches() must too"
    );
}

#[test]
fn a_multi_word_query_is_a_conjunction_not_a_phrase() {
    let query = Query::new("refund the order");
    assert_eq!(query.tokens(), ["order", "refund", "the"]);
    assert!(query.matches(&["Please Refund The Order now"]));
    assert!(query.matches(&["the order was flagged; we issued a refund"]));
    assert!(!query.matches(&["refund an order"]), "'the' is missing");
    assert!(query.matches(&["refund the", "ORDER"]));
}

#[test]
fn a_filter_never_reports_a_token_it_holds_as_absent() {
    let inserted: Vec<String> = (0..500).map(|i| format!("token{i}")).collect();
    let joined = inserted.join(" ");
    let bloom = build(&[&joined], 64, 4096);
    for token in &inserted {
        assert!(bloom.may_contain(token), "{token} was inserted");
    }
    assert!(bloom.may_contain_all(&inserted));
}

#[test]
fn the_false_positive_rate_is_near_what_the_sizing_promises() {
    let present: Vec<String> = (0..1_000).map(|i| format!("present{i}")).collect();
    let bloom = build(&[&present.join(" ")], 64, 65_536);
    let probes = 20_000;
    let hits = (0..probes)
        .filter(|i| bloom.may_contain(&format!("absent{i}")))
        .count();
    let rate = hits as f64 / probes as f64;
    assert!(
        rate < 0.05,
        "false-positive rate {rate:.4} is far above the ~2.4% the sizing \
         budgets at k={HASH_COUNT}"
    );
    assert!(fill_ratio(&bloom) > 0.1 && fill_ratio(&bloom) < 0.9);
}

#[test]
fn sizing_is_clamped_at_both_ends() {
    assert_eq!(size_bits(0, 64, 4096), 64 * 8);
    assert_eq!(size_bits(1, 64, 4096), 64 * 8);
    assert_eq!(size_bits(100_000_000, 64, 4096), 4096 * 8);
    assert!(size_bits(1_000, 64, 65_536).is_power_of_two());
    assert_eq!(size_bits(1_000, 64, 65_536), 8_192);
}

#[test]
fn a_ceiling_that_is_no_power_of_two_is_kept() {
    assert_eq!(size_bits(100, 1, 3), 16);
    assert_eq!(size_bits(usize::MAX, 1, 3), 16);
    assert_eq!(size_bits(1, 1, 3), 8);
    assert_eq!(size_bits(100, 3, 5), 32);
    assert_eq!(size_bits(0, 3, 3), 24, "no power of two lies between the bounds");
    assert_eq!(size_bits(100, 5, 7), 56);
    assert_eq!(size_bits(0, 5, 7), 56);
    assert_eq!(size_bits(0, 0, 0), 0);
    assert_eq!(size_bits(1_000_000, 64, 5_000), 4_096 * 8);
    for max in 1..40 {
        for min in 1..=max {
            for distinct in [0, 1, 3, 17, 1_000] {
                let bits = size_bits(distinct, min, max);
                assert!(min * 8 <= bits && bits <= max * 8, "{distinct} {min} {max}: {bits}");
            }
        }
    }
    let bloom = build(&["one two three four five"], 1, 3);
    assert_eq!(bloom.bit_len(), 16);
    assert!(bloom.may_contain_all(&tokens("one two three four five")));
    let bloom = build(&["one two three four five"], 5, 7);
    assert_eq!(bloom.bit_len(), 56);
    assert!(bloom.may_contain_all(&tokens("one two three four five")));
    assert_eq!(bloom, build(&["five four", "three two one one"], 5, 7));
}

#[test]
fn tokens_are_kept_apart_and_read_back() {
    let (a, b) = ("Refund-4o", "THE order!");
    let both: Vec<String> = tokens(a).into_iter().chain(tokens(b)).collect();
    assert_eq!(tokens(&format!("{a} {b}")), both);
    assert_eq!(tokens(&a.to_ascii_uppercase()), tokens(a));
    assert_eq!(tokens(&both.join(" ")), both);
    assert!(both.iter().all(|token| !token.is_empty()
        && token.bytes().all(|byte| byte.is_ascii_digit() || byte.is_ascii_lowercase())));
}

#[test]
fn the_positions_of_a_token_differ() {
    for bit_len in [8, 64, 512, 65_536] {
        for i in 0..200 {
            let token = format!("token{i}");
            let at = bit_positions(&token, bit_len);
            assert_eq!(at.len(), 4);
            for (k, position) in at.iter().enumerate() {
                assert!(*position < bit_len);
                assert!(!at[..k].contains(position), "{token} {bit_len}: {at:?}");
            }
        }
    }
    let shared = "z".repeat(MAX_TOKEN_LEN);
    assert_eq!(
        bit_positions(&format!("{shared}a"), 512),
        bit_positions(&format!("{shared}b"), 512)
    );
}

#[test]
fn order_and_repeats_do_not_change_a_filter() {
    let once = build(&["refund the order", "please"], 8, 64);
    assert_eq!(build(&["please", "refund the order"], 8, 64), once);
    assert_eq!(build(&["PLEASE order", "the refund", "please", ""], 8, 64), once);
    assert_ne!(build(&["refund the order"], 8, 64), once);
}

#[test]
fn a_saturated_filter_stops_pruning_without_lying() {
    let corpus: Vec<String> = (0..20_000).map(|i| format!("word{i}")).collect();
    let joined = corpus.join(" ");
    let bloom = build(&[&joined], 64, 64);
    assert!(fill_ratio(&bloom) > 0.99, "this filter should be saturated");
    for token in corpus.iter().take(200) {
        assert!(bloom.may_contain(token), "no false negatives, ever");
    }
}

#[test]
fn folding_a_token_does_not_change_which_bits_it_sets() {
    let mut bloom = Bloom::new(size_bits(10, 64, 4096));
    bloom.insert("refund");
    let mut seen = Vec::new();
    for_each_token("REFUND Refund refund", &mut seen);
    assert_eq!(seen, ["refund", "refund", "refund"]);
    for token in seen {
        assert!(bloom.may_contain(&token));
    }
}

#[test]
fn a_filter_reads_back_from_its_bytes() {
    let mut bloom = Bloom::new(64);
    bloom.insert("refund");
    let copy = Bloom::from_bytes(bloom.as_bytes().to_vec());
    assert_eq!(copy, bloom);
    assert!(copy.may_contain("refund"));
    assert_eq!(copy.bit_len(), 64);
    assert_eq!(copy.set_bits(), 4);
}

#[test]
fn a_query_echoes_its_needle() {
    let query = Query::new("Refund  refund");
    assert_eq!(query.needle(), "Refund  refund");
    assert_eq!(query.tokens(), ["refund"]);
    assert!(!Query::new("").matches(&["anything"]));
}
