use shai_core::max_context::{get_max_context, jaro_winkler_score};

#[test]
fn exact_names_give_their_length() {
    assert_eq!(get_max_context("gpt-oss"), 10_000);
    assert_eq!(get_max_context("mistral-small-3-2"), 128_000);
    assert_eq!(get_max_context("meta-llama-3_1"), 131_000);
    assert_eq!(get_max_context("deepseek-r1"), 128_000);
}

#[test]
fn unknown_model_gets_default() {
    assert_eq!(get_max_context("unknown-model-xyz"), 30_096);
    assert_eq!(get_max_context(""), 30_096);
}

#[test]
fn fuzzy_match_ignores_case() {
    assert_eq!(get_max_context("Qwen3"), 32_000);
    assert_eq!(get_max_context("QWEN3"), 32_000);
    assert_eq!(get_max_context("Mistral-7B"), 32_000);
}

#[test]
fn fuzzy_match_picks_the_closest_name() {
    assert_eq!(get_max_context("gpt-oss-20b"), 10_000);
    assert_eq!(get_max_context("llama-3-1-8b"), 131_000);
    assert_eq!(get_max_context("deepseek-r1-distill"), 128_000);
}

#[test]
fn fuzzy_match_of_a_longer_name() {
    // "qwen3-coder-32b" against "qwen3": five matches, no transposition,
    // a common prefix of four: 13/15.
    assert_eq!(get_max_context("Qwen3-Coder-32B"), 32_000);
    assert_eq!(get_max_context("zzz"), 30_096);
}

#[test]
fn jaro_winkler_exact_fractions() {
    let chars = |s: &str| s.chars().collect::<Vec<char>>();
    assert_eq!(jaro_winkler_score(&chars("martha"), &chars("marhta")), (12_456, 12_960));
    assert_eq!(jaro_winkler_score(&chars("qwen3-coder-32b"), &chars("qwen3")), (19_500, 22_500));
    assert_eq!(jaro_winkler_score(&chars("abc"), &chars("xyz")), (0, 1));
    assert_eq!(jaro_winkler_score(&chars(""), &chars("")), (1, 1));
}

#[test]
fn lookup_is_deterministic() {
    for name in ["gpt-oss", "Qwen3", "nothing-like-it", "llama-3_3"] {
        assert_eq!(get_max_context(name), get_max_context(name));
        assert!(get_max_context(name) > 0);
    }
}
