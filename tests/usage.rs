use shai_core::usage::{normalized_usage, token_field};

#[test]
fn primary_key_wins_when_present() {
    assert_eq!(token_field(Some(Some(12)), Some(Some(99))), 12);
    assert_eq!(token_field(None, Some(Some(99))), 99);
    assert_eq!(token_field(Some(None), Some(Some(99))), 0);
    assert_eq!(token_field(None, None), 0);
}

#[test]
fn counts_keep_low_bits() {
    assert_eq!(token_field(Some(Some((1u64 << 32) + 5)), None), 5);
}

#[test]
fn usage_from_either_scheme() {
    let u = normalized_usage(None, Some(Some(100)), None, Some(Some(20)));
    assert_eq!(u.prompt_tokens, Some(100));
    assert_eq!(u.completion_tokens, Some(20));
    assert_eq!(u.total_tokens, 120);
    let big = normalized_usage(Some(Some(u32::MAX as u64)), None, Some(Some(1)), None);
    assert_eq!(big.total_tokens, u32::MAX);
}
