//! Normalising the token usage that providers report under different keys.
use vstd::prelude::*;

use crate::compressor::LlmUsage;

verus! {

/// A token count field as a provider reports it: `None` when the key is
/// absent, `Some(None)` when it holds no unsigned integer.
pub open spec fn field_value(field: Option<Option<u64>>) -> u64 {
    match field {
        Some(Some(v)) => v,
        _ => 0,
    }
}

/// The count read from `primary`, or from `fallback` when `primary` is
/// absent, as a `u32` (keeping the low 32 bits); zero when neither holds one.
pub open spec fn token_field_value(primary: Option<Option<u64>>, fallback: Option<Option<u64>>) -> u32 {
    let v = if primary is Some {
        field_value(primary)
    } else {
        field_value(fallback)
    };
    (v % 0x1_0000_0000) as u32
}

/// Reads one token count, trying the `primary` key before the `fallback` one.
pub fn token_field(primary: Option<Option<u64>>, fallback: Option<Option<u64>>) -> (r: u32)
    ensures
        r == token_field_value(primary, fallback),
{
    let field = match primary {
        Some(p) => Some(p),
        None => fallback,
    };
    let v: u64 = match field {
        Some(Some(v)) => v,
        _ => 0,
    };
    (v % 0x1_0000_0000) as u32
}

/// The usage with its counts read from either naming scheme
/// (`prompt_tokens`/`input_tokens`, `completion_tokens`/`output_tokens`);
/// the total is their sum, saturating at `u32::MAX`.
pub fn normalized_usage(
    prompt_tokens: Option<Option<u64>>,
    input_tokens: Option<Option<u64>>,
    completion_tokens: Option<Option<u64>>,
    output_tokens: Option<Option<u64>>,
) -> (r: LlmUsage)
    ensures
        r.prompt_tokens == Some(token_field_value(prompt_tokens, input_tokens)),
        r.completion_tokens == Some(token_field_value(completion_tokens, output_tokens)),
        r.total_tokens == vstd::math::min(
            token_field_value(prompt_tokens, input_tokens) + token_field_value(
                completion_tokens,
                output_tokens,
            ),
            u32::MAX as int,
        ),
{
    let input = token_field(prompt_tokens, input_tokens);
    let output = token_field(completion_tokens, output_tokens);
    let total: u64 = input as u64 + output as u64;
    let total: u32 = if total > u32::MAX as u64 {
        u32::MAX
    } else {
        total as u32
    };
    LlmUsage { prompt_tokens: Some(input), completion_tokens: Some(output), total_tokens: total }
}

} // verus!
