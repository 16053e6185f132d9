//! Maximum context length of known language models.
use vstd::prelude::*;

use crate::text::{chars_of, lower_of, lowercase};

verus! {

/// The context length assumed for a model that nothing in the table resembles.
pub const DEFAULT_CONTEXT: usize = 30_096;

pub const MODEL_COUNT: usize = 12;

/// Known model names and their context lengths.
pub open spec fn model_table() -> Seq<(Seq<char>, usize)> {
    seq![
        ("gpt-oss"@, 10_000usize),
        ("mistral-small-3-2"@, 128_000usize),
        ("mistral-7b"@, 32_000usize),
        ("mistral-nemo"@, 32_000usize),
        ("mixtral-8x7b"@, 32_000usize),
        ("qwen3"@, 32_000usize),
        ("qwen-2-5"@, 32_000usize),
        ("llama-3-1"@, 131_000usize),
        ("llama-3_3"@, 131_000usize),
        ("meta-llama-3_3"@, 131_000usize),
        ("meta-llama-3_1"@, 131_000usize),
        ("deepseek-r1"@, 128_000usize),
    ]
}

fn model_entry(i: usize) -> (r: (&'static str, usize))
    requires
        i < MODEL_COUNT,
    ensures
        r.0@ == model_table()[i as int].0,
        r.1 == model_table()[i as int].1,
        r.1 > 0,
        r.0@.len() <= 17,
{
    proof {
        reveal_strlit("gpt-oss");
        reveal_strlit("mistral-small-3-2");
        reveal_strlit("mistral-7b");
        reveal_strlit("mistral-nemo");
        reveal_strlit("mixtral-8x7b");
        reveal_strlit("qwen3");
        reveal_strlit("qwen-2-5");
        reveal_strlit("llama-3-1");
        reveal_strlit("llama-3_3");
        reveal_strlit("meta-llama-3_3");
        reveal_strlit("meta-llama-3_1");
        reveal_strlit("deepseek-r1");
    }
    match i {
        0 => ("gpt-oss", 10_000),
        1 => ("mistral-small-3-2", 128_000),
        2 => ("mistral-7b", 32_000),
        3 => ("mistral-nemo", 32_000),
        4 => ("mixtral-8x7b", 32_000),
        5 => ("qwen3", 32_000),
        6 => ("qwen-2-5", 32_000),
        7 => ("llama-3-1", 131_000),
        8 => ("llama-3_3", 131_000),
        9 => ("meta-llama-3_3", 131_000),
        10 => ("meta-llama-3_1", 131_000),
        _ => ("deepseek-r1", 128_000),
    }
}

/// The matching window of the Jaro measure: half the longer length, less one.
pub open spec fn jw_window(a: Seq<char>, b: Seq<char>) -> int {
    let long = if a.len() >= b.len() {
        a.len() as int
    } else {
        b.len() as int
    };
    if long / 2 >= 1 {
        long / 2 - 1
    } else {
        0
    }
}

/// Where the search for a partner of position `i` starts.
pub open spec fn search_lo(i: int, w: int) -> int {
    if i > w {
        i - w
    } else {
        0
    }
}

/// Where the search for a partner of position `i` ends (exclusive).
pub open spec fn search_hi(i: int, w: int, n: int) -> int {
    if i + w + 1 < n {
        i + w + 1
    } else {
        n
    }
}

/// The first position in `j .. hi` of `b` that holds `c` and is not taken.
pub open spec fn free_match(c: char, b: Seq<char>, taken: Seq<bool>, j: int, hi: int) -> Option<int>
    decreases hi - j,
{
    if j < 0 || j >= hi || j >= b.len() || j >= taken.len() {
        None
    } else if !taken[j] && b[j] == c {
        Some(j)
    } else {
        free_match(c, b, taken, j + 1, hi)
    }
}

/// The partner in `b` of position `i` of `a`, given the positions of `b`
/// already taken.
pub open spec fn partner(a: Seq<char>, b: Seq<char>, taken: Seq<bool>, i: int) -> Option<int> {
    let w = jw_window(a, b);
    free_match(a[i], b, taken, search_lo(i, w), search_hi(i, w, b.len() as int))
}

/// The positions of `b` taken once the first `i` characters of `a` have
/// looked for partners, each the first free match in its window.
pub open spec fn taken_after(a: Seq<char>, b: Seq<char>, i: int) -> Seq<bool>
    decreases i,
{
    if i <= 0 {
        Seq::new(b.len(), |j: int| false)
    } else {
        let t = taken_after(a, b, i - 1);
        match partner(a, b, t, i - 1) {
            Some(j) => t.update(j, true),
            None => t,
        }
    }
}

/// The characters among the first `i` of `a` that found a partner, in order.
pub open spec fn a_matched(a: Seq<char>, b: Seq<char>, i: int) -> Seq<char>
    decreases i,
{
    if i <= 0 {
        Seq::empty()
    } else {
        let prev = a_matched(a, b, i - 1);
        if partner(a, b, taken_after(a, b, i - 1), i - 1) is Some {
            prev.push(a[i - 1])
        } else {
            prev
        }
    }
}

/// The taken characters among the first `j` of `b`, in order.
pub open spec fn b_matched(b: Seq<char>, taken: Seq<bool>, j: int) -> Seq<char>
    decreases j,
{
    if j <= 0 {
        Seq::empty()
    } else {
        let prev = b_matched(b, taken, j - 1);
        if taken[j - 1] {
            prev.push(b[j - 1])
        } else {
            prev
        }
    }
}

/// How many of the first `n` positions differ between `x` and `y`.
pub open spec fn mismatches(x: Seq<char>, y: Seq<char>, n: int) -> nat
    decreases n,
{
    if n <= 0 {
        0
    } else {
        mismatches(x, y, n - 1) + if x[n - 1] != y[n - 1] {
            1nat
        } else {
            0nat
        }
    }
}

/// The length of the common prefix of `a` and `b` from `k` on, up to four.
pub open spec fn common_prefix(a: Seq<char>, b: Seq<char>, k: int) -> int
    decreases 4 - k,
{
    if k >= 4 || k < 0 || k >= a.len() || k >= b.len() || a[k] != b[k] {
        k
    } else {
        common_prefix(a, b, k + 1)
    }
}

/// The Jaro-Winkler similarity of two names as a fraction (numerator,
/// denominator). With `m` matched characters (each within the window of its
/// partner) and `c` positions where the matched characters of the two names
/// differ in order, the Jaro score is `(m/|a| + m/|b| + (m - c/2)/m) / 3`;
/// a common prefix of length `l` (at most four) lifts it by `l/10` of the
/// remaining distance to one. Two empty names are fully similar; names with
/// no match score zero.
pub open spec fn jaro_winkler(a: Seq<char>, b: Seq<char>) -> (nat, nat) {
    let am = a_matched(a, b, a.len() as int);
    let bm = b_matched(b, taken_after(a, b, a.len() as int), b.len() as int);
    let m = bm.len();
    if a.len() == 0 && b.len() == 0 {
        (1, 1)
    } else if m == 0 || a.len() == 0 {
        (0, 1)
    } else {
        let n = if am.len() < m {
            am.len()
        } else {
            m
        };
        let c = mismatches(am, bm, n as int);
        let den = 6 * a.len() * b.len() * m;
        let num = 2 * m * m * b.len() + 2 * m * m * a.len() + ((2 * m - c) as nat) * a.len()
            * b.len();
        let l = common_prefix(a, b, 0);
        (((10 - l) as nat) * num + (l as nat) * den, 10 * den)
    }
}

/// The similarity between a queried name, ignoring case, and a table name
/// (the table's names are lowercase).
pub open spec fn score_of(name: Seq<char>, model: Seq<char>) -> (nat, nat) {
    jaro_winkler(lower_of(name), model)
}

/// A score of at least three fifths.
pub open spec fn acceptable(s: (nat, nat)) -> bool {
    5 * s.0 >= 3 * s.1
}

/// `s` is a strictly higher fraction than `t`.
pub open spec fn higher(s: (nat, nat), t: (nat, nat)) -> bool {
    s.0 * t.1 > t.0 * s.1
}

/// The best acceptable fuzzy match among the first `k` table entries, with
/// its score; an earlier entry wins a tie.
pub open spec fn best_fuzzy(name: Seq<char>, k: int) -> Option<((nat, nat), usize)>
    decreases k,
{
    if k <= 0 {
        None
    } else {
        let prev = best_fuzzy(name, k - 1);
        let s = score_of(name, model_table()[k - 1].0);
        if acceptable(s) && (prev matches Some(p) ==> higher(s, p.0)) {
            Some((s, model_table()[k - 1].1))
        } else {
            prev
        }
    }
}

/// The first table entry at or after `k` whose name is exactly `name`.
pub open spec fn exact_index(name: Seq<char>, k: int) -> Option<int>
    decreases MODEL_COUNT - k,
{
    if k < 0 || k >= MODEL_COUNT {
        None
    } else if model_table()[k].0 == name {
        Some(k)
    } else {
        exact_index(name, k + 1)
    }
}

/// The context length for `name`: an exact entry, else the best fuzzy match,
/// else the default.
pub open spec fn max_context_of(name: Seq<char>) -> usize {
    match exact_index(name, 0) {
        Some(i) => model_table()[i].1,
        None => match best_fuzzy(name, MODEL_COUNT as int) {
            Some((_, c)) => c,
            None => DEFAULT_CONTEXT,
        },
    }
}

fn str_equal(a: &str, b: &str) -> (r: bool)
    ensures
        r == (a@ == b@),
{
    let x = chars_of(a);
    let y = chars_of(b);
    if x.len() != y.len() {
        return false;
    }
    let mut i: usize = 0;
    while i < x.len()
        invariant
            x@ == a@,
            y@ == b@,
            x.len() == y.len(),
            i <= x.len(),
            forall|j: int| 0 <= j < i ==> x@[j] == y@[j],
        decreases x.len() - i,
    {
        if x[i] != y[i] {
            return false;
        }
        i += 1;
    }
    assert(x@ =~= y@);
    true
}

/// Whether the fraction `a / b` exceeds `c / d`, compared without overflow.
fn fraction_greater(a: u128, b: u128, c: u128, d: u128) -> (r: bool)
    requires
        b > 0,
        d > 0,
    ensures
        r == (a * d > c * b),
    decreases b + d,
{
    let qa = a / b;
    let ra = a % b;
    let qc = c / d;
    let rc = c % d;
    proof {
        vstd::arithmetic::div_mod::lemma_fundamental_div_mod(a as int, b as int);
        vstd::arithmetic::div_mod::lemma_fundamental_div_mod(c as int, d as int);
        lemma_fraction_parts(
            a as int,
            b as int,
            c as int,
            d as int,
            qa as int,
            ra as int,
            qc as int,
            rc as int,
        );
    }
    if qa != qc {
        qa > qc
    } else if ra == 0 {
        false
    } else if rc == 0 {
        true
    } else {
        fraction_greater(d, rc, b, ra)
    }
}

proof fn lemma_fraction_parts(a: int, b: int, c: int, d: int, qa: int, ra: int, qc: int, rc: int)
    requires
        b > 0,
        d > 0,
        a >= 0,
        c >= 0,
        a == b * qa + ra,
        0 <= ra < b,
        c == d * qc + rc,
        0 <= rc < d,
        qa >= 0,
        qc >= 0,
    ensures
        qa > qc ==> a * d > c * b,
        qa < qc ==> a * d < c * b,
        qa == qc ==> (a * d > c * b <==> d * ra > b * rc),
        qa == qc && ra == 0 ==> !(a * d > c * b),
        qa == qc && ra > 0 && rc == 0 ==> a * d > c * b,
{
    assert(a * d == qa * b * d + ra * d) by (nonlinear_arith)
        requires
            a == b * qa + ra,
    ;
    assert(c * b == qc * d * b + rc * b) by (nonlinear_arith)
        requires
            c == d * qc + rc,
    ;
    if qa > qc {
        assert(qa * b * d >= (qc + 1) * b * d) by (nonlinear_arith)
            requires
                qa >= qc + 1,
                b > 0,
                d > 0,
        ;
        assert(rc * b < d * b) by (nonlinear_arith)
            requires
                rc < d,
                b > 0,
        ;
        assert(ra * d >= 0) by (nonlinear_arith)
            requires
                ra >= 0,
                d > 0,
        ;
        assert((qc + 1) * b * d == qc * d * b + d * b) by (nonlinear_arith);
    }
    if qa < qc {
        assert(qc * b * d >= (qa + 1) * b * d) by (nonlinear_arith)
            requires
                qc >= qa + 1,
                b > 0,
                d > 0,
        ;
        assert(ra * d < b * d) by (nonlinear_arith)
            requires
                ra < b,
                d > 0,
        ;
        assert(rc * b >= 0) by (nonlinear_arith)
            requires
                rc >= 0,
                b > 0,
        ;
        assert((qa + 1) * b * d == qa * b * d + b * d) by (nonlinear_arith);
        assert(qc * d * b == qc * b * d) by (nonlinear_arith);
    }
    if qa == qc {
        assert(qa * b * d == qc * d * b) by (nonlinear_arith)
            requires
                qa == qc,
        ;
        assert(ra * d == d * ra && rc * b == b * rc) by (nonlinear_arith);
        assert(b * rc >= 0 && d * ra >= 0) by (nonlinear_arith)
            requires
                b > 0,
                d > 0,
                rc >= 0,
                ra >= 0,
        ;
        if ra > 0 {
            assert(d * ra > 0) by (nonlinear_arith)
                requires
                    d > 0,
                    ra > 0,
            ;
        }
    }
}

proof fn lemma_b_matched_len(b: Seq<char>, taken: Seq<bool>, j: int)
    requires
        0 <= j,
    ensures
        b_matched(b, taken, j).len() <= j,
    decreases j,
{
    if j > 0 {
        lemma_b_matched_len(b, taken, j - 1);
    }
}

proof fn lemma_mismatches_len(x: Seq<char>, y: Seq<char>, n: int)
    requires
        0 <= n,
    ensures
        mismatches(x, y, n) <= n,
    decreases n,
{
    if n > 0 {
        lemma_mismatches_len(x, y, n - 1);
    }
}

proof fn lemma_common_prefix(a: Seq<char>, b: Seq<char>, k: int)
    requires
        0 <= k <= 4,
    ensures
        k <= common_prefix(a, b, k) <= 4,
    decreases 4 - k,
{
    if !(k >= 4 || k >= a.len() || k >= b.len() || a[k] != b[k]) {
        lemma_common_prefix(a, b, k + 1);
    }
}

/// The partner of `c` in `b[lo .. hi]`: the first free position holding it.
fn find_partner(c: char, b: &Vec<char>, taken: &Vec<bool>, lo: usize, hi: usize) -> (r: Option<
    usize,
>)
    requires
        taken.len() == b.len(),
        hi <= b.len(),
    ensures
        r matches Some(j) ==> free_match(c, b@, taken@, lo as int, hi as int) == Some(j as int)
            && j < b.len(),
        r is None ==> free_match(c, b@, taken@, lo as int, hi as int) is None,
{
    let mut j: usize = lo;
    while j < hi
        invariant
            taken.len() == b.len(),
            hi <= b.len(),
            lo <= j,
            free_match(c, b@, taken@, lo as int, hi as int) == free_match(
                c,
                b@,
                taken@,
                j as int,
                hi as int,
            ),
        decreases hi - j,
    {
        if !taken[j] && b[j] == c {
            return Some(j);
        }
        j += 1;
    }
    None
}

/// The Jaro-Winkler similarity of two already-lowercased names, as a fraction.
/// The second name is a short one (a table name): its length bounds the
/// arithmetic.
pub fn jaro_winkler_score(a: &Vec<char>, b: &Vec<char>) -> (r: (u128, u128))
    requires
        b.len() <= 1024,
    ensures
        r.0 == jaro_winkler(a@, b@).0,
        r.1 == jaro_winkler(a@, b@).1,
        r.1 > 0,
        r.0 < 0x1000_0000_0000_0000_0000_0000,
        r.1 < 0x1000_0000_0000_0000_0000_0000,
{
    if a.len() == 0 && b.len() == 0 {
        return (1, 1);
    }
    let long = if a.len() >= b.len() {
        a.len()
    } else {
        b.len()
    };
    let w: usize = if long / 2 >= 1 {
        long / 2 - 1
    } else {
        0
    };
    let mut taken: Vec<bool> = Vec::new();
    let mut k: usize = 0;
    while k < b.len()
        invariant
            k <= b.len(),
            taken@ == Seq::new(k as nat, |j: int| false),
        decreases b.len() - k,
    {
        taken.push(false);
        k += 1;
        assert(taken@ =~= Seq::new(k as nat, |j: int| false));
    }
    assert(taken@ =~= taken_after(a@, b@, 0));
    let mut am: Vec<char> = Vec::new();
    let mut i: usize = 0;
    while i < a.len()
        invariant
            i <= a.len(),
            b.len() <= 1024,
            w == jw_window(a@, b@),
            taken.len() == b.len(),
            taken@ == taken_after(a@, b@, i as int),
            am@ == a_matched(a@, b@, i as int),
        decreases a.len() - i,
    {
        let lo: usize = if i > w {
            i - w
        } else {
            0
        };
        let hi: usize = if (i as u128) + (w as u128) + 1 < b.len() as u128 {
            i + w + 1
        } else {
            b.len()
        };
        match find_partner(a[i], b, &taken, lo, hi) {
            Some(j) => {
                taken[j] = true;
                am.push(a[i]);
            },
            None => {},
        }
        i += 1;
    }
    let mut bm: Vec<char> = Vec::new();
    let mut j: usize = 0;
    while j < b.len()
        invariant
            j <= b.len(),
            b.len() <= 1024,
            taken.len() == b.len(),
            bm@ == b_matched(b@, taken@, j as int),
        decreases b.len() - j,
    {
        if taken[j] {
            bm.push(b[j]);
        }
        j += 1;
    }
    let ghost tk = taken@;
    proof {
        lemma_b_matched_len(b@, tk, b.len() as int);
    }
    let m = bm.len();
    if m == 0 || a.len() == 0 {
        return (0, 1);
    }
    let n = if am.len() < m {
        am.len()
    } else {
        m
    };
    let mut c: usize = 0;
    let mut q: usize = 0;
    while q < n
        invariant
            q <= n,
            b.len() <= 1024,
            m <= b.len(),
            n <= am.len(),
            n <= bm.len(),
            c == mismatches(am@, bm@, q as int),
        decreases n - q,
    {
        proof {
            lemma_mismatches_len(am@, bm@, q as int);
        }
        if am[q] != bm[q] {
            c += 1;
        }
        q += 1;
    }
    proof {
        lemma_mismatches_len(am@, bm@, n as int);
    }
    let mut l: usize = 0;
    while l < 4 && l < a.len() && l < b.len() && a[l] == b[l]
        invariant
            l <= 4,
            b.len() <= 1024,
            m <= b.len(),
            common_prefix(a@, b@, 0) == common_prefix(a@, b@, l as int),
        decreases 4 - l,
    {
        l += 1;
    }
    proof {
        lemma_common_prefix(a@, b@, l as int);
    }
    let x = a.len() as u128;
    let y = b.len() as u128;
    let mm = m as u128;
    let cc = c as u128;
    let ll = l as u128;
    proof {
        assert(mm <= 1024);
        assert(mm * mm <= 1024 * 1024) by (nonlinear_arith)
            requires
                mm <= 1024,
        ;
        assert(x < 0x1_0000_0000_0000_0000);
        assert(x * y <= 0x1_0000_0000_0000_0000 * 1024) by (nonlinear_arith)
            requires
                x < 0x1_0000_0000_0000_0000,
                y <= 1024,
        ;
        assert(x * y * mm <= 0x1_0000_0000_0000_0000 * 1024 * 1024) by (nonlinear_arith)
            requires
                x * y <= 0x1_0000_0000_0000_0000 * 1024,
                mm <= 1024,
        ;
        assert(mm * mm * y <= 1024 * 1024 * 1024) by (nonlinear_arith)
            requires
                mm <= 1024,
                y <= 1024,
        ;
        assert(mm * mm * x <= 1024 * 1024 * 0x1_0000_0000_0000_0000) by (nonlinear_arith)
            requires
                mm <= 1024,
                x < 0x1_0000_0000_0000_0000,
        ;
        assert((2 * mm - cc) * x * y <= 2048 * (0x1_0000_0000_0000_0000 * 1024)) by (
        nonlinear_arith)
            requires
                2 * mm - cc <= 2048,
                x * y <= 0x1_0000_0000_0000_0000 * 1024,
                cc <= mm,
        ;
    }
    let den: u128 = 6 * (x * y * mm);
    proof {
        assert((2 * mm - cc) * (x * y) <= 2048 * (0x1_0000_0000_0000_0000 * 1024)) by (
        nonlinear_arith)
            requires
                2 * mm - cc <= 2048,
                x * y <= 0x1_0000_0000_0000_0000 * 1024,
        ;
        assert(2 * (mm * mm * y) == 2 * mm * mm * y) by (nonlinear_arith);
        assert(2 * (mm * mm * x) == 2 * mm * mm * x) by (nonlinear_arith);
        assert((2 * mm - cc) * (x * y) == (2 * mm - cc) * x * y) by (nonlinear_arith);
    }
    let num: u128 = 2 * (mm * mm * y) + 2 * (mm * mm * x) + (2 * mm - cc) * (x * y);
    proof {
        assert((10 - ll) * num <= 10 * num) by (nonlinear_arith)
            requires
                ll <= 4,
        ;
        assert(ll * den <= 4 * den) by (nonlinear_arith)
            requires
                ll <= 4,
        ;
        assert(6 * x * y * mm == 6 * (x * y * mm)) by (nonlinear_arith);
        assert(x * y * mm > 0) by (nonlinear_arith)
            requires
                x > 0,
                y > 0,
                mm > 0,
        ;
    }
    ((10 - ll) * num + ll * den, 10 * den)
}

/// The context length for `model_name`: the table's entry when the name is
/// listed exactly; otherwise the entry of the most similar table name whose
/// similarity (ignoring case) reaches three fifths, the first such on a tie;
/// otherwise the default length.
pub fn get_max_context(model_name: &str) -> (r: usize)
    ensures
        r == max_context_of(model_name@),
        r > 0,
        exact_index(model_name@, 0) matches Some(i) ==> r == model_table()[i].1,
{
    let mut i: usize = 0;
    while i < MODEL_COUNT
        invariant
            i <= MODEL_COUNT,
            exact_index(model_name@, 0) == exact_index(model_name@, i as int),
        decreases MODEL_COUNT - i,
    {
        let (name, context) = model_entry(i);
        if str_equal(name, model_name) {
            return context;
        }
        i += 1;
    }
    let lowered = lowercase(model_name);
    let query = chars_of(lowered.as_str());
    let mut best: Option<(u128, u128, usize)> = None;
    let mut k: usize = 0;
    while k < MODEL_COUNT
        invariant
            k <= MODEL_COUNT,
            exact_index(model_name@, 0) is None,
            query@ == lower_of(model_name@),
            best matches Some(b) ==> b.2 > 0,
            match best_fuzzy(model_name@, k as int) {
                None => best is None,
                Some((s, c)) => best matches Some(b) && b.0 == s.0 && b.1 == s.1 && b.2 == c
                    && b.1 > 0,
            },
        decreases MODEL_COUNT - k,
    {
        let (name, context) = model_entry(k);
        let table_name = chars_of(name);
        let (num, den) = jaro_winkler_score(&query, &table_name);
        if 5 * num >= 3 * den {
            let replace = match best {
                None => true,
                Some((bn, bd, _)) => fraction_greater(num, den, bn, bd),
            };
            if replace {
                best = Some((num, den, context));
            }
        }
        k += 1;
    }
    match best {
        Some((_, _, c)) => c,
        None => DEFAULT_CONTEXT,
    }
}

} // verus!
