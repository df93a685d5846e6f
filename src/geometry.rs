//! Round and per-core arithmetic: how a byte stream of `len` bytes is cut into
//! rounds of one buffer half each, and how a round is split across cores.

use vstd::prelude::*;
use crate::keystream::KEYSTREAM_LIMIT;

verus! {

/// Core ids are five bits wide: a cluster has at most this many cores.
pub const MAX_CORES: usize = 32;

/// `n` is a power of two.
pub open spec fn is_pow2(n: nat) -> bool
    decreases n,
{
    n == 1 || (n >= 2 && n % 2 == 0 && is_pow2(n / 2))
}

/// A core count this library accepts: a power of two no larger than
/// `MAX_CORES`.
pub open spec fn valid_cores(cores: nat) -> bool {
    is_pow2(cores) && cores <= MAX_CORES
}

/// Number of rounds for `len` bytes, `work` bytes per round; the last one may
/// be shorter.
pub open spec fn round_count_spec(len: int, work: int) -> int {
    if len % work == 0 { len / work } else { len / work + 1 }
}

/// Bytes handled in round `r`.
pub open spec fn round_len_spec(len: int, work: int, r: int) -> int {
    if (r + 1) * work <= len { work } else { len - r * work }
}

/// Bytes of a round of `n` bytes that each core is given (the last cores
/// may get fewer, or none).
pub open spec fn core_share_spec(n: int, cores: int) -> int {
    if n % cores == 0 { n / cores } else { n / cores + 1 }
}

/// Start of core `c`'s range within a round of `n` bytes: `c` shares in,
/// but never past the end. In a full round (`n` a multiple of the core
/// count) this is `c * (n / cores)`; in a shorter last round the share is
/// that round's length divided across the cores, rounded up, so the ranges
/// still meet end to start and the last cores may get nothing.
pub open spec fn core_lo_spec(n: int, cores: int, c: int) -> int {
    let e = c * core_share_spec(n, cores);
    if e <= n { e } else { n }
}

/// End (exclusive) of core `c`'s range within a round of `n` bytes.
pub open spec fn core_hi_spec(n: int, cores: int, c: int) -> int {
    core_lo_spec(n, cores, c + 1)
}

/// Keystream position at which core `c` starts in round `r`.
pub open spec fn seek_position_spec(len: int, work: int, cores: int, r: int, c: int) -> int {
    r * work + core_lo_spec(round_len_spec(len, work, r), cores, c)
}

/// Byte `j` of a round of `n` bytes lies in the range of some core.
pub open spec fn owned(n: int, cores: int, j: int) -> bool {
    exists|c: int| 0 <= c < cores && core_lo_spec(n, cores, c) <= j < #[trigger] core_hi_spec(n, cores, c)
}

/// Sum of the range lengths of cores `0..k` in a round of `n` bytes.
pub open spec fn shares_total(n: int, cores: int, k: int) -> int
    decreases k,
{
    if k <= 0 {
        0
    } else {
        shares_total(n, cores, k - 1) + (core_hi_spec(n, cores, k - 1) - core_lo_spec(n, cores, k - 1))
    }
}

/// Whether `n` is a power of two.
pub fn is_power_of_two(n: usize) -> (r: bool)
    ensures
        r == is_pow2(n as nat),
{
    let mut m: usize = n;
    while m >= 2 && m % 2 == 0
        invariant
            is_pow2(m as nat) == is_pow2(n as nat),
        decreases m,
    {
        m = m / 2;
    }
    assert(m >= 3 ==> !is_pow2(m as nat));
    assert(m == 0 ==> !is_pow2(m as nat));
    m == 1
}

/// Number of rounds that cover whole buffer halves.
pub fn full_rounds(len: usize, work: usize) -> (r: usize)
    requires
        work > 0,
    ensures
        r == len / work,
{
    len / work
}

/// Number of rounds, the last one possibly shorter.
pub fn round_count(len: usize, work: usize) -> (r: usize)
    requires
        work > 0,
    ensures
        r == round_count_spec(len as int, work as int),
{
    if len % work == 0 {
        len / work
    } else {
        proof {
            lemma_div_below(len as int, work as int);
        }
        len / work + 1
    }
}

proof fn lemma_div_below(a: int, b: int)
    requires
        a >= 0,
        b > 0,
        a % b != 0,
    ensures
        a / b < a,
{
    assert(b * (a / b) + a % b == a) by (nonlinear_arith)
        requires b > 0;
    assert(b >= 2);
    assert(a / b >= 0) by (nonlinear_arith)
        requires b > 0, a >= 0;
    assert(b * (a / b) >= 2 * (a / b)) by (nonlinear_arith)
        requires b >= 2, a / b >= 0;
}

/// Every round starts within the stream, holds between one byte and a full
/// half, and ends within the stream.
pub proof fn lemma_round_bounds(len: int, work: int, r: int)
    requires
        len >= 0,
        work > 0,
        0 <= r < round_count_spec(len, work),
    ensures
        r * work < len,
        0 < round_len_spec(len, work, r) <= work,
        r * work + round_len_spec(len, work, r) <= len,
{
    assert(r * work <= (len / work) * work) by (nonlinear_arith)
        requires r <= len / work, work > 0;
    assert((len / work) * work + len % work == len) by (nonlinear_arith)
        requires work > 0;
    if r == len / work {
        assert(len % work != 0);
        assert(0 <= len % work < work) by (nonlinear_arith)
            requires work > 0;
        assert((r + 1) * work == r * work + work) by (nonlinear_arith);
        assert(r * work == (len / work) * work);
    } else {
        assert(r + 1 <= len / work);
        assert((r + 1) * work <= (len / work) * work) by (nonlinear_arith)
            requires r + 1 <= len / work, work > 0;
        assert(r * work + work == (r + 1) * work) by (nonlinear_arith);
    }
}

/// Bytes handled in round `r`: a full buffer half but for a shorter last round.
pub fn round_len(len: usize, work: usize, r: usize) -> (n: usize)
    requires
        work > 0,
        r < round_count_spec(len as int, work as int),
    ensures
        n == round_len_spec(len as int, work as int, r as int),
        0 < n <= work,
        r * work + n <= len,
{
    proof {
        lemma_round_bounds(len as int, work as int, r as int);
    }
    let start = r * work;
    if len - start >= work {
        assert((r + 1) * work == r * work + work) by (nonlinear_arith);
        work
    } else {
        assert((r + 1) * work == r * work + work) by (nonlinear_arith);
        len - start
    }
}

proof fn lemma_share(n: int, cores: int)
    requires
        n >= 0,
        cores > 0,
    ensures
        core_share_spec(n, cores) >= 0,
        cores * core_share_spec(n, cores) >= n,
        n > 0 ==> core_share_spec(n, cores) > 0,
        cores * core_share_spec(n, cores) < n + cores,
        n % cores == 0 ==> cores * core_share_spec(n, cores) == n,
{
    assert(cores * (n / cores) + n % cores == n) by (nonlinear_arith)
        requires cores > 0;
    assert(0 <= n % cores < cores) by (nonlinear_arith)
        requires cores > 0;
    assert(n / cores >= 0) by (nonlinear_arith)
        requires cores > 0, n >= 0;
    assert(cores * (n / cores + 1) == cores * (n / cores) + cores) by (nonlinear_arith);
}

/// Per-core share of a round of `n` bytes: `n` divided by the core count,
/// rounded up.
pub fn core_share(n: usize, cores: usize) -> (s: usize)
    requires
        cores > 0,
    ensures
        s == core_share_spec(n as int, cores as int),
{
    if n % cores == 0 {
        n / cores
    } else {
        proof {
            lemma_div_below(n as int, cores as int);
        }
        n / cores + 1
    }
}

/// The byte range `(lo, hi)` that core `c` owns within a round of `n` bytes.
pub fn core_range(n: usize, cores: usize, c: usize) -> (r: (usize, usize))
    requires
        0 < cores <= MAX_CORES,
        c < cores,
        n <= KEYSTREAM_LIMIT,
    ensures
        r.0 == core_lo_spec(n as int, cores as int, c as int),
        r.1 == core_hi_spec(n as int, cores as int, c as int),
        r.0 <= r.1 <= n,
        n as int % cores as int == 0 ==> r.0 == c * (n / cores) && r.1 == r.0 + n / cores,
{
    let s = core_share(n, cores);
    proof {
        lemma_share(n as int, cores as int);
        lemma_core_ranges(n as int, cores as int);
        assert(c * s <= cores * s) by (nonlinear_arith)
            requires c < cores, s >= 0;
        assert((c + 1) * s <= cores * s) by (nonlinear_arith)
            requires c + 1 <= cores, s >= 0;
        assert((c + 1) * s == c * s + s) by (nonlinear_arith);
    }
    let e0 = c * s;
    let lo = if e0 <= n { e0 } else { n };
    let e1 = e0 + s;
    let hi = if e1 <= n { e1 } else { n };
    (lo, hi)
}

/// Keystream position at which core `c` starts in round `r`: the bytes of the
/// earlier rounds plus the start of the core's range in this round.
pub fn seek_position(len: usize, work: usize, cores: usize, r: usize, c: usize) -> (p: usize)
    requires
        work > 0,
        0 < cores <= MAX_CORES,
        c < cores,
        len <= KEYSTREAM_LIMIT,
        r < round_count_spec(len as int, work as int),
    ensures
        p == seek_position_spec(len as int, work as int, cores as int, r as int, c as int),
        p <= len,
        round_len_spec(len as int, work as int, r as int) == work && work as int % cores as int == 0
            ==> p == r * work + c * (work / cores),
{
    let n = round_len(len, work, r);
    let (lo, _hi) = core_range(n, cores, c);
    r * work + lo
}

/// The ranges of the cores lie in order and meet end to start: the first
/// starts at 0 and the last ends at `n`.
pub proof fn lemma_core_ranges(n: int, cores: int)
    requires
        n >= 0,
        cores > 0,
    ensures
        core_lo_spec(n, cores, 0) == 0,
        core_lo_spec(n, cores, cores) == n,
        forall|c: int| 0 <= c <= cores ==> 0 <= #[trigger] core_lo_spec(n, cores, c) <= n,
        forall|c1: int, c2: int|
            0 <= c1 <= c2 ==> core_lo_spec(n, cores, c1) <= core_lo_spec(n, cores, c2),
{
    lemma_share(n, cores);
    let s = core_share_spec(n, cores);
    assert forall|c1: int, c2: int|
        0 <= c1 <= c2 implies core_lo_spec(n, cores, c1) <= core_lo_spec(n, cores, c2) by {
        assert(c1 * s <= c2 * s) by (nonlinear_arith)
            requires c1 <= c2, s >= 0;
    }
    assert forall|c: int| 0 <= c <= cores implies 0 <= #[trigger] core_lo_spec(n, cores, c) <= n by {
        assert(c * s >= 0) by (nonlinear_arith)
            requires c >= 0, s >= 0;
    }
}

/// Disjoint partition: within a round of `n` bytes, the ranges of two
/// different cores never overlap, and every byte belongs to some core's
/// range.
pub proof fn lemma_core_ranges_partition(n: int, cores: int)
    requires
        n >= 0,
        cores > 0,
    ensures
        forall|c1: int, c2: int|
            0 <= c1 < cores && 0 <= c2 < cores && c1 != c2 ==> core_hi_spec(n, cores, c1) <= core_lo_spec(n, cores, c2)
                || core_hi_spec(n, cores, c2) <= core_lo_spec(n, cores, c1),
        forall|j: int| 0 <= j < n ==> #[trigger] owned(n, cores, j),
        forall|c: int|
            0 <= c < cores ==> 0 <= core_lo_spec(n, cores, c) <= #[trigger] core_hi_spec(n, cores, c) <= n,
{
    lemma_core_ranges(n, cores);
    lemma_share(n, cores);
    let s = core_share_spec(n, cores);
    assert forall|c1: int, c2: int|
        0 <= c1 < cores && 0 <= c2 < cores && c1 != c2 implies core_hi_spec(n, cores, c1) <= core_lo_spec(n, cores, c2)
            || core_hi_spec(n, cores, c2) <= core_lo_spec(n, cores, c1) by {
        if c1 < c2 {
            assert(core_lo_spec(n, cores, c1 + 1) <= core_lo_spec(n, cores, c2));
        } else {
            assert(core_lo_spec(n, cores, c2 + 1) <= core_lo_spec(n, cores, c1));
        }
    }
    assert forall|j: int| 0 <= j < n implies #[trigger] owned(n, cores, j) by {
        let c = j / s;
        assert(c * s <= j < (c + 1) * s) by (nonlinear_arith)
            requires s > 0, c == j / s, j >= 0;
        assert(c >= 0) by (nonlinear_arith)
            requires s > 0, c == j / s, j >= 0;
        if c >= cores {
            assert(cores * s <= c * s) by (nonlinear_arith)
                requires cores <= c, s > 0;
        }
        assert(core_lo_spec(n, cores, c) <= j < core_hi_spec(n, cores, c));
    }
    assert forall|c: int| 0 <= c < cores implies 0 <= core_lo_spec(n, cores, c) <= #[trigger] core_hi_spec(n, cores, c) <= n by {
        assert(core_lo_spec(n, cores, c) <= core_lo_spec(n, cores, c + 1));
        assert(0 <= core_lo_spec(n, cores, c + 1) <= n);
    }
}

/// The range lengths of cores `0..k` add up to the start of core `k`'s range.
pub proof fn lemma_shares_total(n: int, cores: int, k: int)
    requires
        n >= 0,
        cores > 0,
        0 <= k <= cores,
    ensures
        shares_total(n, cores, k) == core_lo_spec(n, cores, k),
    decreases k,
{
    lemma_core_ranges(n, cores);
    if k > 0 {
        lemma_shares_total(n, cores, k - 1);
    }
}

/// Exact multiple: when `len` is a multiple of the round length, every round
/// is a full one and there is no shorter final round.
pub proof fn lemma_exact_multiple_no_partial_round(len: int, work: int)
    requires
        len >= 0,
        work > 0,
        len % work == 0,
    ensures
        round_count_spec(len, work) == len / work,
        forall|r: int| 0 <= r < round_count_spec(len, work) ==> #[trigger] round_len_spec(len, work, r) == work,
{
    assert forall|r: int| 0 <= r < round_count_spec(len, work) implies #[trigger] round_len_spec(len, work, r) == work by {
        assert((r + 1) * work <= len) by (nonlinear_arith)
            requires r + 1 <= len / work, work > 0, len % work == 0, len >= 0;
    }
}

/// One byte over a multiple: with `k` full rounds plus one byte, there is
/// exactly one more round, of one byte, and the cores' shares of it add up to
/// one byte in all (one core gets it, not each).
pub proof fn lemma_one_byte_over(k: int, work: int, cores: int)
    requires
        k >= 0,
        work > 1,
        cores > 0,
    ensures
        round_count_spec(k * work + 1, work) == k + 1,
        round_len_spec(k * work + 1, work, k) == 1,
        shares_total(round_len_spec(k * work + 1, work, k), cores, cores) == 1,
{
    let len = k * work + 1;
    assert(len / work == k && len % work == 1) by (nonlinear_arith)
        requires len == k * work + 1, work > 1, k >= 0;
    assert((k + 1) * work > len) by (nonlinear_arith)
        requires len == k * work + 1, work > 1;
    lemma_shares_total(1, cores, cores);
    lemma_core_ranges(1, cores);
}

} // verus!
