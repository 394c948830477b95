//! The demo child's decisions: its role, whether vector arithmetic can be used, and the sum that
//! its floating-point work has to give.

use vstd::prelude::*;

use crate::wire;

verus! {

/// What a child is started to do.
#[derive(Debug, Clone, Copy, PartialEq, Eq, Structural)]
pub enum Role {
    /// Send a memory object.
    Send,
    /// Receive it.
    Receive,
    /// Exit at once.
    Exit,
    /// Do floating-point work with this seed.
    Float(u64),
}

/// The role in a child's argument.
pub open spec fn role(arg: u64) -> Role {
    if arg % 256 == 2 {
        Role::Exit
    } else if arg % 256 == 3 {
        Role::Float((arg / 256) as u64)
    } else if arg % 256 == 0 {
        Role::Send
    } else {
        Role::Receive
    }
}

/// The role in a child's argument: its low byte, and the seed above it.
pub fn role_of(arg: u64) -> (r: Role)
    ensures
        r == role(arg),
        r == (if arg % 256 == 2 {
            Role::Exit
        } else if arg % 256 == 3 {
            Role::Float((arg / 256) as u64)
        } else if arg % 256 == 0 {
            Role::Send
        } else {
            Role::Receive
        }),
{
    let role: u64 = arg % 256;
    if role == 2 {
        Role::Exit
    } else if role == 3 {
        Role::Float(arg / 256)
    } else if role == 0 {
        Role::Send
    } else {
        Role::Receive
    }
}

/// The word that the sender leaves in the memory object.
pub const MARKER: u64 = 0x00C0_FFEE;

/// Whether a receive ended as it should: one handle was signalled, the receive succeeded, and one
/// handle came with it.
pub fn received(waited: i64, status: i64, count: usize) -> (r: bool)
    ensures
        r == (waited == 1 && status == 0 && count == 1),
{
    waited == 1 && status == 0 && count == 1
}

/// How a lookup in the inherited namespace went.
#[derive(Debug, Clone, Copy, PartialEq, Eq, Structural)]
pub enum Lookup {
    /// The lookup could not be started.
    Failed,
    /// It gave the object.
    Resolved,
    /// It gave none.
    Missed,
}

/// How a lookup went, by the status that the wait reported.
pub open spec fn looked_up(started: i64, waited: i64, status: nat) -> Lookup {
    if started < 0 {
        Lookup::Failed
    } else if waited == 1 && status == 0 {
        Lookup::Resolved
    } else {
        Lookup::Missed
    }
}

/// How a lookup went: what starting it returned, what waiting for it returned, and what the wait
/// reported, in which the status follows the handle.
pub fn lookup(started: i64, waited: i64, results: &[u8]) -> (r: Lookup)
    requires
        results.len() >= 12,
    ensures
        r == looked_up(started, waited, wire::le(results@.subrange(8, 12))),
        r == (if started < 0 {
            Lookup::Failed
        } else if waited == 1 && wire::le(results@.subrange(8, 12)) == 0 {
            Lookup::Resolved
        } else {
            Lookup::Missed
        }),
{
    let status: u32 = match wire::u32_at(results, 8) {
        Some(s) => s,
        None => 0,
    };
    if started < 0 {
        Lookup::Failed
    } else if waited == 1 && status == 0 {
        Lookup::Resolved
    } else {
        Lookup::Missed
    }
}

/// What binding in a namespace returns that may only be looked up in.
pub const DENIED: i64 = -2;

/// Whether a bind was denied, as it must be.
pub fn bind_denied(result: i64) -> (r: bool)
    ensures
        r == (result == DENIED),
{
    result == DENIED
}

/// The exit status for a sum that ordinary arithmetic got wrong.
pub const EXIT_SCALAR_MISMATCH: i64 = 20;

/// The exit status for numbers that did not come back.
pub const EXIT_ROUNDTRIP: i64 = 21;

/// The exit status for a sum that vector arithmetic got wrong.
pub const EXIT_SIMD_MISMATCH: i64 = 22;

/// The exit status for state that the system did not enable.
pub const EXIT_XCR0: i64 = 23;

/// How often the numbers are changed and brought back.
pub const ROUNDS: u32 = 12;

/// With what status the work fails after a round.
pub open spec fn fault_of(kept: bool, scalar: bool, simd: Option<bool>) -> Option<i64> {
    if !kept {
        Some(EXIT_ROUNDTRIP)
    } else if !scalar {
        Some(EXIT_SCALAR_MISMATCH)
    } else if simd == Some(false) {
        Some(EXIT_SIMD_MISMATCH)
    } else {
        None
    }
}

/// With what status the work fails after a round: whether the numbers came back, whether ordinary
/// arithmetic gave the sum, and whether vector arithmetic did, where it is used.
pub fn round_fault(kept: bool, scalar: bool, simd: Option<bool>) -> (r: Option<i64>)
    ensures
        r == fault_of(kept, scalar, simd),
        r == (if !kept {
            Some(EXIT_ROUNDTRIP)
        } else if !scalar {
            Some(EXIT_SCALAR_MISMATCH)
        } else if simd == Some(false) {
            Some(EXIT_SIMD_MISMATCH)
        } else {
            None
        }),
{
    if !kept {
        Some(EXIT_ROUNDTRIP)
    } else if !scalar {
        Some(EXIT_SCALAR_MISMATCH)
    } else {
        match simd {
            Some(false) => Some(EXIT_SIMD_MISMATCH),
            _ => None,
        }
    }
}

/// When a nap ends, and when it is given up.
pub open spec fn ends(now: int, ms: int) -> (int, int) {
    (now + ms * 1_000_000, now + ms * 1_000_000 + 1_000_000_000)
}

/// When a nap of so many milliseconds ends, and when it is given up: a second later.
pub fn nap(now: u64, ms: u64) -> (r: (u64, u64))
    requires
        now + ms * 1_000_000 + 1_000_000_000 <= u64::MAX,
    ensures
        (r.0 as int, r.1 as int) == ends(now as int, ms as int),
        r.0 == now + ms * 1_000_000,
        r.1 == r.0 + 1_000_000_000,
{
    let fire_at: u64 = now + ms * 1_000_000;
    (fire_at, fire_at + 1_000_000_000)
}

/// Bit 27 of the feature word: the system has enabled extended state.
pub open spec fn os_saves_state(ecx1: u32) -> bool {
    ecx1 & 0x0800_0000 != 0
}

/// Bit 5 of the extended feature word: the processor has the vector unit.
pub open spec fn has_unit(ebx7: u32) -> bool {
    ebx7 & 0x20 != 0
}

/// Bits 1 and 2 of the enabled state: both halves of the registers are saved.
pub open spec fn saves_registers(xcr0: u64) -> bool {
    xcr0 & 0b110 == 0b110
}

/// Whether the enabled state can be read at all.
pub fn state_is_readable(ecx1: u32) -> (r: bool)
    ensures
        r == os_saves_state(ecx1),
{
    ecx1 & 0x0800_0000 != 0
}

/// Whether vector arithmetic can be used, by the three features.
pub open spec fn vector(enabled: bool, unit: bool, saved: bool) -> Result<bool, i64> {
    if !enabled {
        Ok(false)
    } else if unit && !saved {
        Err(EXIT_XCR0)
    } else {
        Ok(unit && saved)
    }
}

/// Whether vector arithmetic can be used: the processor has it and the system saves its registers.
/// A processor that has it under a system that enabled extended state without it is an error.
pub fn avx2_usable(ecx1: u32, ebx7: u32, xcr0: u64) -> (r: Result<bool, i64>)
    ensures
        r == vector(os_saves_state(ecx1), has_unit(ebx7), saves_registers(xcr0)),
        r == (if !os_saves_state(ecx1) {
            Ok::<bool, i64>(false)
        } else if has_unit(ebx7) && !saves_registers(xcr0) {
            Err(EXIT_XCR0)
        } else {
            Ok(has_unit(ebx7) && saves_registers(xcr0))
        }),
{
    if ecx1 & 0x0800_0000 == 0 {
        return Ok(false);
    }
    let unit = ebx7 & 0x20 != 0;
    let saved = xcr0 & 0b110 == 0b110;
    if unit && !saved {
        return Err(EXIT_XCR0);
    }
    Ok(unit && saved)
}

/// How many numbers the floating-point work squares.
pub const LANES: usize = 8;

/// The first number for a seed.
pub open spec fn first(seed: u64) -> int {
    (seed % 8) * 1024 + 1
}

/// The sum of the squares of the first `n` numbers from `base` on.
pub open spec fn squares(base: int, n: nat) -> int
    decreases n,
{
    if n == 0 {
        0
    } else {
        squares(base, (n - 1) as nat) + (base + n - 1) * (base + n - 1)
    }
}

/// The numbers that the work squares.
pub fn lanes(seed: u64) -> (r: Vec<u64>)
    ensures
        r@ == Seq::new(LANES as nat, |k: int| (first(seed) + k) as u64),
{
    let base: u64 = (seed % 8) * 1024 + 1;
    let mut out: Vec<u64> = Vec::new();
    let mut k: u64 = 0;
    while k < 8
        invariant
            k <= 8,
            base == first(seed),
            base <= 7169,
            out@ == Seq::new(k as nat, |i: int| (first(seed) + i) as u64),
        decreases 8 - k,
    {
        out.push(base + k);
        k = k + 1;
        assert(out@ =~= Seq::new(k as nat, |i: int| (first(seed) + i) as u64));
    }
    out
}

/// The sum that the work has to give.
pub fn expected_sum(seed: u64) -> (r: u64)
    ensures
        r == squares(first(seed), LANES as nat),
{
    let base: u64 = (seed % 8) * 1024 + 1;
    let mut sum: u64 = 0;
    let mut k: u64 = 0;
    while k < 8
        invariant
            k <= 8,
            base == first(seed),
            base <= 7169,
            sum == squares(base as int, k as nat),
            sum <= k * 0x1000_0000,
        decreases 8 - k,
    {
        let n: u64 = base + k;
        assert(0 <= n * n <= 7177 * 7177) by (nonlinear_arith)
            requires
                n <= 7177,
        ;
        sum = sum + n * n;
        k = k + 1;
    }
    sum
}

/// The sum is small enough that a double holds it exactly, and so is each number doubled and
/// incremented: the work can compare for equality.
pub proof fn law_the_sum_is_exact_in_a_double(seed: u64)
    ensures
        0 <= squares(first(seed), LANES as nat) < 0x20_0000_0000_0000,
        forall|k: int| 0 <= k < LANES ==> 2 * #[trigger] (first(seed) + k) + 1 < 0x20_0000_0000_0000,
{
    let b = first(seed);
    reveal_with_fuel(squares, 9);
    assert forall|n: int| 1 <= n <= 7177 implies 0 <= #[trigger] (n * n) <= 7177 * 7177 by {
        assert(0 <= n * n <= 7177 * 7177) by (nonlinear_arith)
            requires
                1 <= n <= 7177,
        ;
    }
    assert(0 <= b * b <= 7177 * 7177);
    assert(0 <= (b + 1) * (b + 1) <= 7177 * 7177);
    assert(0 <= (b + 2) * (b + 2) <= 7177 * 7177);
    assert(0 <= (b + 3) * (b + 3) <= 7177 * 7177);
    assert(0 <= (b + 4) * (b + 4) <= 7177 * 7177);
    assert(0 <= (b + 5) * (b + 5) <= 7177 * 7177);
    assert(0 <= (b + 6) * (b + 6) <= 7177 * 7177);
    assert(0 <= (b + 7) * (b + 7) <= 7177 * 7177);
}

/// The three words are read by their bits: the twenty-eighth of the first, the sixth of the second, and
/// both the second and the third of the last.
pub proof fn law_features_are_read_by_their_bits(ecx1: u32, ebx7: u32, xcr0: u64)
    ensures
        os_saves_state(ecx1) <==> (ecx1 / 0x800_0000) % 2 == 1,
        has_unit(ebx7) <==> (ebx7 / 32) % 2 == 1,
        saves_registers(xcr0) <==> (xcr0 / 2) % 2 == 1 && (xcr0 / 4) % 2 == 1,
{
    assert((ecx1 & 0x0800_0000 != 0) <==> (ecx1 / 0x800_0000) % 2 == 1) by (bit_vector);
    assert((ebx7 & 0x20 != 0) <==> (ebx7 / 32) % 2 == 1) by (bit_vector);
    assert((xcr0 & 0b110 == 0b110) <==> (xcr0 / 2) % 2 == 1 && (xcr0 / 4) % 2 == 1) by (bit_vector);
}

/// The squares of numbers that follow one another add up part by part, from the seed's own first
/// number.
pub proof fn law_squares_add_up_part_by_part(base: int, m: nat, n: nat)
    ensures
        squares(base, m + n) == squares(base, m) + squares(base + m, n),
        squares(base, 1) == base * base,
        squares(base, 0) == 0,
    decreases n,
{
    reveal_with_fuel(squares, 2);
    assert((base + 1 - 1) * (base + 1 - 1) == base * base);
    if n > 0 {
        law_squares_add_up_part_by_part(base, m, (n - 1) as nat);
        assert(m + n - 1 == (m + (n - 1) as nat));
        assert(base + (m + n) - 1 == base + m + n - 1);
    }
}

/// Seeds that differ modulo eight begin with different numbers, far enough apart that the numbers of
/// one are none of the other's.
pub proof fn law_seeds_begin_apart(a: u64, b: u64)
    requires
        a % 8 < b % 8,
    ensures
        first(a) + 8 <= first(b),
        first(a) >= 1,
        first(0) == 1,
{
}

/// The low byte of the argument is the role, and what stands above it the seed of the work; a byte that
/// names no other role receives.
pub proof fn law_the_low_byte_is_the_role(seed: u64, b: u8)
    requires
        seed < 0x100_0000_0000_0000,
    ensures
        ({
            let r = role((seed * 256 + b) as u64);
            &&& b == 0 <==> r is Send
            &&& b == 2 <==> r is Exit
            &&& b == 3 <==> r == Role::Float(seed)
            &&& b != 0 && b != 2 && b != 3 <==> r is Receive
        }),
{
    let arg = (seed * 256 + b) as u64;
    assert(arg == seed * 256 + b);
    assert(arg % 256 == b);
    assert(arg / 256 == seed);
}

/// A lookup gives the object exactly where it was started, one handle was signalled, and its status is
/// no error; one that could not be started failed, whatever else is reported.
pub proof fn law_a_lookup_resolves_without_error(started: i64, waited: i64, status: nat)
    ensures
        looked_up(started, waited, status) is Resolved <==> started >= 0 && waited == 1 && status == 0,
        looked_up(started, waited, status) is Failed <==> started < 0,
{
}

/// A round passes exactly where the numbers came back and every sum is right; a sum that was not made
/// is none that is wrong, and the three failures have statuses of their own.
pub proof fn law_a_round_passes_where_every_sum_is_right(kept: bool, scalar: bool, simd: Option<bool>)
    ensures
        fault_of(kept, scalar, simd) is None <==> kept && scalar && simd != Some(false),
        fault_of(false, scalar, simd) == Some(21i64),
        fault_of(true, false, simd) == Some(20i64),
        fault_of(true, true, Some(false)) == Some(22i64),
{
}

/// Vector arithmetic is used exactly where all three are there; it is an error exactly where the
/// processor has the unit and the system enabled extended state without its registers.
pub proof fn law_vectors_need_all_three(enabled: bool, unit: bool, saved: bool)
    ensures
        vector(enabled, unit, saved) == Ok::<bool, i64>(true) <==> enabled && unit && saved,
        vector(enabled, unit, saved) is Err <==> enabled && unit && !saved,
        vector(enabled, unit, saved) matches Err(e) ==> e == 23,
{
}

/// A nap lasts as many milliseconds as asked, counted in nanoseconds, and is given up a second later.
pub proof fn law_a_nap_lasts_as_asked(now: int, ms: int)
    ensures
        ends(now, ms).0 - now == 1_000_000 * ms,
        ends(now, ms).1 - ends(now, ms).0 == 1_000_000_000,
        ends(now, 0).0 == now,
{
}

} // verus!
