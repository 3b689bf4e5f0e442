//! Address ranges in CIDR notation: parsing the `a.b.c.d/p` grammar and
//! expanding a range into the ordered sequence of addresses it covers.
//!
//! Addresses are plain `u32` values in network order; conversion to the
//! dotted display form is left to callers.

use vstd::prelude::*;
use vstd::arithmetic::power2::{pow2, lemma2_to64};
use vstd::bits::{lemma_u64_shl_is_mul, lemma_u64_shr_is_div};

verus! {

pub open spec fn is_digit(b: u8) -> bool {
    48 <= b <= 57
}

/// Length of the run of decimal digit bytes starting at position `i`.
pub open spec fn digit_run(s: Seq<u8>, i: int) -> int
    decreases s.len() - i,
{
    if 0 <= i < s.len() && is_digit(s[i]) {
        1 + digit_run(s, i + 1)
    } else {
        0
    }
}

/// Numeric value of the `l` digit bytes starting at position `i`.
pub open spec fn run_value(s: Seq<u8>, i: int, l: int) -> nat
    decreases l,
{
    if l <= 0 {
        0
    } else {
        run_value(s, i, l - 1) * 10 + (s[i + l - 1] - 48) as nat
    }
}

/// The `l` bytes at `i` form a valid dotted-quad octet: one to three
/// digits, no leading zero, value at most 255.
pub open spec fn valid_octet_at(s: Seq<u8>, i: int, l: int) -> bool {
    &&& 1 <= l <= 3
    &&& (l > 1 ==> s[i] != 48)
    &&& run_value(s, i, l) <= 255
}

/// Structure of a CIDR string: four octets separated by dots, a slash,
/// and a one- or two-digit prefix length of at most 32.  `None` when the
/// string is not of that shape.
pub open spec fn parse_cidr_spec(s: Seq<u8>) -> Option<(u32, u32)> {
    let l0 = digit_run(s, 0);
    let p1 = l0;
    let l1 = digit_run(s, p1 + 1);
    let p2 = p1 + 1 + l1;
    let l2 = digit_run(s, p2 + 1);
    let p3 = p2 + 1 + l2;
    let l3 = digit_run(s, p3 + 1);
    let p4 = p3 + 1 + l3;
    let lp = digit_run(s, p4 + 1);
    if valid_octet_at(s, 0, l0) && p1 < s.len() && s[p1] == 46
        && valid_octet_at(s, p1 + 1, l1) && p2 < s.len() && s[p2] == 46
        && valid_octet_at(s, p2 + 1, l2) && p3 < s.len() && s[p3] == 46
        && valid_octet_at(s, p3 + 1, l3) && p4 < s.len() && s[p4] == 47
        && 1 <= lp <= 2 && p4 + 1 + lp == s.len()
        && run_value(s, p4 + 1, lp) <= 32
    {
        Some((
            (run_value(s, 0, l0) * 0x1000000 + run_value(s, p1 + 1, l1) * 0x10000
                + run_value(s, p2 + 1, l2) * 0x100 + run_value(s, p3 + 1, l3)) as u32,
            run_value(s, p4 + 1, lp) as u32,
        ))
    } else {
        None
    }
}

/// A valid CIDR string denotes a range of this many addresses.
pub open spec fn block_size(prefix: nat) -> nat {
    pow2((32 - prefix) as nat)
}

/// The network address of the block of size `2^(32-prefix)` containing
/// `addr`: `addr` with its host bits cleared.
pub open spec fn network_of(addr: u32, prefix: nat) -> nat {
    (addr as nat / block_size(prefix)) * block_size(prefix)
}

/// A contiguous block of IPv4 addresses, as parsed from CIDR notation.
pub struct AddressRange {
    pub network: u32,
    pub prefix: u8,
}

impl AddressRange {
    /// The range covers a whole aligned block: the prefix is in range and
    /// the network address has no host bits set.
    pub open spec fn wf(self) -> bool {
        &&& self.prefix <= 32
        &&& self.network as nat == network_of(self.network, self.prefix as nat)
    }

    /// Number of addresses the range covers.
    pub open spec fn size_spec(self) -> nat {
        block_size(self.prefix as nat)
    }

    /// The `i`th address of the range, in ascending order.
    pub open spec fn addr_at(self, i: int) -> int {
        self.network + i
    }

    /// The ordered sequence of addresses the range covers.
    pub open spec fn expansion(self) -> Seq<u32> {
        Seq::new(self.size_spec(), |i: int| (self.network + i) as u32)
    }
}

proof fn lemma_block_size_bounds(prefix: nat)
    requires
        prefix <= 32,
    ensures
        1 <= block_size(prefix) <= 0x1_0000_0000,
        block_size(prefix) * pow2(prefix) == 0x1_0000_0000,
{
    lemma2_to64();
    vstd::arithmetic::power2::lemma_pow2_adds((32 - prefix) as nat, prefix);
}

proof fn lemma_network_aligned(addr: u32, prefix: nat)
    requires
        prefix <= 32,
    ensures
        network_of(addr, prefix) <= addr,
        network_of(addr, prefix) + block_size(prefix) <= 0x1_0000_0000,
        network_of(addr, prefix) / block_size(prefix) * block_size(prefix) == network_of(
            addr,
            prefix,
        ),
{
    lemma_block_size_bounds(prefix);
    let b = block_size(prefix) as int;
    let a = addr as int;
    vstd::arithmetic::div_mod::lemma_fundamental_div_mod(a, b);
    vstd::arithmetic::div_mod::lemma_mod_division_less_than_divisor(a, b);
    assert(network_of(addr, prefix) == a - a % b);
    // the block containing addr ends no later than the whole address space
    assert(a / b < pow2(prefix)) by {
        vstd::arithmetic::div_mod::lemma_multiply_divide_lt(a, b, pow2(prefix) as int);
    }
    let q = a / b;
    assert(q * b + b <= 0x1_0000_0000) by (nonlinear_arith)
        requires
            q + 1 <= pow2(prefix),
            b >= 1,
            b * pow2(prefix) == 0x1_0000_0000,
    ;
    assert((a / b) * b / b == a / b) by {
        vstd::arithmetic::div_mod::lemma_div_by_multiple(a / b, b);
    }
}

proof fn lemma_digit_run_exact(s: Seq<u8>, i: int, j: int)
    requires
        0 <= i <= j <= s.len(),
        forall|k: int| i <= k < j ==> is_digit(s[k]),
        j == s.len() || !is_digit(s[j]),
    ensures
        digit_run(s, i) == j - i,
    decreases j - i,
{
    if i < j {
        lemma_digit_run_exact(s, i + 1, j);
    }
}

/// Length of the digit run starting at `i`.
fn scan_digits(s: &[u8], i: usize) -> (l: usize)
    requires
        i <= s@.len(),
    ensures
        l == digit_run(s@, i as int),
        i + l <= s@.len(),
{
    let n = s.len();
    let mut j: usize = i;
    while j < n && 48 <= s[j] && s[j] <= 57
        invariant
            i <= j <= n,
            n == s@.len(),
            forall|k: int| i <= k < j ==> is_digit(s@[k]),
        decreases n - j,
    {
        j += 1;
    }
    proof {
        lemma_digit_run_exact(s@, i as int, j as int);
    }
    j - i
}

/// Numeric value of `l` digit bytes starting at `i`.
fn digits_value(s: &[u8], i: usize, l: usize) -> (v: u64)
    requires
        1 <= l <= 3,
        i + l <= s@.len(),
        digit_run(s@, i as int) >= l,
    ensures
        v == run_value(s@, i as int, l as int),
        v <= 999,
{
    proof {
        assert forall|k: int| i <= k < i + l implies is_digit(s@[k]) by {
            lemma_digit_run_ge(s@, i as int, k);
        }
        lemma_run_value_bound(s@, i as int, l as int);
    }
    let n = s.len();
    let mut v: u64 = 0;
    let mut k: usize = 0;
    while k < l
        invariant
            0 <= k <= l <= 3,
            n == s@.len(),
            i + l <= n,
            forall|t: int| i <= t < i + l ==> is_digit(s@[t]),
            v == run_value(s@, i as int, k as int),
            v <= 999,
        decreases l - k,
    {
        proof {
            lemma_run_value_bound(s@, i as int, (k + 1) as int);
            lemma_run_value_small(s@, i as int, k as int);
            assert(is_digit(s@[i + k]));
        }
        v = v * 10 + (s[i + k] - 48) as u64;
        k += 1;
    }
    v
}

proof fn lemma_digit_run_ge(s: Seq<u8>, i: int, k: int)
    requires
        0 <= i <= k,
        k < i + digit_run(s, i),
    ensures
        is_digit(s[k]),
    decreases k - i,
{
    if k > i {
        lemma_digit_run_ge(s, i + 1, k);
    }
}

proof fn lemma_run_value_bound(s: Seq<u8>, i: int, l: int)
    requires
        0 <= i,
        i + l <= s.len(),
        forall|t: int| i <= t < i + l ==> is_digit(s[t]),
        l <= 3,
    ensures
        run_value(s, i, l) <= 999,
    decreases l,
{
    if l > 0 {
        lemma_run_value_bound(s, i, l - 1);
        assert(run_value(s, i, l - 1) <= 99) by {
            lemma_run_value_small(s, i, l - 1);
        }
    }
}

proof fn lemma_run_value_small(s: Seq<u8>, i: int, l: int)
    requires
        0 <= i,
        i + l <= s.len(),
        forall|t: int| i <= t < i + l ==> is_digit(s[t]),
        l <= 2,
    ensures
        run_value(s, i, l) <= 99,
    decreases l,
{
    if l > 0 {
        lemma_run_value_small(s, i, l - 1);
        assert(run_value(s, i, l - 1) <= 9) by {
            if l - 1 > 0 {
                assert(run_value(s, i, l - 1) == run_value(s, i, l - 2) * 10 + (s[i + l - 2]
                    - 48) as nat);
            }
        }
    }
}

/// Checks the octet starting at `i` whose digit run has length `l`.
fn octet_ok(s: &[u8], i: usize, l: usize) -> (r: bool)
    requires
        i + l <= s@.len(),
        l == digit_run(s@, i as int) || l <= digit_run(s@, i as int),
    ensures
        r == valid_octet_at(s@, i as int, l as int),
{
    if l < 1 || l > 3 {
        return false;
    }
    proof {
        assert(is_digit(s@[i as int])) by {
            lemma_digit_run_ge(s@, i as int, i as int);
        }
    }
    if l > 1 && s[i] == 48 {
        return false;
    }
    let v = digits_value(s, i, l);
    v <= 255
}

/// Parses CIDR notation.  Returns the covered block (host bits of the
/// given address cleared) exactly when the input is a valid CIDR string.
pub fn parse_cidr(s: &[u8]) -> (r: Option<AddressRange>)
    ensures
        r is Some <==> parse_cidr_spec(s@) is Some,
        r is Some ==> r.unwrap().wf(),
        r is Some ==> {
            let (addr, prefix) = parse_cidr_spec(s@).unwrap();
            r.unwrap().prefix == prefix && r.unwrap().network as nat == network_of(
                addr,
                prefix as nat,
            )
        },
{
    let n = s.len();
    let l0 = scan_digits(s, 0);
    if !octet_ok(s, 0, l0) || l0 >= n || s[l0] != 46 {
        return None;
    }
    let p1 = l0;
    let l1 = scan_digits(s, p1 + 1);
    if !octet_ok(s, p1 + 1, l1) || p1 + 1 + l1 >= n || s[p1 + 1 + l1] != 46 {
        return None;
    }
    let p2 = p1 + 1 + l1;
    let l2 = scan_digits(s, p2 + 1);
    if !octet_ok(s, p2 + 1, l2) || p2 + 1 + l2 >= n || s[p2 + 1 + l2] != 46 {
        return None;
    }
    let p3 = p2 + 1 + l2;
    let l3 = scan_digits(s, p3 + 1);
    if !octet_ok(s, p3 + 1, l3) || p3 + 1 + l3 >= n || s[p3 + 1 + l3] != 47 {
        return None;
    }
    let p4 = p3 + 1 + l3;
    let lp = scan_digits(s, p4 + 1);
    if lp < 1 || lp > 2 || p4 + 1 + lp != n {
        return None;
    }
    let prefix64 = digits_value(s, p4 + 1, lp);
    if prefix64 > 32 {
        return None;
    }
    let o0 = digits_value(s, 0, l0);
    let o1 = digits_value(s, p1 + 1, l1);
    let o2 = digits_value(s, p2 + 1, l2);
    let o3 = digits_value(s, p3 + 1, l3);
    let addr64: u64 = o0 * 0x1000000 + o1 * 0x10000 + o2 * 0x100 + o3;
    assert(addr64 < 0x1_0000_0000);
    let addr: u32 = addr64 as u32;
    let prefix: u8 = prefix64 as u8;
    let network = network_base(addr, prefix);
    proof {
        let spec_r = parse_cidr_spec(s@);
        assert(spec_r is Some);
        assert(spec_r.unwrap().0 == addr);
        assert(spec_r.unwrap().1 == prefix);
    }
    Some(AddressRange { network, prefix })
}

/// The network address of the block containing `addr`: host bits cleared.
fn network_base(addr: u32, prefix: u8) -> (r: u32)
    requires
        prefix <= 32,
    ensures
        r as nat == network_of(addr, prefix as nat),
        (AddressRange { network: r, prefix }).wf(),
{
    let shift: u64 = 32 - (prefix as u64);
    let q: u64 = (addr as u64) >> shift;
    proof {
        lemma_u64_shr_is_div(addr as u64, shift);
        lemma_block_size_bounds(prefix as nat);
        let b = block_size(prefix as nat) as int;
        assert(b == pow2(shift as nat));
        vstd::arithmetic::div_mod::lemma_remainder_lower(addr as int, b);
        assert(q == addr as int / b);
        assert(q * pow2(shift as nat) <= addr as int);
        lemma_u64_shl_is_mul(q, shift);
    }
    let r64: u64 = q << shift;
    proof {
        assert(r64 as nat == network_of(addr, prefix as nat));
        lemma_network_aligned(addr, prefix as nat);
        lemma_network_aligned(r64 as u32, prefix as nat);
        let b = block_size(prefix as nat) as int;
        assert(r64 as int / b * b == r64 as int) by {
            vstd::arithmetic::div_mod::lemma_div_by_multiple(addr as int / b, b);
        }
    }
    r64 as u32
}

impl AddressRange {
    /// Number of addresses the range covers.
    pub fn size(&self) -> (r: u64)
        requires
            self.wf(),
        ensures
            r == self.size_spec(),
    {
        let shift: u64 = 32 - (self.prefix as u64);
        proof {
            lemma_block_size_bounds(self.prefix as nat);
            lemma_u64_shl_is_mul(1u64, shift);
        }
        1u64 << shift
    }

    /// The addresses the range covers, in ascending numeric order.
    pub fn expand(&self) -> (v: Vec<u32>)
        requires
            self.wf(),
        ensures
            v@.len() == self.size_spec(),
            forall|i: int| 0 <= i < v@.len() ==> v@[i] == self.addr_at(i),
            v@ == self.expansion(),
    {
        let count = self.size();
        proof {
            lemma_network_aligned(self.network, self.prefix as nat);
        }
        let mut v: Vec<u32> = Vec::new();
        let mut k: u64 = 0;
        while k < count
            invariant
                0 <= k <= count,
                count == self.size_spec(),
                self.network + count <= 0x1_0000_0000,
                v@.len() == k,
                forall|i: int| 0 <= i < k ==> v@[i] == self.network + i,
            decreases count - k,
        {
            v.push(((self.network as u64) + k) as u32);
            k += 1;
        }
        proof {
            assert(v@ =~= self.expansion());
        }
        v
    }
}

/// Expanding any `/24` range yields exactly 256 addresses.
pub proof fn lemma_slash24_covers_256(r: AddressRange)
    requires
        r.wf(),
        r.prefix == 24,
    ensures
        r.size_spec() == 256,
{
    lemma2_to64();
}

/// Expanding any `/32` range yields exactly one address.
pub proof fn lemma_slash32_covers_one(r: AddressRange)
    requires
        r.wf(),
        r.prefix == 32,
    ensures
        r.size_spec() == 1,
{
    lemma2_to64();
}

} // verus!
