//! The host addresses a subnet scan probes.
//!
//! A CIDR block `base/prefix` covers the `2^(32 - prefix)` addresses that
//! share its first `prefix` bits with `base`.  The hosts are those between
//! the network and the broadcast address.  Scans are limited to a /16, so a
//! larger block yields no hosts at all.  Addresses are IPv4 addresses as
//! big-endian `u32`; the text form is read by the caller.

use vstd::prelude::*;

verus! {

/// Most addresses a scanned block may span.
pub const MAX_SCAN_BLOCK: u64 = 65_536;

pub open spec fn two_pow(e: nat) -> nat
    decreases e,
{
    if e == 0 {
        1
    } else {
        2 * two_pow((e - 1) as nat)
    }
}

proof fn lemma_two_pow_monotone(a: nat, b: nat)
    requires
        a <= b,
    ensures
        two_pow(a) <= two_pow(b),
    decreases b,
{
    if b > a {
        lemma_two_pow_monotone(a, (b - 1) as nat);
    }
}

proof fn lemma_two_pow_bounds(e: nat)
    requires
        e <= 32,
    ensures
        1 <= two_pow(e) <= 0x1_0000_0000,
        e >= 17 ==> two_pow(e) > MAX_SCAN_BLOCK,
        e <= 16 ==> two_pow(e) <= MAX_SCAN_BLOCK,
{
    reveal_with_fuel(two_pow, 33);
    assert(two_pow(16) == 65536);
    assert(two_pow(17) == 131072);
    assert(two_pow(32) == 0x1_0000_0000);
    lemma_two_pow_monotone(0, e);
    lemma_two_pow_monotone(e, 32);
    if e >= 17 {
        lemma_two_pow_monotone(17, e);
    } else {
        lemma_two_pow_monotone(e, 16);
    }
}

/// Number of addresses in a block with `prefix` fixed bits.
pub open spec fn block_size(prefix: u8) -> nat {
    two_pow((32 - prefix) as nat)
}

/// The network address of the block of `base`: `base` with its host bits
/// cleared.
pub open spec fn network_of(base: u32, prefix: u8) -> int {
    (base as int / block_size(prefix) as int) * block_size(prefix)
}

/// The hosts of block `base/prefix`: every address after the network
/// address and before the broadcast address, in increasing order; `None`
/// for a prefix longer than 32 bits or a block larger than a /16.
pub open spec fn cidr_hosts_spec(base: u32, prefix: u8) -> Option<Seq<u32>> {
    if prefix > 32 || block_size(prefix) > MAX_SCAN_BLOCK {
        None
    } else {
        let n = if block_size(prefix) >= 2 { block_size(prefix) - 2 } else { 0 };
        Some(Seq::new(n as nat, |i: int| (network_of(base, prefix) + 1 + i) as u32))
    }
}

/// Expands the block `base/prefix` into its host addresses.
pub fn cidr_hosts(base: u32, prefix: u8) -> (r: Option<Vec<u32>>)
    ensures
        match r {
            Some(v) => cidr_hosts_spec(base, prefix) == Some(v@),
            None => cidr_hosts_spec(base, prefix) is None,
        },
{
    if prefix > 32 {
        return None;
    }
    let bits: u8 = 32 - prefix;
    let mut size: u64 = 1;
    let mut k: u8 = 0;
    while k < bits
        invariant
            0 <= k <= bits <= 32,
            size == two_pow(k as nat),
        decreases bits - k,
    {
        proof {
            lemma_two_pow_bounds(k as nat);
            lemma_two_pow_bounds((k + 1) as nat);
        }
        size = size * 2;
        k = k + 1;
    }
    proof {
        lemma_two_pow_bounds(bits as nat);
    }
    if size > MAX_SCAN_BLOCK {
        return None;
    }
    proof {
        let b = base as int;
        let s = size as int;
        vstd::arithmetic::div_mod::lemma_fundamental_div_mod(b, s);
        vstd::arithmetic::div_mod::lemma_mod_pos_bound(b, s);
        vstd::arithmetic::mul::lemma_mul_is_commutative(s, b / s);
        assert((b / s) * s <= b);
    }
    let network: u64 = (base as u64 / size) * size;
    proof {
        assert(network as int == network_of(base, prefix));
    }
    let count: u64 = if size >= 2 { size - 2 } else { 0 };
    let mut hosts: Vec<u32> = Vec::new();
    let mut i: u64 = 0;
    while i < count
        invariant
            0 <= i <= count,
            count == (if size >= 2 { size - 2 } else { 0int }),
            network as int == network_of(base, prefix),
            network <= base,
            size <= MAX_SCAN_BLOCK,
            hosts@.len() == i,
            forall|j: int| 0 <= j < i ==> hosts@[j] == (network_of(base, prefix) + 1 + j) as u32,
        decreases count - i,
    {
        hosts.push((network + 1 + i) as u32);
        i = i + 1;
    }
    proof {
        let n = if block_size(prefix) >= 2 { block_size(prefix) - 2 } else { 0 };
        assert(hosts@ =~= Seq::new(n as nat, |j: int| (network_of(base, prefix) + 1 + j) as u32));
    }
    Some(hosts)
}

} // verus!
