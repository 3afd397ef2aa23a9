//! Target resolution: textual host specifiers turned into a sorted,
//! deduplicated list of IP addresses with the excluded addresses removed.
//!
//! This module resolves what the address text itself denotes: a literal
//! address or a CIDR block. Specifiers that need DNS or a host file are
//! resolved by the caller, which hands the outcome back through the same
//! sorting and exclusion path.
use crate::input::Opts;
use cidr_utils::cidr::IpCidr;
use std::str::FromStr;
use vstd::arithmetic::power2::{lemma_pow2_adds, lemma_pow2_pos, pow2};
use vstd::bits::{lemma_u64_pow2_no_overflow, lemma_u64_shl_is_mul};
use vstd::prelude::*;

verus! {

/// An IP address as the scanner holds it: the version and the numeric
/// value of its address bits.
#[derive(Debug, Clone, Copy, PartialEq, Eq, Hash, Structural)]
pub enum Ip {
    V4(u32),
    V6(u128),
}

impl Ip {
    /// One numeric key giving the total order on addresses: every IPv4
    /// address before every IPv6 address, each kind ascending — the order
    /// the standard library gives `IpAddr`.
    pub open spec fn key(self) -> int {
        match self {
            Ip::V4(a) => a as int,
            Ip::V6(a) => 0x1_0000_0000 + a,
        }
    }

    /// Whether this address comes before another in the total order.
    pub fn lt(&self, other: &Ip) -> (r: bool)
        ensures
            r == (self.key() < other.key()),
    {
        match (self, other) {
            (Ip::V4(a), Ip::V4(b)) => a < b,
            (Ip::V4(_), Ip::V6(_)) => true,
            (Ip::V6(_), Ip::V4(_)) => false,
            (Ip::V6(a), Ip::V6(b)) => a < b,
        }
    }
}

/// Equal keys only come from equal addresses.
pub proof fn lemma_key_injective(a: Ip, b: Ip)
    requires
        a.key() == b.key(),
    ensures
        a == b,
{
}

/// Build an IPv4 address from its four dotted octets.
pub fn ipv4(a: u8, b: u8, c: u8, d: u8) -> (r: Ip)
    ensures
        r is V4,
        r->V4_0 == a * 0x1000000 + b * 0x10000 + c * 0x100 + d,
{
    Ip::V4((a as u32) * 0x1000000 + (b as u32) * 0x10000 + (c as u32) * 0x100 + (d as u32))
}

/// What a host specifier denotes to the CIDR parser: whether the block is
/// IPv6, the numeric value of its first address, and the prefix length —
/// or nothing, when the text is not an address or block.
pub uninterp spec fn cidr_of(s: Seq<char>) -> Option<(bool, u128, u8)>;

/// The shape every parsed block has: the prefix length stays within the
/// address width, the host bits of the first address are zero, and an IPv4
/// value stays within 32 bits.
pub open spec fn cidr_shape(c: (bool, u128, u8)) -> bool {
    if c.0 {
        c.2 <= 128 && c.1 as nat % pow2((128 - c.2) as nat) == 0
    } else {
        c.2 <= 32 && c.1 < 0x1_0000_0000 && c.1 as nat % pow2((32 - c.2) as nat) == 0
    }
}

/// Relies on cidr_utils (its re-exported cidr crate): `IpCidr::from_str`
/// parses an IP address with an optional prefix length; a parsed block has
/// its prefix length within the address width and the host bits of its
/// first address zero; `u32::from` and `u128::from` give an address's
/// numeric value.
#[verifier::external_body]
fn parse_cidr_str(s: &str) -> (r: Option<(bool, u128, u8)>)
    ensures
        r == cidr_of(s@),
        r matches Some(c) ==> cidr_shape(c),
{
    match IpCidr::from_str(s) {
        Ok(IpCidr::V4(c)) => Some((false, u32::from(c.first_address()) as u128, c.network_length())),
        Ok(IpCidr::V6(c)) => Some((true, u128::from(c.first_address()), c.network_length())),
        Err(_) => None,
    }
}

/// How many of a block's address bits are free.
pub open spec fn host_bits(c: (bool, u128, u8)) -> nat {
    if c.0 {
        (128 - c.2) as nat
    } else {
        (32 - c.2) as nat
    }
}

/// Which blocks the resolver expands: those with at most 32 host bits
/// whose address count also fits the machine. Wider blocks are refused.
pub open spec fn expandable(c: (bool, u128, u8)) -> bool {
    host_bits(c) <= 32 && pow2(host_bits(c)) <= usize::MAX
}

/// The addresses of a block, ascending from its first address.
pub open spec fn block_ips(c: (bool, u128, u8)) -> Seq<Ip> {
    Seq::new(
        pow2(host_bits(c)),
        |i: int|
            if c.0 {
                Ip::V6((c.1 + i) as u128)
            } else {
                Ip::V4((c.1 + i) as u32)
            },
    )
}

/// The addresses a single specifier denotes here: the expansion of its
/// CIDR reading, or nothing when only DNS or a host file could resolve it.
pub open spec fn spec_parse_address(s: Seq<char>) -> Seq<Ip> {
    match cidr_of(s) {
        Some(c) => if cidr_shape(c) && expandable(c) {
            block_ips(c)
        } else {
            Seq::empty()
        },
        None => Seq::empty(),
    }
}

/// A block whose first address has its `hb` low bits zero ends within the
/// address space.
proof fn lemma_block_fits(base: nat, hb: nat, bits: nat)
    requires
        hb <= bits,
        base < pow2(bits),
        base % pow2(hb) == 0,
    ensures
        base + pow2(hb) <= pow2(bits),
{
    let m = pow2(hb) as int;
    let big = pow2(bits) as int;
    let k = pow2((bits - hb) as nat) as int;
    lemma_pow2_pos(hb);
    lemma_pow2_pos((bits - hb) as nat);
    lemma_pow2_adds(hb, (bits - hb) as nat);
    assert(big == m * k);
    vstd::arithmetic::div_mod::lemma_fundamental_div_mod(base as int, m);
    let q = base as int / m;
    assert(base as int == m * q);
    assert(base as int + m <= big) by (nonlinear_arith)
        requires
            base as int == m * q,
            big == m * k,
            m > 0,
            k > 0,
            (base as int) < big,
    ;
}

/// Given a string, parse it as an IP address or a CIDR block and list the
/// addresses it covers, in ascending order; anything else — a host name to
/// resolve over DNS, a file of hosts, or plain noise — yields nothing.
pub fn parse_address(address: &str) -> (r: Vec<Ip>)
    ensures
        r@ == spec_parse_address(address@),
{
    match parse_cidr_str(address) {
        None => Vec::new(),
        Some((v6, base, prefix)) => {
            let ghost c = (v6, base, prefix);
            let hb: u8 = if v6 {
                128 - prefix
            } else {
                32 - prefix
            };
            assert(hb == host_bits(c));
            if hb > 32 {
                assert(!expandable(c)) by {
                    lemma_u64_pow2_no_overflow(32);
                    vstd::arithmetic::power2::lemma_pow2_strictly_increases(32, hb as nat);
                }
                return Vec::new();
            }
            let count: u64 = 1u64 << (hb as u64);
            proof {
                lemma_u64_pow2_no_overflow(hb as nat);
                lemma_u64_shl_is_mul(1u64, hb as u64);
            }
            assert(count == pow2(hb as nat));
            if count > usize::MAX as u64 {
                return Vec::new();
            }
            proof {
                vstd::arithmetic::power2::lemma2_to64();
                if v6 {
                    assert(pow2(128) == 0x1_0000_0000_0000_0000_0000_0000_0000_0000int) by {
                        lemma_pow2_adds(64, 64);
                        vstd::arithmetic::power2::lemma2_to64();
                    }
                    lemma_block_fits(base as nat, hb as nat, 128);
                } else {
                    lemma_block_fits(base as nat, hb as nat, 32);
                }
            }
            let mut out: Vec<Ip> = Vec::new();
            let mut i: u64 = 0;
            while i < count
                invariant
                    0 <= i <= count,
                    count == pow2(host_bits(c)),
                    v6 == c.0,
                    base == c.1,
                    v6 ==> base + count <= 0x1_0000_0000_0000_0000_0000_0000_0000_0000int,
                    !v6 ==> base + count <= 0x1_0000_0000,
                    out@.len() == i,
                    forall|k: int| 0 <= k < i ==> #[trigger] out@[k] == block_ips(c)[k],
                decreases count - i,
            {
                if v6 {
                    out.push(Ip::V6(base + i as u128));
                } else {
                    out.push(Ip::V4((base as u32) + (i as u32)));
                }
                i = i + 1;
            }
            proof {
                assert(out@ =~= block_ips(c));
            }
            out
        },
    }
}

/// Ascending by the address order, allowing repeats.
pub open spec fn sorted_ips(s: Seq<Ip>) -> bool {
    forall|i: int, j: int| 0 <= i < j < s.len() ==> s[i].key() <= s[j].key()
}

/// Strictly ascending: sorted, with every address at most once.
pub open spec fn strictly_sorted_ips(s: Seq<Ip>) -> bool {
    forall|i: int, j: int| 0 <= i < j < s.len() ==> s[i].key() < s[j].key()
}

/// Inserting an element leaves exactly the old elements and the new one.
proof fn lemma_insert_contains(s: Seq<Ip>, p: int, x: Ip)
    requires
        0 <= p <= s.len(),
    ensures
        forall|y: Ip| #[trigger] s.insert(p, x).contains(y) <==> (s.contains(y) || y == x),
{
    let t = s.insert(p, x);
    assert forall|y: Ip| #[trigger] t.contains(y) implies (s.contains(y) || y == x) by {
        let i = choose|i: int| 0 <= i < t.len() && t[i] == y;
        if i < p {
            assert(s[i] == y);
        } else if i > p {
            assert(s[i - 1] == y);
        }
    }
    assert forall|y: Ip| (s.contains(y) || y == x) implies #[trigger] t.contains(y) by {
        if y == x {
            assert(t[p] == y);
        } else {
            let i = choose|i: int| 0 <= i < s.len() && s[i] == y;
            if i < p {
                assert(t[i] == y);
            } else {
                assert(t[i + 1] == y);
            }
        }
    }
}

/// Sort addresses ascending, keeping exactly the same set of addresses.
fn sort_ips(input: &Vec<Ip>) -> (r: Vec<Ip>)
    ensures
        sorted_ips(r@),
        forall|ip: Ip| #[trigger] r@.contains(ip) <==> input@.contains(ip),
{
    let mut out: Vec<Ip> = Vec::new();
    let mut i: usize = 0;
    while i < input.len()
        invariant
            0 <= i <= input@.len(),
            sorted_ips(out@),
            forall|ip: Ip| #[trigger] out@.contains(ip) <==> input@.subrange(
                0,
                i as int,
            ).contains(ip),
        decreases input@.len() - i,
    {
        let x = input[i];
        // find the first position whose element is not below x
        let mut p: usize = 0;
        while p < out.len() && out[p].lt(&x)
            invariant
                0 <= p <= out@.len(),
                forall|k: int| 0 <= k < p ==> #[trigger] out@[k].key() < x.key(),
            decreases out@.len() - p,
        {
            p = p + 1;
        }
        let ghost before = out@;
        out.insert(p, x);
        proof {
            assert(out@ == before.insert(p as int, x));
            lemma_insert_contains(before, p as int, x);
            assert(sorted_ips(out@)) by {
                assert forall|a: int, b: int|
                    0 <= a < b < out@.len() implies out@[a].key() <= out@[b].key() by {
                    if b < p {
                        assert(out@[a] == before[a] && out@[b] == before[b]);
                    } else if a > p {
                        assert(out@[a] == before[a - 1] && out@[b] == before[b - 1]);
                    } else if a < p && b == p {
                        assert(out@[a] == before[a]);
                    } else if a < p && b > p {
                        assert(out@[a] == before[a] && out@[b] == before[b - 1]);
                        if b - 1 == p {
                        }
                    } else if a == p && b > p {
                        // everything from p on was not below x
                        assert(out@[b] == before[b - 1]);
                        assert(!(before[b - 1].key() < x.key()));
                    }
                }
            }
            assert(input@.subrange(0, i as int).push(x) =~= input@.subrange(0, i + 1));
            assert forall|ip: Ip| #[trigger] out@.contains(ip) <==> input@.subrange(
                0,
                i + 1,
            ).contains(ip) by {
                assert(input@.subrange(0, i + 1) == input@.subrange(0, i as int).push(x));
                if ip == x {
                    assert(input@.subrange(0, i + 1).last() == x);
                }
            }
        }
        i = i + 1;
    }
    proof {
        assert(input@.subrange(0, input@.len() as int) =~= input@);
    }
    out
}

/// Whether a list of addresses holds one.
fn contains_ip(v: &Vec<Ip>, ip: &Ip) -> (r: bool)
    ensures
        r == v@.contains(*ip),
{
    let mut i: usize = 0;
    while i < v.len()
        invariant
            0 <= i <= v@.len(),
            forall|k: int| 0 <= k < i ==> v@[k] != *ip,
        decreases v@.len() - i,
    {
        if v[i] == *ip {
            return true;
        }
        i = i + 1;
    }
    false
}

/// Whether the last element of a list is this address.
fn is_last_equal(v: &Vec<Ip>, x: &Ip) -> (r: bool)
    ensures
        r == (v@.len() > 0 && v@.last() == *x),
{
    if v.len() > 0 {
        let last = v[v.len() - 1];
        last == *x
    } else {
        false
    }
}

/// From a sorted list, keep each address once, skipping the excluded ones.
fn dedup_and_exclude(sorted: &Vec<Ip>, excluded: &Vec<Ip>) -> (r: Vec<Ip>)
    requires
        sorted_ips(sorted@),
    ensures
        strictly_sorted_ips(r@),
        forall|ip: Ip| #[trigger] r@.contains(ip) <==> (sorted@.contains(ip)
            && !excluded@.contains(ip)),
{
    let mut out: Vec<Ip> = Vec::new();
    let mut i: usize = 0;
    while i < sorted.len()
        invariant
            0 <= i <= sorted@.len(),
            sorted_ips(sorted@),
            strictly_sorted_ips(out@),
            forall|ip: Ip| #[trigger] out@.contains(ip) <==> (sorted@.subrange(
                0,
                i as int,
            ).contains(ip) && !excluded@.contains(ip)),
            out@.len() > 0 ==> i > 0 && out@.last().key() <= sorted@[i - 1].key(),
        decreases sorted@.len() - i,
    {
        let x = sorted[i];
        let dup = is_last_equal(&out, &x);
        let excl = contains_ip(excluded, &x);
        let ghost before = out@;
        if !dup && !excl {
            out.push(x);
            proof {
                assert(strictly_sorted_ips(out@)) by {
                    if before.len() > 0 {
                        // the new element is strictly above everything kept so far
                        assert(before.last().key() <= sorted@[i - 1].key());
                        assert(sorted@[i - 1].key() <= x.key());
                        if before.last().key() == x.key() {
                            lemma_key_injective(before.last(), x);
                        }
                        assert(before.last().key() < x.key());
                    }
                    assert forall|a: int, b: int|
                        0 <= a < b < out@.len() implies out@[a].key() < out@[b].key() by {
                        if b < out@.len() - 1 {
                            assert(out@[a] == before[a] && out@[b] == before[b]);
                        } else {
                            assert(out@[b] == x);
                            assert(out@[a] == before[a]);
                            assert(before[a].key() <= before.last().key()) by {
                                if a < before.len() - 1 {
                                    assert(before[a].key() < before[before.len() - 1].key());
                                }
                            }
                        }
                    }
                }
            }
        }
        proof {
            assert(sorted@.subrange(0, i as int).push(x) =~= sorted@.subrange(0, i + 1));
            assert forall|ip: Ip| #[trigger] out@.contains(ip) implies (sorted@.subrange(
                0,
                i + 1,
            ).contains(ip) && !excluded@.contains(ip)) by {
                if before.contains(ip) {
                    assert(sorted@.subrange(0, i as int).contains(ip));
                    let k = choose|k: int|
                        0 <= k < i && #[trigger] sorted@.subrange(0, i as int)[k] == ip;
                    assert(sorted@.subrange(0, i + 1)[k] == ip);
                } else {
                    assert(ip == x);
                    assert(sorted@.subrange(0, i + 1).last() == x);
                }
            }
            assert forall|ip: Ip|
                (sorted@.subrange(0, i + 1).contains(ip) && !excluded@.contains(ip))
                    implies #[trigger] out@.contains(ip) by {
                if sorted@.subrange(0, i as int).contains(ip) {
                    assert(before.contains(ip));
                    let k = choose|k: int| 0 <= k < before.len() && before[k] == ip;
                    assert(out@[k] == ip);
                } else {
                    // only the current element is new
                    let k = choose|k: int|
                        0 <= k < i + 1 && #[trigger] sorted@.subrange(0, i + 1)[k] == ip;
                    assert(k == i);
                    assert(ip == x);
                    if dup {
                        assert(before[before.len() - 1] == x);
                        assert(before.contains(x));
                    } else {
                        assert(out@.last() == x);
                    }
                }
            }
            assert(out@.len() > 0 ==> out@.last().key() <= sorted@[i as int].key()) by {
                if out@.len() > 0 {
                    if out@ == before {
                        if before.len() > 0 {
                            assert(before.last().key() <= sorted@[i - 1].key());
                        }
                    }
                }
            }
        }
        i = i + 1;
    }
    proof {
        assert(sorted@.subrange(0, sorted@.len() as int) =~= sorted@);
    }
    out
}

/// Whether any specifier of the list denotes this address.
pub open spec fn resolved_ip(addresses: Seq<String>, ip: Ip) -> bool {
    exists|i: int| 0 <= i < addresses.len() && #[trigger] spec_parse_address(
        addresses[i]@,
    ).contains(ip)
}

/// Whether the exclusion list names this address.
pub open spec fn excluded_ip(exclude: Option<Vec<String>>, ip: Ip) -> bool {
    match exclude {
        Some(l) => resolved_ip(l@, ip),
        None => false,
    }
}

/// Resolve every specifier of a list and gather the addresses.
fn parse_address_list(addresses: &Vec<String>) -> (r: Vec<Ip>)
    ensures
        forall|ip: Ip| #[trigger] r@.contains(ip) <==> resolved_ip(addresses@, ip),
{
    let mut out: Vec<Ip> = Vec::new();
    let mut i: usize = 0;
    while i < addresses.len()
        invariant
            0 <= i <= addresses@.len(),
            forall|ip: Ip| #[trigger] out@.contains(ip) <==> resolved_ip(
                addresses@.subrange(0, i as int),
                ip,
            ),
        decreases addresses@.len() - i,
    {
        let ghost before = out@;
        let mut chunk = parse_address(&addresses[i]);
        let ghost chunk_view = chunk@;
        out.append(&mut chunk);
        proof {
            let prefix = addresses@.subrange(0, i as int);
            let prefix1 = addresses@.subrange(0, i + 1);
            assert forall|ip: Ip| #[trigger] out@.contains(ip) <==> resolved_ip(
                prefix1,
                ip,
            ) by {
                assert(out@ == before + chunk_view);
                if out@.contains(ip) {
                    let k = choose|k: int| 0 <= k < out@.len() && out@[k] == ip;
                    if k < before.len() {
                        assert(before.contains(ip));
                        let j = choose|j: int|
                            0 <= j < prefix.len() && #[trigger] spec_parse_address(
                                prefix[j]@,
                            ).contains(ip);
                        assert(spec_parse_address(prefix1[j]@).contains(ip));
                    } else {
                        assert(chunk_view[k - before.len()] == ip);
                        assert(spec_parse_address(addresses@[i as int]@).contains(ip));
                        assert(spec_parse_address(prefix1[i as int]@).contains(ip));
                    }
                }
                if resolved_ip(prefix1, ip) {
                    let j = choose|j: int|
                        0 <= j < prefix1.len() && #[trigger] spec_parse_address(
                            prefix1[j]@,
                        ).contains(ip);
                    if j < i {
                        assert(spec_parse_address(prefix[j]@).contains(ip));
                        assert(before.contains(ip));
                        let k = choose|k: int| 0 <= k < before.len() && before[k] == ip;
                        assert(out@[k] == ip);
                    } else {
                        assert(chunk_view.contains(ip));
                        let k = choose|k: int|
                            0 <= k < chunk_view.len() && chunk_view[k] == ip;
                        assert(out@[before.len() + k] == ip);
                    }
                }
            }
        }
        i = i + 1;
    }
    proof {
        assert(addresses@.subrange(0, addresses@.len() as int) =~= addresses@);
    }
    out
}

/// Put a resolved address list into its final form: sorted ascending,
/// each address once, and without whatever the exclusion list holds.
/// Every resolution path ends here, wherever its addresses came from.
pub fn finalize_addresses(ips: &Vec<Ip>, excluded: &Vec<Ip>) -> (r: Vec<Ip>)
    ensures
        strictly_sorted_ips(r@),
        forall|ip: Ip| #[trigger] r@.contains(ip) <==> (ips@.contains(ip)
            && !excluded@.contains(ip)),
{
    let sorted = sort_ips(ips);
    dedup_and_exclude(&sorted, excluded)
}

/// Parses the address inputs into IP addresses.
///
/// Every literal address and CIDR block of `addresses` is expanded; the
/// result is sorted ascending, holds every address once, and leaves out
/// whatever `exclude_addresses` covers. Specifiers that need DNS or a
/// host file contribute nothing here; the caller resolves them and merges
/// the outcome through the same path.
pub fn parse_addresses(input: &Opts) -> (r: Vec<Ip>)
    ensures
        strictly_sorted_ips(r@),
        forall|ip: Ip| #[trigger] r@.contains(ip) <==> (resolved_ip(input.addresses@, ip)
            && !excluded_ip(input.exclude_addresses, ip)),
{
    let ips = parse_address_list(&input.addresses);
    let excluded: Vec<Ip> = match &input.exclude_addresses {
        Some(l) => parse_address_list(l),
        None => Vec::new(),
    };
    finalize_addresses(&ips, &excluded)
}

/// Resolution is deterministic: two sorted, deduplicated lists holding the
/// same addresses are the same list, so resolving the same specifiers
/// twice returns identical sequences.
pub proof fn lemma_resolution_deterministic(a: Seq<Ip>, b: Seq<Ip>)
    requires
        strictly_sorted_ips(a),
        strictly_sorted_ips(b),
        forall|ip: Ip| a.contains(ip) <==> b.contains(ip),
    ensures
        a == b,
    decreases a.len(),
{
    if a.len() == 0 {
        if b.len() > 0 {
            assert(a.contains(b[0]));
        }
        assert(a =~= b);
    } else {
        assert(b.contains(a[0]));
        assert(a.contains(b[0]));
        let i = choose|i: int| 0 <= i < b.len() && b[i] == a[0];
        let j = choose|j: int| 0 <= j < a.len() && a[j] == b[0];
        // the heads are both the unique minimum of the shared set
        assert(a[0] == b[0]) by {
            if i > 0 {
                assert(b[0].key() < b[i].key());
                assert(a[j].key() >= a[0].key() || j == 0);
                if j > 0 {
                    assert(a[0].key() < a[j].key());
                }
            }
            lemma_key_injective(a[0], b[0]);
        }
        let ta = a.drop_first();
        let tb = b.drop_first();
        assert forall|ip: Ip| ta.contains(ip) <==> tb.contains(ip) by {
            if ta.contains(ip) {
                let k = choose|k: int| 0 <= k < ta.len() && ta[k] == ip;
                assert(a[k + 1] == ip);
                assert(a[0].key() < ip.key());
                assert(b.contains(ip));
                let m = choose|m: int| 0 <= m < b.len() && b[m] == ip;
                assert(m != 0) by {
                    if m == 0 {
                        lemma_key_injective(a[0], ip);
                    }
                }
                assert(tb[m - 1] == ip);
            }
            if tb.contains(ip) {
                let k = choose|k: int| 0 <= k < tb.len() && tb[k] == ip;
                assert(b[k + 1] == ip);
                assert(b[0].key() < ip.key());
                assert(a.contains(ip));
                let m = choose|m: int| 0 <= m < a.len() && a[m] == ip;
                assert(m != 0) by {
                    if m == 0 {
                        lemma_key_injective(b[0], ip);
                    }
                }
                assert(ta[m - 1] == ip);
            }
        }
        assert(strictly_sorted_ips(ta)) by {
            assert forall|x: int, y: int|
                0 <= x < y < ta.len() implies ta[x].key() < ta[y].key() by {
                assert(ta[x] == a[x + 1] && ta[y] == a[y + 1]);
            }
        }
        assert(strictly_sorted_ips(tb)) by {
            assert forall|x: int, y: int|
                0 <= x < y < tb.len() implies tb[x].key() < tb[y].key() by {
                assert(tb[x] == b[x + 1] && tb[y] == b[y + 1]);
            }
        }
        lemma_resolution_deterministic(ta, tb);
        assert(a =~= b) by {
            assert forall|k: int| 0 <= k < a.len() implies a[k] == b[k] by {
                if k > 0 {
                    assert(ta[k - 1] == tb[k - 1]);
                }
            }
        }
    }
}

} // verus!
