//! Port ordering strategies: the ports to probe, as a serial walk of a
//! range, a shuffled walk of a range, or an explicit list.
use crate::input::{PortRange, ScanOrder};
use crate::modular::lemma_pigeonhole;
use vstd::prelude::*;

verus! {

/// Relies on blackrock2::BlackRockIter: the BlackRock cipher of masscan, a
/// keyed permutation of `0 .. n` under a random seed. Collecting it yields
/// every value below `n` exactly once, in a shuffled order.
#[verifier::external_body]
fn blackrock_shuffled(n: u64) -> (r: Vec<u64>)
    requires
        n <= usize::MAX,
    ensures
        r@.len() == n,
        forall|i: int| 0 <= i < r@.len() ==> #[trigger] r@[i] < n,
        r@.no_duplicates(),
{
    blackrock2::BlackRockIter::new(n).collect()
}

/// Relies on rand's SliceRandom::shuffle: a Fisher-Yates shuffle, which
/// permutes the slice in place.
#[verifier::external_body]
fn shuffle_u16(v: &mut Vec<u16>)
    ensures
        final(v)@.to_multiset() == old(v)@.to_multiset(),
{
    rand::seq::SliceRandom::shuffle(v.as_mut_slice(), &mut rand::thread_rng());
}

/// A half-open range of ports, `start .. end`, normalized so that an
/// inclusive range with its ends swapped becomes empty.
#[derive(Copy, Clone, Debug)]
pub struct ExclusivePortRange {
    pub start: u32,
    pub end: u32,
}

impl ExclusivePortRange {
    /// The bounds are ordered and every port of the range fits a u16.
    pub open spec fn wf(self) -> bool {
        self.start <= self.end <= 0x10000
    }

    /// Turn an inclusive `PortRange` into its half-open form.
    pub fn from_range(range: PortRange) -> (r: Self)
        ensures
            r.wf(),
            r.start == range.start,
            range.start <= range.end ==> r.end == range.end + 1,
            range.start > range.end ==> r.end == range.start,
    {
        if range.end < range.start {
            ExclusivePortRange { start: range.start as u32, end: range.start as u32 }
        } else {
            ExclusivePortRange { start: range.start as u32, end: range.end as u32 + 1 }
        }
    }
}

/// As the name implies, SerialRange always produces its ports in
/// ascending order.
#[derive(Copy, Clone, Debug)]
pub struct SerialRange(pub ExclusivePortRange);

impl SerialRange {
    /// The ports of the range, ascending.
    pub fn iter(&self) -> (r: Vec<u16>)
        requires
            self.0.wf(),
        ensures
            r@.len() == self.0.end - self.0.start,
            forall|i: int| 0 <= i < r@.len() ==> #[trigger] r@[i] == self.0.start + i,
    {
        let mut out: Vec<u16> = Vec::new();
        let mut x = self.0.start;
        while x < self.0.end
            invariant
                self.0.wf(),
                self.0.start <= x <= self.0.end,
                out@.len() == x - self.0.start,
                forall|i: int| 0 <= i < out@.len() ==> #[trigger] out@[i] == self.0.start + i,
            decreases self.0.end - x,
        {
            out.push(x as u16);
            x = x + 1;
        }
        out
    }
}

/// As the name implies, RandomRange produces its ports in a shuffled
/// order, by the BlackRock keyed permutation, like the original masscan.
#[derive(Copy, Clone, Debug)]
pub struct RandomRange(pub ExclusivePortRange);

impl RandomRange {
    /// The ports of the range, each exactly once, shuffled.
    pub fn iter(&self) -> (r: Vec<u16>)
        requires
            self.0.wf(),
        ensures
            r@.len() == self.0.end - self.0.start,
            r@.no_duplicates(),
            forall|p: u16| (#[trigger] r@.contains(p)) <==> self.0.start <= p < self.0.end,
    {
        let range = self.0.end - self.0.start;
        let shuffled = blackrock_shuffled(range as u64);
        let ghost base = Seq::new(shuffled@.len(), |i: int| shuffled@[i] as int);
        let mut out: Vec<u16> = Vec::new();
        let mut i: usize = 0;
        while i < shuffled.len()
            invariant
                self.0.wf(),
                range == self.0.end - self.0.start,
                shuffled@.len() == range,
                forall|k: int| 0 <= k < shuffled@.len() ==> #[trigger] shuffled@[k] < range,
                0 <= i <= shuffled@.len(),
                out@.len() == i,
                forall|k: int|
                    0 <= k < i ==> #[trigger] out@[k] == self.0.start + shuffled@[k],
            decreases shuffled@.len() - i,
        {
            let x = shuffled[i];
            out.push((self.0.start + x as u32) as u16);
            i = i + 1;
        }
        proof {
            assert forall|p: u16| (#[trigger] out@.contains(p)) implies self.0.start <= p
                < self.0.end by {
                let k = choose|k: int| 0 <= k < out@.len() && out@[k] == p;
                assert(out@[k] == self.0.start + shuffled@[k]);
            }
            assert forall|k: int| 0 <= k < base.len() implies 0 <= #[trigger] base[k]
                < range by {
                assert(shuffled@[k] < range);
            }
            assert(base.no_duplicates()) by {
                assert forall|a: int, b: int|
                    0 <= a < base.len() && 0 <= b < base.len() && a != b implies base[a]
                    != base[b] by {
                    assert(shuffled@[a] != shuffled@[b]);
                }
            }
            lemma_pigeonhole(base, range as int);
            assert forall|p: u16|
                self.0.start <= p < self.0.end implies #[trigger] out@.contains(p) by {
                let v = p - self.0.start;
                assert(base.contains(v));
                let k = choose|k: int| 0 <= k < base.len() && base[k] == v;
                assert(out@[k] == p);
            }
            assert(out@.no_duplicates()) by {
                assert forall|a: int, b: int|
                    0 <= a < out@.len() && 0 <= b < out@.len() && a != b implies out@[a]
                    != out@[b] by {
                    assert(shuffled@[a] != shuffled@[b]);
                    assert(out@[a] == self.0.start + shuffled@[a]);
                    assert(out@[b] == self.0.start + shuffled@[b]);
                }
            }
        }
        out
    }
}

/// The ways the set of ports to probe can be ordered.
///
/// A range is walked serially or in a shuffled order; an explicit list is
/// probed as given (shuffling, when asked for, happened when it was built).
#[derive(Debug)]
pub enum PortStrategy {
    List(Vec<u16>),
    Serial(SerialRange),
    Random(RandomRange),
}

impl PortStrategy {
    /// The strategy's state is well formed.
    pub open spec fn wf(self) -> bool {
        match self {
            PortStrategy::List(_) => true,
            PortStrategy::Serial(sr) => sr.0.wf(),
            PortStrategy::Random(rr) => rr.0.wf(),
        }
    }

    /// Whether a port belongs to the configured set.
    pub open spec fn port_in_set(self, p: u16) -> bool {
        match self {
            PortStrategy::List(l) => l@.contains(p),
            PortStrategy::Serial(sr) => sr.0.start <= p < sr.0.end,
            PortStrategy::Random(rr) => rr.0.start <= p < rr.0.end,
        }
    }

    /// How many ports the strategy produces.
    pub open spec fn port_count(self) -> int {
        match self {
            PortStrategy::List(l) => l@.len() as int,
            PortStrategy::Serial(sr) => sr.0.end - sr.0.start,
            PortStrategy::Random(rr) => rr.0.end - rr.0.start,
        }
    }

    /// Build the strategy for an inclusive port range.
    pub fn range(range: PortRange, order: ScanOrder) -> (r: Self)
        ensures
            r.wf(),
            order == ScanOrder::Serial ==> r is Serial,
            order == ScanOrder::Random ==> r is Random,
            forall|p: u16| #[trigger] r.port_in_set(p) <==> range.start <= p <= range.end,
            range.start <= range.end ==> r.port_count() == range.end + 1 - range.start,
            range.start > range.end ==> r.port_count() == 0,
    {
        let exclusive = ExclusivePortRange::from_range(range);
        match order {
            ScanOrder::Serial => PortStrategy::Serial(SerialRange(exclusive)),
            ScanOrder::Random => PortStrategy::Random(RandomRange(exclusive)),
        }
    }

    /// Build the strategy for an explicit port list; a random order shuffles
    /// the list once, now.
    pub fn list(list: Vec<u16>, order: ScanOrder) -> (r: Self)
        ensures
            r matches PortStrategy::List(l) && l@.to_multiset() == list@.to_multiset(),
            order == ScanOrder::Serial ==> (r matches PortStrategy::List(l) && l@ == list@),
    {
        match order {
            ScanOrder::Serial => PortStrategy::List(list),
            ScanOrder::Random => {
                let mut list = list;
                shuffle_u16(&mut list);
                PortStrategy::List(list)
            },
        }
    }

    /// Pick the strategy a scan uses: the explicit ports when given, else
    /// the given range, else the full port space.
    pub fn pick(range: &Option<PortRange>, ports: Option<Vec<u16>>, order: ScanOrder) -> (r: Self)
        ensures
            r.wf(),
            match ports {
                Some(l) => r matches PortStrategy::List(rl) && rl@.to_multiset()
                    == l@.to_multiset(),
                None => {
                    let pr = match range {
                        Some(pr) => *pr,
                        None => PortRange {
                            start: crate::input::LOWEST_PORT_NUMBER,
                            end: crate::input::TOP_PORT_NUMBER,
                        },
                    };
                    forall|p: u16| #[trigger] r.port_in_set(p) <==> pr.start <= p <= pr.end
                },
            },
    {
        match ports {
            Some(l) => Self::list(l, order),
            None => {
                let pr = match range {
                    Some(pr) => *pr,
                    None => PortRange {
                        start: crate::input::LOWEST_PORT_NUMBER,
                        end: crate::input::TOP_PORT_NUMBER,
                    },
                };
                Self::range(pr, order)
            },
        }
    }

    /// The ports to probe, in the strategy's order. A port of the
    /// configured set appears exactly once unless an explicit list
    /// repeated it.
    pub fn iter(&self) -> (r: Vec<u16>)
        requires
            self.wf(),
        ensures
            r@.len() == self.port_count(),
            forall|p: u16| (#[trigger] r@.contains(p)) <==> self.port_in_set(p),
            self matches PortStrategy::List(l) ==> r@ == l@,
            !(self is List) ==> r@.no_duplicates(),
            self matches PortStrategy::Serial(sr) ==> forall|i: int|
                0 <= i < r@.len() ==> #[trigger] r@[i] == sr.0.start + i,
    {
        match self {
            PortStrategy::List(ports) => {
                let r = clone_ports(ports);
                r
            },
            PortStrategy::Serial(range) => {
                let r = range.iter();
                proof {
                    assert forall|p: u16| (#[trigger] r@.contains(p)) implies range.0.start <= p
                        < range.0.end by {
                        let k = choose|k: int| 0 <= k < r@.len() && r@[k] == p;
                    }
                    assert forall|p: u16|
                        range.0.start <= p < range.0.end implies #[trigger] r@.contains(p) by {
                        let k = p - range.0.start;
                        assert(r@[k as int] == p);
                    }
                    assert(r@.no_duplicates()) by {
                        assert forall|a: int, b: int|
                            0 <= a < r@.len() && 0 <= b < r@.len() && a != b implies r@[a]
                            != r@[b] by {
                            assert(r@[a] == range.0.start + a);
                            assert(r@[b] == range.0.start + b);
                        }
                    }
                }
                r
            },
            PortStrategy::Random(range) => range.iter(),
        }
    }
}

/// A copy of a port list, element for element.
fn clone_ports(ports: &Vec<u16>) -> (r: Vec<u16>)
    ensures
        r@ == ports@,
{
    let mut out: Vec<u16> = Vec::new();
    let mut i: usize = 0;
    while i < ports.len()
        invariant
            0 <= i <= ports@.len(),
            out@ == ports@.subrange(0, i as int),
        decreases ports@.len() - i,
    {
        out.push(ports[i]);
        proof {
            assert(out@ =~= ports@.subrange(0, i + 1));
        }
        i = i + 1;
    }
    proof {
        assert(ports@.subrange(0, ports@.len() as int) =~= ports@);
    }
    out
}

} // verus!
