//! Lazy enumeration of a scan's endpoints: the Cartesian product of the
//! target addresses and ports, in port-major order — every address for one
//! port before the next port — holding only two indices, never the product.
use crate::address::Ip;
use vstd::arithmetic::div_mod::{
    lemma_fundamental_div_mod, lemma_fundamental_div_mod_converse,
};
use vstd::prelude::*;

verus! {

/// One probe target: an address and a port.
#[derive(Debug, Clone, Copy, PartialEq, Eq, Structural)]
pub struct Endpoint {
    pub ip: Ip,
    pub port: u16,
}

/// Every endpoint of a scan, in port-major order: the `k`-th pair holds
/// the address `k % |ips|` and the port `k / |ips|`.
pub open spec fn endpoint_seq(ips: Seq<Ip>, ports: Seq<u16>) -> Seq<Endpoint> {
    Seq::new(
        ips.len() * ports.len(),
        |k: int| Endpoint { ip: ips[k % ips.len() as int], port: ports[k / ips.len() as int] },
    )
}

/// An endpoint is in the product exactly when its address and port are
/// among the targets.
pub proof fn lemma_endpoint_seq_membership(ips: Seq<Ip>, ports: Seq<u16>, e: Endpoint)
    ensures
        endpoint_seq(ips, ports).contains(e) <==> (ips.contains(e.ip) && ports.contains(e.port)),
{
    let m = ips.len() as int;
    let product = endpoint_seq(ips, ports);
    if product.contains(e) {
        let k = choose|k: int| 0 <= k < product.len() && product[k] == e;
        assert(m > 0) by {
            if m == 0 {
                assert(ips.len() * ports.len() == 0) by (nonlinear_arith)
                    requires
                        ips.len() == 0,
                ;
            }
        }
        lemma_fundamental_div_mod(k, m);
        assert(0 <= k % m < m);
        assert(0 <= k / m < ports.len() as int) by (nonlinear_arith)
            requires
                0 <= k < m * ports.len(),
                m > 0,
                k == m * (k / m) + k % m,
                0 <= k % m < m,
        ;
        assert(ips[k % m] == e.ip);
        assert(ports[k / m] == e.port);
    }
    if ips.contains(e.ip) && ports.contains(e.port) {
        let a = choose|a: int| 0 <= a < ips.len() && ips[a] == e.ip;
        let b = choose|b: int| 0 <= b < ports.len() && ports[b] == e.port;
        let k = b * m + a;
        assert(0 <= k < m * ports.len() as int) by (nonlinear_arith)
            requires
                0 <= a < m,
                0 <= b < ports.len() as int,
                k == b * m + a,
        ;
        lemma_fundamental_div_mod_converse(k, m, b, a);
        assert(product[k] == e);
    }
}

/// When the addresses and the ports hold no repeats, neither does the
/// product: the iterator yields `|ips| * |ports|` distinct endpoints.
pub proof fn lemma_endpoint_seq_distinct(ips: Seq<Ip>, ports: Seq<u16>)
    requires
        ips.no_duplicates(),
        ports.no_duplicates(),
    ensures
        endpoint_seq(ips, ports).len() == ips.len() * ports.len(),
        endpoint_seq(ips, ports).no_duplicates(),
{
    let m = ips.len() as int;
    let product = endpoint_seq(ips, ports);
    assert forall|k1: int, k2: int|
        0 <= k1 < product.len() && 0 <= k2 < product.len() && k1 != k2 implies product[k1]
        != product[k2] by {
        assert(m > 0) by {
            if m == 0 {
                assert(ips.len() * ports.len() == 0) by (nonlinear_arith)
                    requires
                        ips.len() == 0,
                ;
            }
        }
        lemma_fundamental_div_mod(k1, m);
        lemma_fundamental_div_mod(k2, m);
        assert(0 <= k1 / m < ports.len() as int && 0 <= k2 / m < ports.len() as int)
            by (nonlinear_arith)
            requires
                0 <= k1 < m * ports.len(),
                0 <= k2 < m * ports.len(),
                m > 0,
                k1 == m * (k1 / m) + k1 % m,
                k2 == m * (k2 / m) + k2 % m,
                0 <= k1 % m < m,
                0 <= k2 % m < m,
        ;
        if k1 / m == k2 / m {
            assert(k1 % m != k2 % m);
            assert(ips[k1 % m] != ips[k2 % m]);
        } else {
            assert(ports[k1 / m] != ports[k2 / m]);
        }
    }
}

/// An iterator that receives the addresses and ports of a scan and hands
/// out one endpoint per call until every combination is exhausted, without
/// a big memory footprint. Every address keeps the same port until the
/// port advances.
pub struct SocketIterator {
    pub ips: Vec<Ip>,
    pub ports: Vec<u16>,
    pub ip_idx: usize,
    pub port_idx: usize,
}

impl SocketIterator {
    /// The indices stand inside the product, with the address index wrapped.
    pub open spec fn wf(self) -> bool {
        &&& self.ips@.len() == 0 ==> self.ip_idx == 0 && self.port_idx == 0
        &&& self.ips@.len() > 0 ==> self.ip_idx < self.ips@.len()
        &&& self.port_idx <= self.ports@.len()
        &&& self.port_idx == self.ports@.len() ==> self.ip_idx == 0
    }

    /// How many endpoints the iterator has handed out.
    pub open spec fn emitted(self) -> int {
        self.port_idx * self.ips@.len() + self.ip_idx
    }

    /// The whole product this iterator walks.
    pub open spec fn product(self) -> Seq<Endpoint> {
        endpoint_seq(self.ips@, self.ports@)
    }

    pub fn new(ips: &Vec<Ip>, ports: &Vec<u16>) -> (r: Self)
        ensures
            r.wf(),
            r.ips@ == ips@,
            r.ports@ == ports@,
            r.emitted() == 0,
    {
        SocketIterator { ips: clone_ips(ips), ports: clone_u16s(ports), ip_idx: 0, port_idx: 0 }
    }

    /// Whether every combination was handed out.
    pub fn finished(&self) -> (r: bool)
        requires
            self.wf(),
        ensures
            r == (self.emitted() == self.product().len()),
    {
        let ghost m = self.ips@.len() as int;
        let ghost n = self.ports@.len() as int;
        let r = self.ips.len() == 0 || self.port_idx >= self.ports.len();
        proof {
            if m == 0 {
                assert(self.emitted() == 0) by (nonlinear_arith)
                    requires
                        self.ips@.len() == 0,
                        self.ip_idx == 0,
                        self.emitted() == self.port_idx * self.ips@.len() + self.ip_idx,
                ;
                assert(self.product().len() == 0) by (nonlinear_arith)
                    requires
                        self.ips@.len() == 0,
                        self.product().len() == self.ips@.len() * self.ports@.len(),
                ;
            } else if self.port_idx >= self.ports@.len() {
                assert(self.emitted() == m * n) by (nonlinear_arith)
                    requires
                        m == self.ips@.len(),
                        n == self.port_idx,
                        self.ip_idx == 0,
                        self.emitted() == self.port_idx * self.ips@.len() + self.ip_idx,
                ;
            } else {
                assert(self.emitted() < m * n) by (nonlinear_arith)
                    requires
                        m == self.ips@.len(),
                        n == self.ports@.len(),
                        m > 0,
                        0 <= self.port_idx < n,
                        0 <= self.ip_idx < m,
                        self.emitted() == self.port_idx * self.ips@.len() + self.ip_idx,
                ;
            }
        }
        r
    }

    /// Returns an endpoint built from one of the provided addresses and
    /// ports, or `None` once their combinations are exhausted.
    pub fn next(&mut self) -> (r: Option<Endpoint>)
        requires
            old(self).wf(),
        ensures
            final(self).wf(),
            final(self).ips@ == old(self).ips@,
            final(self).ports@ == old(self).ports@,
            if old(self).emitted() < old(self).product().len() {
                &&& r == Some(old(self).product()[old(self).emitted()])
                &&& final(self).emitted() == old(self).emitted() + 1
            } else {
                &&& r is None
                &&& final(self).emitted() == old(self).emitted()
            },
    {
        let ghost m = self.ips@.len() as int;
        let ghost n = self.ports@.len() as int;
        if self.ips.len() == 0 || self.port_idx >= self.ports.len() {
            proof {
                if m > 0 {
                    // the port index has reached the end: everything came out
                    assert(self.emitted() == m * n) by (nonlinear_arith)
                        requires
                            m == self.ips@.len(),
                            n == self.port_idx,
                            self.ip_idx == 0,
                            self.emitted() == self.port_idx * self.ips@.len() + self.ip_idx,
                    ;
                    assert(self.product().len() == m * n);
                    assert(n * m == m * n) by (nonlinear_arith);
                }
            }
            return None;
        }
        let e = Endpoint { ip: self.ips[self.ip_idx], port: self.ports[self.port_idx] };
        proof {
            let k = self.emitted();
            assert(0 <= k && k == m * (self.port_idx as int) + self.ip_idx as int)
                by (nonlinear_arith)
                requires
                    m == self.ips@.len(),
                    k == self.port_idx * self.ips@.len() + self.ip_idx,
                    0 <= self.port_idx,
                    0 <= self.ip_idx,
            ;
            lemma_fundamental_div_mod_converse(k, m, self.port_idx as int, self.ip_idx as int);
            assert(k < m * n) by (nonlinear_arith)
                requires
                    k == m * (self.port_idx as int) + self.ip_idx as int,
                    self.port_idx < n,
                    0 <= self.ip_idx < m,
            ;
            assert(self.product()[k] == e);
        }
        self.ip_idx = self.ip_idx + 1;
        if self.ip_idx == self.ips.len() {
            self.ip_idx = 0;
            self.port_idx = self.port_idx + 1;
            proof {
                let ghost p = (self.port_idx - 1) as int;
                assert((p + 1) * m == p * m + m) by (nonlinear_arith);
            }
        }
        Some(e)
    }
}

/// A copy of an address list, element for element.
pub(crate) fn clone_ips(v: &Vec<Ip>) -> (r: Vec<Ip>)
    ensures
        r@ == v@,
{
    let mut out: Vec<Ip> = Vec::new();
    let mut i: usize = 0;
    while i < v.len()
        invariant
            0 <= i <= v@.len(),
            out@ == v@.subrange(0, i as int),
        decreases v@.len() - i,
    {
        out.push(v[i]);
        proof {
            assert(out@ =~= v@.subrange(0, i + 1));
        }
        i = i + 1;
    }
    proof {
        assert(v@.subrange(0, v@.len() as int) =~= v@);
    }
    out
}

/// A copy of a port list, element for element.
fn clone_u16s(v: &Vec<u16>) -> (r: Vec<u16>)
    ensures
        r@ == v@,
{
    let mut out: Vec<u16> = Vec::new();
    let mut i: usize = 0;
    while i < v.len()
        invariant
            0 <= i <= v@.len(),
            out@ == v@.subrange(0, i as int),
        decreases v@.len() - i,
    {
        out.push(v[i]);
        proof {
            assert(out@ =~= v@.subrange(0, i + 1));
        }
        i = i + 1;
    }
    proof {
        assert(v@.subrange(0, v@.len() as int) =~= v@);
    }
    out
}

} // verus!
