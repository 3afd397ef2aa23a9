//! The scan engine's verified bookkeeping: which endpoints a scan probes,
//! the bound on probes in flight, and what the scan returns.
//!
//! The engine splits in two. This module holds the decisions: the filtered
//! port list, the sliding window of in-flight probes (`ScanSession`), and
//! the accumulation of open endpoints. The unverified driver around it
//! performs the socket work: it starts the session, launches a probe for
//! every endpoint the session hands out, and reports each outcome back.
use crate::address::Ip;
use crate::port_strategy::PortStrategy;
use crate::socket_iterator::{
    lemma_endpoint_seq_membership, Endpoint, SocketIterator,
};
use vstd::prelude::*;
use vstd::string::StringSliceAdditionalSpecFns;

verus! {

/// A retry count, corrected to at least one attempt.
pub open spec fn clamped_tries(t: u8) -> u8 {
    if t == 0 {
        1u8
    } else {
        t
    }
}

/// A retry count of zero is silently corrected: zero and one configure
/// the same number of attempts, and every configuration attempts at
/// least once.
pub proof fn lemma_tries_clamped()
    ensures
        clamped_tries(0) == clamped_tries(1),
        forall|t: u8| #[trigger] clamped_tries(t) >= 1,
{
}

/// The immutable configuration of one scan.
#[derive(Debug)]
pub struct Scanner {
    pub ips: Vec<Ip>,
    pub batch_size: u16,
    pub timeout_millis: u64,
    pub tries: u8,
    pub greppable: bool,
    pub port_strategy: PortStrategy,
    pub accessible: bool,
    pub exclude_ports: Vec<u16>,
    pub udp: bool,
}

impl Scanner {
    /// A scanner is well formed when its port strategy is.
    pub open spec fn wf(self) -> bool {
        self.port_strategy.wf()
    }

    /// Whether an endpoint is one this scan aims at: its address is a
    /// target, its port is in the configured set and not excluded.
    pub open spec fn is_target(self, e: Endpoint) -> bool {
        &&& self.ips@.contains(e.ip)
        &&& self.port_strategy.port_in_set(e.port)
        &&& !self.exclude_ports@.contains(e.port)
    }

    /// What a scan against a fixed target table reports open: the
    /// endpoints it aims at that the table holds.
    pub open spec fn open_result(self, table: Seq<Endpoint>, e: Endpoint) -> bool {
        self.is_target(e) && table.contains(e)
    }

    pub fn new(
        ips: &Vec<Ip>,
        batch_size: u16,
        timeout_millis: u64,
        tries: u8,
        greppable: bool,
        port_strategy: PortStrategy,
        accessible: bool,
        exclude_ports: Vec<u16>,
        udp: bool,
    ) -> (r: Self)
        requires
            port_strategy.wf(),
        ensures
            r.wf(),
            r.ips@ == ips@,
            r.batch_size == batch_size,
            r.timeout_millis == timeout_millis,
            r.tries == clamped_tries(tries),
            r.tries >= 1,
            r.greppable == greppable,
            r.port_strategy == port_strategy,
            r.accessible == accessible,
            r.exclude_ports == exclude_ports,
            r.udp == udp,
    {
        Scanner {
            ips: crate::socket_iterator::clone_ips(ips),
            batch_size,
            timeout_millis,
            tries: if tries == 0 {
                1
            } else {
                tries
            },
            greppable,
            port_strategy,
            accessible,
            exclude_ports,
            udp,
        }
    }

    /// The ports this scan probes: the strategy's order with the excluded
    /// ports removed. Exclusion filters the strategy's output; it never
    /// reshapes the configured set.
    pub fn filtered_ports(&self) -> (r: Vec<u16>)
        requires
            self.wf(),
        ensures
            forall|p: u16| (#[trigger] r@.contains(p)) <==> (self.port_strategy.port_in_set(p)
                && !self.exclude_ports@.contains(p)),
            !(self.port_strategy is List) ==> r@.no_duplicates(),
    {
        let ports = self.port_strategy.iter();
        let ghost pred = |p: u16| !self.exclude_ports@.contains(p);
        let mut out: Vec<u16> = Vec::new();
        let mut i: usize = 0;
        while i < ports.len()
            invariant
                0 <= i <= ports@.len(),
                out@ == ports@.subrange(0, i as int).filter(pred),
                pred == (|p: u16| !self.exclude_ports@.contains(p)),
            decreases ports@.len() - i,
        {
            let p = ports[i];
            let ghost prefix = ports@.subrange(0, i as int);
            proof {
                reveal(Seq::filter);
                assert(ports@.subrange(0, i + 1) =~= prefix.push(p));
                assert(prefix.push(p).drop_last() =~= prefix);
                assert(prefix.push(p).last() == p);
            }
            if !contains_u16(&self.exclude_ports, p) {
                out.push(p);
            }
            i = i + 1;
        }
        proof {
            broadcast use vstd::seq_lib::group_filter_ensures;

            assert(ports@.subrange(0, ports@.len() as int) =~= ports@);
            assert forall|p: u16| (#[trigger] out@.contains(p)) implies (
            self.port_strategy.port_in_set(p) && !self.exclude_ports@.contains(p)) by {
                let k = choose|k: int| 0 <= k < out@.len() && out@[k] == p;
                assert(pred(out@[k]));
                ports@.lemma_filter_contains_rev(pred, p);
            }
            assert forall|p: u16|
                (self.port_strategy.port_in_set(p) && !self.exclude_ports@.contains(p))
                    implies #[trigger] out@.contains(p) by {
                assert(ports@.contains(p));
                let k = choose|k: int| 0 <= k < ports@.len() && ports@[k] == p;
                assert(pred(ports@[k]));
            }
            if !(self.port_strategy is List) {
                lemma_filter_no_duplicates(ports@, pred);
            }
        }
        out
    }
}

/// Filtering keeps a sequence free of repeats.
proof fn lemma_filter_no_duplicates(s: Seq<u16>, pred: spec_fn(u16) -> bool)
    requires
        s.no_duplicates(),
    ensures
        s.filter(pred).no_duplicates(),
    decreases s.len(),
{
    reveal(Seq::filter);
    if s.len() > 0 {
        let prefix = s.drop_last();
        assert(prefix.no_duplicates()) by {
            assert forall|i: int, j: int|
                0 <= i < prefix.len() && 0 <= j < prefix.len() && i != j implies prefix[i]
                != prefix[j] by {
                assert(s[i] == prefix[i] && s[j] == prefix[j]);
            }
        }
        lemma_filter_no_duplicates(prefix, pred);
        if pred(s.last()) {
            assert(!prefix.filter(pred).contains(s.last())) by {
                if prefix.filter(pred).contains(s.last()) {
                    prefix.lemma_filter_contains_rev(pred, s.last());
                    let k = choose|k: int| 0 <= k < prefix.len() && prefix[k] == s.last();
                    assert(s[k] == s.last());
                }
            }
            let out = prefix.filter(pred).push(s.last());
            assert(out.no_duplicates()) by {
                assert forall|i: int, j: int|
                    0 <= i < out.len() && 0 <= j < out.len() && i != j implies out[i]
                    != out[j] by {
                    if i < out.len() - 1 && j < out.len() - 1 {
                        assert(out[i] == prefix.filter(pred)[i]);
                        assert(out[j] == prefix.filter(pred)[j]);
                    } else if j == out.len() - 1 {
                        assert(prefix.filter(pred).contains(out[i])) by {
                            assert(prefix.filter(pred)[i] == out[i]);
                        }
                    } else {
                        assert(prefix.filter(pred).contains(out[j])) by {
                            assert(prefix.filter(pred)[j] == out[j]);
                        }
                    }
                }
            }
        }
    }
}

/// Whether a port list holds a port.
fn contains_u16(v: &Vec<u16>, x: u16) -> (r: bool)
    ensures
        r == v@.contains(x),
{
    let mut i: usize = 0;
    while i < v.len()
        invariant
            0 <= i <= v@.len(),
            forall|k: int| 0 <= k < i ==> v@[k] != x,
        decreases v@.len() - i,
    {
        if v[i] == x {
            return true;
        }
        i = i + 1;
    }
    false
}

/// Whether an endpoint list holds an endpoint.
fn contains_endpoint(v: &Vec<Endpoint>, e: &Endpoint) -> (r: bool)
    ensures
        r == v@.contains(*e),
{
    let mut i: usize = 0;
    while i < v.len()
        invariant
            0 <= i <= v@.len(),
            forall|k: int| 0 <= k < i ==> v@[k] != *e,
        decreases v@.len() - i,
    {
        if v[i] == *e {
            return true;
        }
        i = i + 1;
    }
    false
}

/// An ASCII byte lowered to its lowercase form; anything else unchanged.
pub open spec fn lower_byte(b: u8) -> u8 {
    if 65 <= b <= 90 {
        (b + 32) as u8
    } else {
        b
    }
}

/// The message every probe error is tested against: running out of file
/// descriptors is a fatal misconfiguration, not a closed port.
pub open spec fn fd_message() -> Seq<u8> {
    "too many open files".spec_bytes()
}

/// A byte sequence lowered to ASCII lowercase.
pub open spec fn lowered(s: Seq<u8>) -> Seq<u8> {
    s.map_values(|b: u8| lower_byte(b))
}

/// Whether an error text reports file-descriptor exhaustion: it holds
/// "too many open files", compared without regard to ASCII case.
pub open spec fn is_fd_exhaustion_msg(s: Seq<u8>) -> bool {
    exists|k: int|
        0 <= k <= s.len() - fd_message().len() && #[trigger] lowered(
            s.subrange(k, k + fd_message().len()),
        ) == fd_message()
}

/// Lower one ASCII byte.
fn lower_u8(b: u8) -> (r: u8)
    ensures
        r == lower_byte(b),
{
    if b >= 65 && b <= 90 {
        b + 32
    } else {
        b
    }
}

/// Test whether a probe error reports file-descriptor exhaustion.
/// The scan treats such an error as fatal, never as a closed port.
pub fn is_fd_exhaustion(err: &str) -> (r: bool)
    ensures
        r == is_fd_exhaustion_msg(err.spec_bytes()),
{
    let s = err.as_bytes();
    let pat: Vec<u8> = fd_pattern();
    if s.len() < pat.len() {
        return false;
    }
    let mut k: usize = 0;
    while k <= s.len() - pat.len()
        invariant
            s@ == err.spec_bytes(),
            s@.len() <= usize::MAX,
            s@.len() >= pat@.len(),
            pat@ == fd_message(),
            0 <= k <= s@.len() - pat@.len() + 1,
            forall|k0: int|
                0 <= k0 < k ==> lowered(#[trigger] s@.subrange(k0, k0 + fd_message().len()))
                    != fd_message(),
        decreases s@.len() - pat@.len() + 1 - k,
    {
        let mut j: usize = 0;
        let mut matches = true;
        while j < pat.len()
            invariant
                s@.len() <= usize::MAX,
                pat@ == fd_message(),
                0 <= j <= pat@.len(),
                0 <= k <= s@.len() - pat@.len(),
                matches ==> forall|j0: int|
                    0 <= j0 < j ==> lower_byte(#[trigger] s@[k + j0]) == fd_message()[j0],
                !matches ==> exists|j0: int|
                    0 <= j0 < j && lower_byte(#[trigger] s@[k + j0]) != fd_message()[j0],
            decreases pat@.len() - j,
        {
            if lower_u8(s[k + j]) != pat[j] {
                matches = false;
                proof {
                    assert(lower_byte(s@[k + j]) != fd_message()[j as int]);
                }
            }
            j = j + 1;
        }
        let ghost window = lowered(s@.subrange(k as int, k + fd_message().len()));
        if matches {
            proof {
                assert(window =~= fd_message()) by {
                    assert forall|j0: int| 0 <= j0 < fd_message().len() implies window[j0]
                        == fd_message()[j0] by {
                        assert(lower_byte(s@[k + j0]) == fd_message()[j0]);
                    }
                }
            }
            return true;
        }
        proof {
            assert(window != fd_message()) by {
                let j0 = choose|j0: int|
                    0 <= j0 < pat@.len() && lower_byte(#[trigger] s@[k + j0]) != fd_message()[j0];
                assert(window[j0] == lower_byte(s@[k + j0]));
            }
        }
        k = k + 1;
    }
    false
}

/// The bytes of the file-descriptor exhaustion message.
fn fd_pattern() -> (r: Vec<u8>)
    ensures
        r@ == fd_message(),
{
    let text = "too many open files";
    proof {
        reveal_strlit("too many open files");
    }
    let bytes = text.as_bytes();
    let mut out: Vec<u8> = Vec::new();
    let mut i: usize = 0;
    while i < bytes.len()
        invariant
            bytes@ == fd_message(),
            0 <= i <= bytes@.len(),
            out@ == bytes@.subrange(0, i as int),
        decreases bytes@.len() - i,
    {
        out.push(bytes[i]);
        proof {
            assert(out@ =~= bytes@.subrange(0, i + 1));
        }
        i = i + 1;
    }
    proof {
        assert(bytes@.subrange(0, bytes@.len() as int) =~= bytes@);
    }
    out
}

/// The payload sent to a UDP port: that of the first table entry whose
/// port set holds the port, or the empty payload when none does.
pub open spec fn spec_payload_for_port(t: Seq<(Vec<u16>, Vec<u8>)>, port: u16) -> Seq<u8>
    decreases t.len(),
{
    if t.len() == 0 {
        Seq::empty()
    } else if t[0].0@.contains(port) {
        t[0].1@
    } else {
        spec_payload_for_port(t.drop_first(), port)
    }
}

/// Skipping entries that do not hold the port leaves the lookup unchanged.
proof fn lemma_payload_skip(t: Seq<(Vec<u16>, Vec<u8>)>, port: u16, i: int)
    requires
        0 <= i <= t.len(),
        forall|j: int| 0 <= j < i ==> !(#[trigger] t[j].0@.contains(port)),
    ensures
        spec_payload_for_port(t, port) == spec_payload_for_port(t.skip(i), port),
    decreases i,
{
    if i > 0 {
        assert forall|j: int|
            0 <= j < i - 1 implies !(#[trigger] t.drop_first()[j].0@.contains(port)) by {
            assert(t.drop_first()[j] == t[j + 1]);
        }
        lemma_payload_skip(t.drop_first(), port, i - 1);
        assert(t.drop_first().skip(i - 1) =~= t.skip(i));
        assert(!t[0].0@.contains(port));
    } else {
        assert(t.skip(0) =~= t);
    }
}

/// Look up the UDP payload for a port in the payload table: the first
/// entry whose port set holds the port wins; no entry means the empty
/// payload.
pub fn payload_for_port(table: &Vec<(Vec<u16>, Vec<u8>)>, port: u16) -> (r: Vec<u8>)
    ensures
        r@ == spec_payload_for_port(table@, port),
{
    let mut i: usize = 0;
    while i < table.len()
        invariant
            0 <= i <= table@.len(),
            forall|j: int| 0 <= j < i ==> !(#[trigger] table@[j].0@.contains(port)),
        decreases table@.len() - i,
    {
        if contains_u16(&table[i].0, port) {
            proof {
                lemma_payload_skip(table@, port, i as int);
                assert(table@.skip(i as int)[0] == table@[i as int]);
            }
            let r = clone_bytes(&table[i].1);
            return r;
        }
        i = i + 1;
    }
    proof {
        lemma_payload_skip(table@, port, table@.len() as int);
        assert(table@.skip(table@.len() as int) =~= Seq::<(Vec<u16>, Vec<u8>)>::empty());
    }
    Vec::new()
}

/// A copy of a payload, byte for byte.
fn clone_bytes(v: &Vec<u8>) -> (r: Vec<u8>)
    ensures
        r@ == v@,
{
    let mut out: Vec<u8> = Vec::new();
    let mut i: usize = 0;
    while i < v.len()
        invariant
            0 <= i <= v@.len(),
            out@ == v@.subrange(0, i as int),
        decreases v@.len() - i,
    {
        out.push(v[i]);
        proof {
            assert(out@ =~= v@.subrange(0, i + 1));
        }
        i = i + 1;
    }
    proof {
        assert(v@.subrange(0, v@.len() as int) =~= v@);
    }
    out
}

/// Whether the diagnostic list already holds a message with this text.
pub open spec fn holds_error(errors: Seq<String>, m: Seq<char>) -> bool {
    exists|k: int| 0 <= k < errors.len() && #[trigger] errors[k]@ == m
}

/// Whether an error list holds a message with this text.
fn contains_error(v: &Vec<String>, m: &String) -> (r: bool)
    ensures
        r == holds_error(v@, m@),
{
    let mut i: usize = 0;
    while i < v.len()
        invariant
            0 <= i <= v@.len(),
            forall|k: int| 0 <= k < i ==> #[trigger] v@[k]@ != m@,
        decreases v@.len() - i,
    {
        if v[i] == *m {
            return true;
        }
        i = i + 1;
    }
    false
}

/// One scan run's live bookkeeping, driven cooperatively. The session
/// hands out endpoints to probe, enforces that probes in flight never pass
/// the batch size — not even transiently — keeps every open endpoint of
/// the scan's own targets once, and retains a bounded list of distinct
/// probe error texts for diagnosis.
///
/// The unverified driver performs the socket work: it starts the session,
/// probes each endpoint the session hands out, and reports each outcome
/// back through `complete`.
pub struct ScanSession {
    pub it: SocketIterator,
    pub batch_size: usize,
    pub in_flight: usize,
    pub open: Vec<Endpoint>,
    pub errors: Vec<String>,
    pub error_cap: usize,
}

impl ScanSession {
    /// The session's invariant: the in-flight count never passes the batch
    /// size nor the endpoints handed out, and the open list holds only
    /// endpoints of the scan's product, each once.
    pub open spec fn wf(self) -> bool {
        &&& self.it.wf()
        &&& self.in_flight <= self.batch_size
        &&& self.in_flight <= self.it.emitted()
        &&& forall|k: int|
            0 <= k < self.open@.len() ==> self.it.product().contains(#[trigger] self.open@[k])
        &&& self.open@.no_duplicates()
    }

    /// Begin a session over a scan's endpoints with a concurrency bound.
    pub fn new(it: SocketIterator, batch_size: usize, error_cap: usize) -> (r: Self)
        requires
            it.wf(),
            it.emitted() == 0,
        ensures
            r.wf(),
            r.it == it,
            r.batch_size == batch_size,
            r.in_flight == 0,
            r.open@ == Seq::<Endpoint>::empty(),
            r.errors@ == Seq::<String>::empty(),
            r.error_cap == error_cap,
    {
        ScanSession {
            it,
            batch_size,
            in_flight: 0,
            open: Vec::new(),
            errors: Vec::new(),
            error_cap,
        }
    }

    /// Hand out the next endpoint to probe and count it in flight. Callers
    /// must have room in the batch, so the bound holds at every moment.
    pub fn launch(&mut self) -> (r: Option<Endpoint>)
        requires
            old(self).wf(),
            old(self).in_flight < old(self).batch_size,
        ensures
            final(self).wf(),
            final(self).it.ips@ == old(self).it.ips@,
            final(self).it.ports@ == old(self).it.ports@,
            final(self).batch_size == old(self).batch_size,
            final(self).open == old(self).open,
            final(self).errors == old(self).errors,
            final(self).error_cap == old(self).error_cap,
            if old(self).it.emitted() < old(self).it.product().len() {
                &&& r == Some(old(self).it.product()[old(self).it.emitted()])
                &&& final(self).it.emitted() == old(self).it.emitted() + 1
                &&& final(self).in_flight == old(self).in_flight + 1
            } else {
                &&& r is None
                &&& final(self).it.emitted() == old(self).it.emitted()
                &&& final(self).in_flight == old(self).in_flight
            },
    {
        let r = self.it.next();
        if r.is_some() {
            self.in_flight = self.in_flight + 1;
        }
        r
    }

    /// Record one probe's completion: the in-flight count drops, and an
    /// open endpoint enters the open list, once.
    pub fn complete(&mut self, e: Endpoint, open: bool)
        requires
            old(self).wf(),
            old(self).in_flight > 0,
            old(self).it.product().contains(e),
        ensures
            final(self).wf(),
            final(self).it == old(self).it,
            final(self).batch_size == old(self).batch_size,
            final(self).in_flight == old(self).in_flight - 1,
            final(self).errors == old(self).errors,
            final(self).error_cap == old(self).error_cap,
            final(self).open@ == if open && !old(self).open@.contains(e) {
                old(self).open@.push(e)
            } else {
                old(self).open@
            },
    {
        self.in_flight = self.in_flight - 1;
        if open {
            let ghost before = self.open@;
            if !contains_endpoint(&self.open, &e) {
                self.open.push(e);
                proof {
                    assert(self.open@.no_duplicates()) by {
                        assert forall|a: int, b: int|
                            0 <= a < self.open@.len() && 0 <= b < self.open@.len() && a != b
                                implies self.open@[a] != self.open@[b] by {
                            if a < self.open@.len() - 1 && b < self.open@.len() - 1 {
                                assert(self.open@[a] == before[a] && self.open@[b] == before[b]);
                            } else if b == self.open@.len() - 1 {
                                assert(before.contains(self.open@[a])) by {
                                    assert(before[a] == self.open@[a]);
                                }
                            } else {
                                assert(before.contains(self.open@[b])) by {
                                    assert(before[b] == self.open@[b]);
                                }
                            }
                        }
                    }
                }
            }
        }
    }

    /// Keep one copy of a probe error's text, up to the diagnostic cap.
    pub fn record_error(&mut self, err: String)
        requires
            old(self).wf(),
        ensures
            final(self).wf(),
            final(self).it == old(self).it,
            final(self).batch_size == old(self).batch_size,
            final(self).in_flight == old(self).in_flight,
            final(self).open == old(self).open,
            final(self).error_cap == old(self).error_cap,
            final(self).errors@ == if old(self).errors@.len() < old(self).error_cap
                && !holds_error(old(self).errors@, err@) {
                old(self).errors@.push(err)
            } else {
                old(self).errors@
            },
    {
        if self.errors.len() < self.error_cap {
            if !contains_error(&self.errors, &err) {
                self.errors.push(err);
            }
        }
    }

    /// Whether the scan is over: nothing in flight, nothing left to probe.
    pub fn done(&self) -> (r: bool)
        requires
            self.wf(),
        ensures
            r == (self.in_flight == 0 && self.it.emitted() == self.it.product().len()),
    {
        self.in_flight == 0 && self.it.finished()
    }
}

impl Scanner {
    /// The diagnostic cap on distinct probe error texts: a thousand per
    /// target address.
    pub fn error_cap(&self) -> (r: usize)
        ensures
            self.ips@.len() * 1000 <= usize::MAX ==> r == self.ips@.len() * 1000,
    {
        match self.ips.len().checked_mul(1000) {
            Some(cap) => cap,
            None => usize::MAX,
        }
    }

    /// Run a whole scan against a fixed model of the network: an endpoint
    /// answers exactly when the table holds it. The run drives the same
    /// session bookkeeping as a live scan — seed a batch, then complete
    /// probes in launch order, pulling one new endpoint per completion —
    /// and returns the open endpoints found.
    ///
    /// The result holds exactly the scan's own targets that the table
    /// holds, each once — whatever the batch size, and empty whenever the
    /// address list is.
    pub fn run_with_table(&self, table: &Vec<Endpoint>) -> (r: Vec<Endpoint>)
        requires
            self.wf(),
            self.batch_size >= 1,
        ensures
            r@.no_duplicates(),
            forall|e: Endpoint| (#[trigger] r@.contains(e)) <==> self.open_result(table@, e),
            self.ips@.len() == 0 ==> r@ == Seq::<Endpoint>::empty(),
    {
        let ports = self.filtered_ports();
        let it = SocketIterator::new(&self.ips, &ports);
        let ghost product = it.product();
        let batch = self.batch_size as usize;
        let cap = self.error_cap();
        let mut session = ScanSession::new(it, batch, cap);
        let mut launched: Vec<Endpoint> = Vec::new();

        // seed the window with the first endpoints
        loop
            invariant
                session.wf(),
                session.it.ips@ == self.ips@,
                session.it.ports@ == ports@,
                session.it.product() == product,
                session.batch_size == batch,
                session.in_flight == launched@.len(),
                session.it.emitted() == launched@.len(),
                launched@ == product.take(launched@.len() as int),
                launched@.len() <= product.len(),
                session.open@ == Seq::<Endpoint>::empty(),
            ensures
                session.wf(),
                session.it.ips@ == self.ips@,
                session.it.ports@ == ports@,
                session.it.product() == product,
                session.batch_size == batch,
                session.in_flight == launched@.len(),
                session.it.emitted() == launched@.len(),
                launched@ == product.take(launched@.len() as int),
                launched@.len() <= product.len(),
                session.open@ == Seq::<Endpoint>::empty(),
                launched@.len() == product.len() || launched@.len() == batch,
            decreases batch - session.in_flight,
        {
            if session.in_flight >= batch {
                break;
            }
            match session.launch() {
                Some(e) => {
                    proof {
                        assert(product.take(launched@.len() as int + 1) =~= product.take(
                            launched@.len() as int,
                        ).push(product[launched@.len() as int]));
                    }
                    launched.push(e);
                },
                None => {
                    break;
                },
            }
        }

        let mut head: usize = 0;
        while head < launched.len()
            invariant
                session.wf(),
                session.it.ips@ == self.ips@,
                session.it.ports@ == ports@,
                session.it.product() == product,
                session.batch_size == batch,
                batch >= 1,
                head <= launched@.len(),
                session.in_flight == launched@.len() - head,
                session.it.emitted() == launched@.len(),
                launched@ == product.take(launched@.len() as int),
                launched@.len() <= product.len(),
                launched@.len() < product.len() ==> head < launched@.len(),
                forall|e: Endpoint| (#[trigger] session.open@.contains(e)) <==> (product.take(
                    head as int,
                ).contains(e) && table@.contains(e)),
            decreases product.len() - head,
        {
            let e = launched[head];
            proof {
                assert(product.take(launched@.len() as int)[head as int] == product[head as int]);
                assert(product.contains(e)) by {
                    assert(product[head as int] == e);
                }
            }
            let ghost open_before = session.open@;
            let is_open = contains_endpoint(table, &e);
            session.complete(e, is_open);
            proof {
                assert(product.take(head + 1) =~= product.take(head as int).push(e));
                assert forall|x: Endpoint| (#[trigger] session.open@.contains(x)) <==> (
                product.take(head + 1).contains(x) && table@.contains(x)) by {
                    assert(product.take(head + 1).contains(x) <==> (product.take(
                        head as int,
                    ).contains(x) || x == e)) by {
                        if product.take(head + 1).contains(x) {
                            let k = choose|k: int|
                                0 <= k < head + 1 && #[trigger] product.take(head + 1)[k] == x;
                            if k < head {
                                assert(product.take(head as int)[k] == x);
                            }
                        }
                        if product.take(head as int).contains(x) {
                            let k = choose|k: int|
                                0 <= k < head && #[trigger] product.take(head as int)[k] == x;
                            assert(product.take(head + 1)[k] == x);
                        }
                        if x == e {
                            assert(product.take(head + 1)[head as int] == x);
                        }
                    }
                    if is_open && !open_before.contains(e) {
                        assert(session.open@ == open_before.push(e));
                        if session.open@.contains(x) {
                            let k = choose|k: int|
                                0 <= k < session.open@.len() && session.open@[k] == x;
                            if k < open_before.len() {
                                assert(open_before[k] == x);
                            }
                        }
                        if open_before.contains(x) {
                            let k = choose|k: int|
                                0 <= k < open_before.len() && open_before[k] == x;
                            assert(session.open@[k] == x);
                        }
                        if x == e {
                            assert(session.open@.last() == x);
                        }
                    }
                }
            }
            head = head + 1;
            if session.in_flight < batch {
                match session.launch() {
                    Some(nxt) => {
                        proof {
                            assert(product.take(launched@.len() as int + 1) =~= product.take(
                                launched@.len() as int,
                            ).push(product[launched@.len() as int]));
                        }
                        launched.push(nxt);
                    },
                    None => {},
                }
            }
        }

        proof {
            assert(launched@.len() == product.len());
            assert(product.take(product.len() as int) =~= product);
            assert forall|e: Endpoint| (#[trigger] session.open@.contains(e))
                <==> self.open_result(table@, e) by {
                lemma_endpoint_seq_membership(self.ips@, ports@, e);
            }
            if self.ips@.len() == 0 {
                assert(session.open@ =~= Seq::<Endpoint>::empty()) by {
                    if session.open@.len() > 0 {
                        assert(session.open@.contains(session.open@[0]));
                    }
                }
            }
        }
        session.open
    }
}

/// Two runs of a scan against the same model of the network find the same
/// open endpoints: the open set is pinned, up to order, by the scan's
/// targets and the answering endpoints alone.
pub proof fn lemma_scan_deterministic(
    scanner: Scanner,
    table: Seq<Endpoint>,
    r1: Seq<Endpoint>,
    r2: Seq<Endpoint>,
)
    requires
        forall|e: Endpoint| r1.contains(e) <==> scanner.open_result(table, e),
        forall|e: Endpoint| r2.contains(e) <==> scanner.open_result(table, e),
    ensures
        r1.to_set() == r2.to_set(),
{
    assert(r1.to_set() =~= r2.to_set());
}

/// The batch size only paces a scan; it never changes what the scan finds.
/// Two scans of the same targets against the same model of the network
/// return the same open set, whatever batch sizes drove them.
pub proof fn lemma_batch_size_immaterial(
    s1: Scanner,
    s2: Scanner,
    table: Seq<Endpoint>,
    r1: Seq<Endpoint>,
    r2: Seq<Endpoint>,
)
    requires
        s1.ips@ == s2.ips@,
        forall|p: u16| s1.port_strategy.port_in_set(p) <==> s2.port_strategy.port_in_set(p),
        s1.exclude_ports@ == s2.exclude_ports@,
        forall|e: Endpoint| r1.contains(e) <==> s1.open_result(table, e),
        forall|e: Endpoint| r2.contains(e) <==> s2.open_result(table, e),
    ensures
        r1.to_set() == r2.to_set(),
{
    assert forall|e: Endpoint| r1.contains(e) implies r2.contains(e) by {
        assert(s1.open_result(table, e) == s2.open_result(table, e));
    }
    assert forall|e: Endpoint| r2.contains(e) implies r1.contains(e) by {
        assert(s1.open_result(table, e) == s2.open_result(table, e));
    }
    assert(r1.to_set() =~= r2.to_set());
}


} // verus!
