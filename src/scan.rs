//! The scan dispatcher: which probe runs next under the concurrency limit,
//! what each outcome records, and the report a finished session gives.
use vstd::prelude::*;
use crate::ports::{strictly_ascending, ScanTarget};
use crate::types::{classify_connect, status_of, ConnectOutcome, PortStatus, ScanResult};

verus! {

/// The state of one port's probe.
#[derive(Clone, Copy, Debug, PartialEq, Eq, Structural)]
pub enum Slot {
    /// Not yet handed out.
    Waiting,
    /// Handed out, outcome not yet known.
    Running,
    /// Resolved, with its status and the time the probe took.
    Done(PortStatus, u64),
}

/// A probe for the caller to run: the slot it reports back to and the port to try.
#[derive(Clone, Copy, Debug, PartialEq, Eq, Structural)]
pub struct Probe {
    pub slot: usize,
    pub port: u16,
}

pub open spec fn is_running(x: Slot) -> bool {
    x is Running
}

/// How many of the first `n` slots are running.
pub open spec fn running_count(s: Seq<Slot>, n: int) -> nat
    decreases n,
{
    if n <= 0 {
        0
    } else {
        running_count(s, n - 1) + if is_running(s[n - 1]) { 1nat } else { 0nat }
    }
}

proof fn lemma_running_count_update(s: Seq<Slot>, i: int, v: Slot, n: int)
    requires
        0 <= i < s.len(),
        0 <= n <= s.len(),
    ensures
        i < n ==> running_count(s.update(i, v), n) + (if is_running(s[i]) { 1int } else { 0int })
            == running_count(s, n) + (if is_running(v) { 1int } else { 0int }),
        i >= n ==> running_count(s.update(i, v), n) == running_count(s, n),
    decreases n,
{
    if n > 0 {
        lemma_running_count_update(s, i, v, n - 1);
    }
}

proof fn lemma_running_count_none(s: Seq<Slot>, n: int)
    requires
        0 <= n <= s.len(),
        forall|i: int| 0 <= i < n ==> !is_running(#[trigger] s[i]),
    ensures
        running_count(s, n) == 0,
    decreases n,
{
    if n > 0 {
        lemma_running_count_none(s, n - 1);
    }
}

proof fn lemma_running_count_zero(s: Seq<Slot>, n: int)
    requires
        0 <= n <= s.len(),
        running_count(s, n) == 0,
    ensures
        forall|i: int| 0 <= i < n ==> !is_running(#[trigger] s[i]),
    decreases n,
{
    if n > 0 {
        lemma_running_count_zero(s, n - 1);
    }
}

/// The record that slot `i` gives in the report: its outcome once resolved,
/// else cancelled.
pub open spec fn result_at(ports: Seq<u16>, slots: Seq<Slot>, i: int) -> ScanResult {
    match slots[i] {
        Slot::Done(status, elapsed_ms) => ScanResult { port: ports[i], status, elapsed_ms },
        _ => ScanResult { port: ports[i], status: PortStatus::Cancelled, elapsed_ms: 0 },
    }
}

/// The report of a session: one record per port, in the order of the ports.
pub open spec fn report(ports: Seq<u16>, slots: Seq<Slot>) -> Seq<ScanResult> {
    Seq::new(ports.len(), |i: int| result_at(ports, slots, i))
}

/// Whether every probe has resolved.
pub open spec fn all_done(slots: Seq<Slot>) -> bool {
    forall|i: int| 0 <= i < slots.len() ==> slots[i] is Done
}

/// The ports of `results`, in order, whose status is open.
pub open spec fn open_ports_of(results: Seq<ScanResult>) -> Seq<u16>
    decreases results.len(),
{
    if results.len() == 0 {
        Seq::empty()
    } else {
        let rest = open_ports_of(results.drop_last());
        if results.last().status == PortStatus::Open {
            rest.push(results.last().port)
        } else {
            rest
        }
    }
}

/// A completed (or cancelled) scan of one target.
#[derive(Debug)]
pub struct ScanSession {
    pub target: ScanTarget,
    pub timeout_ms: u64,
    pub concurrency: usize,
    /// One record per port of the target, ascending by port.
    pub results: Vec<ScanResult>,
    pub duration_ms: u64,
    /// Set when the session ended before every probe resolved.
    pub cancelled: bool,
}

impl ScanSession {
    /// The open ports of the session, ascending.
    pub fn open_ports(&self) -> (r: Vec<u16>)
        ensures
            r@ == open_ports_of(self.results@),
    {
        let mut r: Vec<u16> = Vec::new();
        let mut i: usize = 0;
        while i < self.results.len()
            invariant
                i <= self.results@.len(),
                r@ == open_ports_of(self.results@.take(i as int)),
            decreases self.results@.len() - i,
        {
            let x = self.results[i];
            assert(self.results@.take(i + 1).drop_last() =~= self.results@.take(i as int));
            if x.status == PortStatus::Open {
                r.push(x.port);
            }
            i = i + 1;
        }
        assert(self.results@.take(i as int) =~= self.results@);
        r
    }
}

/// The dispatcher of one scan. The caller asks for probes with `next_probe`,
/// runs each, and hands its outcome to `record`; `finish` gives the session.
#[derive(Debug)]
pub struct PortScan {
    pub target: ScanTarget,
    pub timeout_ms: u64,
    /// The most probes in flight at once; at least one.
    pub limit: usize,
    /// One slot per port of the target, in the same order.
    pub slots: Vec<Slot>,
    /// Slots before `next` have been handed out, the others have not.
    pub next: usize,
    /// The number of running slots.
    pub in_flight: usize,
    pub cancelled: bool,
}

impl PortScan {
    pub open spec fn wf(&self) -> bool {
        &&& self.target.wf()
        &&& self.slots@.len() == self.target.ports@.len()
        &&& 1 <= self.limit
        &&& self.next <= self.slots@.len()
        &&& forall|i: int| 0 <= i < self.next ==> !(#[trigger] self.slots@[i] is Waiting)
        &&& forall|i: int| self.next <= i < self.slots@.len() ==> #[trigger] self.slots@[i] is Waiting
        &&& forall|i: int| 0 <= i < self.slots@.len() && #[trigger] self.slots@[i] is Done
            ==> self.slots@[i]->Done_0 != PortStatus::Cancelled
        &&& self.in_flight == running_count(self.slots@, self.slots@.len() as int)
        &&& self.in_flight <= self.limit
    }

    /// The report this scan gives if it ends now.
    pub open spec fn report_now(&self) -> Seq<ScanResult> {
        report(self.target.ports@, self.slots@)
    }

    /// Whether the scan may be reported: cancelled, or every probe resolved.
    pub open spec fn complete(&self) -> bool {
        self.cancelled || all_done(self.slots@)
    }

    /// A scan of `target` with nothing dispatched; a limit of zero is taken as one.
    pub fn new(target: ScanTarget, timeout_ms: u64, concurrency: usize) -> (s: PortScan)
        requires
            target.wf(),
        ensures
            s.wf(),
            s.target == target,
            s.timeout_ms == timeout_ms,
            s.limit == if concurrency == 0 { 1 } else { concurrency },
            s.next == 0,
            s.in_flight == 0,
            !s.cancelled,
            forall|i: int| 0 <= i < s.slots@.len() ==> s.slots@[i] == Slot::Waiting,
    {
        let n = target.ports.len();
        let mut slots: Vec<Slot> = Vec::new();
        let mut i: usize = 0;
        while i < n
            invariant
                i <= n,
                n == target.ports@.len(),
                slots@.len() == i,
                forall|j: int| 0 <= j < i ==> slots@[j] == Slot::Waiting,
                running_count(slots@, i as int) == 0,
            decreases n - i,
        {
            let ghost before = slots@;
            slots.push(Slot::Waiting);
            proof {
                assert(before =~= slots@.take(i as int));
                lemma_running_count_prefix(slots@, i as int);
                assert(running_count(slots@, i + 1) == running_count(slots@, i as int));
            }
            i = i + 1;
        }
        let limit: usize = if concurrency == 0 { 1 } else { concurrency };
        PortScan { target, timeout_ms, limit, slots, next: 0, in_flight: 0, cancelled: false }
    }

    /// Whether a probe may be handed out now: the scan is live, a port is
    /// left, and fewer than `limit` probes are in flight.
    pub open spec fn can_dispatch(&self) -> bool {
        !self.cancelled && self.next < self.slots@.len() && self.in_flight < self.limit
    }

    /// Hands out the next port in order, if the limit allows; the slot then runs.
    pub fn next_probe(&mut self) -> (r: Option<Probe>)
        requires
            old(self).wf(),
        ensures
            final(self).wf(),
            final(self).target == old(self).target,
            final(self).timeout_ms == old(self).timeout_ms,
            final(self).limit == old(self).limit,
            final(self).cancelled == old(self).cancelled,
            old(self).can_dispatch() ==> {
                &&& r == Some(Probe { slot: old(self).next, port: old(self).target.ports@[old(self).next as int] })
                &&& final(self).slots@ == old(self).slots@.update(old(self).next as int, Slot::Running)
                &&& final(self).next == old(self).next + 1
                &&& final(self).in_flight == old(self).in_flight + 1
            },
            !old(self).can_dispatch() ==> r is None && *final(self) == *old(self),
    {
        if self.cancelled || self.next >= self.slots.len() || self.in_flight >= self.limit {
            return None;
        }
        let k = self.next;
        proof {
            lemma_running_count_update(self.slots@, k as int, Slot::Running, self.slots@.len() as int);
        }
        self.slots.set(k, Slot::Running);
        self.next = k + 1;
        self.in_flight = self.in_flight + 1;
        Some(Probe { slot: k, port: self.target.ports[k] })
    }

    /// Records how the probe of `slot` ended. Only a running slot of a live
    /// scan takes an outcome; anything else is refused and changes nothing.
    pub fn record(&mut self, slot: usize, outcome: ConnectOutcome, elapsed_ms: u64) -> (accepted: bool)
        requires
            old(self).wf(),
        ensures
            final(self).wf(),
            accepted <==> !old(self).cancelled && slot < old(self).slots@.len()
                && old(self).slots@[slot as int] == Slot::Running,
            accepted ==> {
                &&& final(self).slots@ == old(self).slots@.update(slot as int, Slot::Done(status_of(outcome), elapsed_ms))
                &&& final(self).in_flight == old(self).in_flight - 1
                &&& final(self).target == old(self).target
                &&& final(self).timeout_ms == old(self).timeout_ms
                &&& final(self).limit == old(self).limit
                &&& final(self).next == old(self).next
                &&& final(self).cancelled == old(self).cancelled
            },
            !accepted ==> *final(self) == *old(self),
    {
        if self.cancelled || slot >= self.slots.len() {
            return false;
        }
        match self.slots[slot] {
            Slot::Running => {},
            _ => {
                return false;
            },
        }
        let status = classify_connect(outcome);
        proof {
            lemma_running_count_update(self.slots@, slot as int, Slot::Done(status, elapsed_ms), self.slots@.len() as int);
        }
        self.slots.set(slot, Slot::Done(status, elapsed_ms));
        self.in_flight = self.in_flight - 1;
        true
    }

    /// Cancels the scan: no further probe is handed out or recorded.
    pub fn cancel(&mut self)
        requires
            old(self).wf(),
        ensures
            final(self).wf(),
            *final(self) == (PortScan { cancelled: true, ..*old(self) }),
    {
        self.cancelled = true;
    }

    /// Whether the scan may be reported: cancelled, or every probe resolved.
    pub fn is_complete(&self) -> (r: bool)
        requires
            self.wf(),
        ensures
            r == self.complete(),
    {
        if self.cancelled {
            return true;
        }
        proof {
            if self.in_flight == 0 {
                lemma_running_count_zero(self.slots@, self.slots@.len() as int);
            }
            if all_done(self.slots@) {
                assert forall|i: int| 0 <= i < self.slots@.len() implies !is_running(#[trigger] self.slots@[i]) by {
                    assert(self.slots@[i] is Done);
                };
                lemma_running_count_none(self.slots@, self.slots@.len() as int);
                if self.next < self.slots@.len() {
                    assert(self.slots@[self.next as int] is Done);
                }
            }
        }
        self.next == self.slots.len() && self.in_flight == 0
    }

    /// Ends the scan and gives its session: one record per port in port order,
    /// each resolved port with its outcome and every other one cancelled.
    pub fn finish(self, duration_ms: u64) -> (r: ScanSession)
        requires
            self.wf(),
        ensures
            r.results@ == self.report_now(),
            r.cancelled == (self.cancelled || !all_done(self.slots@)),
            r.target == self.target,
            r.timeout_ms == self.timeout_ms,
            r.concurrency == self.limit,
            r.duration_ms == duration_ms,
    {
        let n = self.slots.len();
        let mut results: Vec<ScanResult> = Vec::new();
        let mut unresolved = false;
        let mut i: usize = 0;
        while i < n
            invariant
                self.wf(),
                n == self.slots@.len(),
                i <= n,
                results@ == report(self.target.ports@, self.slots@).take(i as int),
                unresolved <==> exists|j: int| 0 <= j < i && !(#[trigger] self.slots@[j] is Done),
            decreases n - i,
        {
            let port = self.target.ports[i];
            let x = match self.slots[i] {
                Slot::Done(status, elapsed_ms) => ScanResult { port, status, elapsed_ms },
                _ => {
                    unresolved = true;
                    ScanResult { port, status: PortStatus::Cancelled, elapsed_ms: 0 }
                },
            };
            results.push(x);
            assert(results@ =~= report(self.target.ports@, self.slots@).take(i + 1));
            i = i + 1;
        }
        assert(results@ =~= report(self.target.ports@, self.slots@));
        ScanSession {
            target: self.target,
            timeout_ms: self.timeout_ms,
            concurrency: self.limit,
            results,
            duration_ms,
            cancelled: self.cancelled || unresolved,
        }
    }
}

proof fn lemma_running_count_prefix(s: Seq<Slot>, n: int)
    requires
        0 <= n <= s.len(),
    ensures
        running_count(s, n) == running_count(s.take(n), n),
    decreases n,
{
    if n > 0 {
        lemma_running_count_prefix(s, n - 1);
        lemma_running_count_prefix(s.take(n), n - 1);
        assert(s.take(n).take(n - 1) =~= s.take(n - 1));
    }
}

/// Every port of the request appears in the report exactly once: the report
/// has one record per port of the target, a port is reported if and only if
/// it was requested, and no two records share a port.
pub proof fn lemma_report_covers_each_port_once(s: PortScan, requested: Seq<u16>)
    requires
        s.wf(),
        forall|p: u16| s.target.ports@.contains(p) <==> requested.contains(p),
    ensures
        s.report_now().len() == s.target.ports@.len(),
        forall|p: u16| (exists|i: int| 0 <= i < s.report_now().len() && #[trigger] s.report_now()[i].port == p)
            <==> requested.contains(p),
        forall|i: int, j: int|
            0 <= i < s.report_now().len() && 0 <= j < s.report_now().len()
                && #[trigger] s.report_now()[i].port == #[trigger] s.report_now()[j].port ==> i == j,
{
    let r = s.report_now();
    let ports = s.target.ports@;
    assert forall|p: u16| (exists|i: int| 0 <= i < r.len() && #[trigger] r[i].port == p) <==> requested.contains(p) by {
        if exists|i: int| 0 <= i < r.len() && #[trigger] r[i].port == p {
            let i = choose|i: int| 0 <= i < r.len() && #[trigger] r[i].port == p;
            assert(ports[i] == p);
        }
        if ports.contains(p) {
            let i = choose|i: int| 0 <= i < ports.len() && ports[i] == p;
            assert(r[i].port == p);
        }
    };
    assert forall|i: int, j: int|
        0 <= i < r.len() && 0 <= j < r.len() && #[trigger] r[i].port == #[trigger] r[j].port implies i == j by {
        assert(r[i].port == ports[i] && r[j].port == ports[j]);
    };
}

/// The report is ordered by port, ascending, and its order of ports does not
/// depend on the concurrency limit or on the order in which probes resolved:
/// two scans of the same ports report the same sequence of ports.
pub proof fn lemma_report_order_independent_of_concurrency(a: PortScan, b: PortScan)
    requires
        a.wf(),
        b.wf(),
        a.target.ports@ == b.target.ports@,
    ensures
        a.report_now().len() == b.report_now().len(),
        forall|i: int| 0 <= i < a.report_now().len() ==> #[trigger] a.report_now()[i].port == b.report_now()[i].port,
        forall|i: int, j: int|
            0 <= i < j < a.report_now().len() ==> #[trigger] a.report_now()[i].port < #[trigger] a.report_now()[j].port,
{
    assert forall|i: int, j: int|
        0 <= i < j < a.report_now().len() implies #[trigger] a.report_now()[i].port < #[trigger] a.report_now()[j].port by {
        assert(a.report_now()[i].port == a.target.ports@[i]);
        assert(a.report_now()[j].port == a.target.ports@[j]);
    };
}

/// Cancelling a scan part way through leaves it reportable; its report still
/// has one record per port, each port resolved before the cancellation keeps
/// its status and duration, and each other port is reported as cancelled.
pub proof fn lemma_cancel_keeps_resolved(s: PortScan, c: PortScan)
    requires
        s.wf(),
        c == (PortScan { cancelled: true, ..s }),
    ensures
        c.wf(),
        c.complete(),
        c.report_now().len() == s.target.ports@.len(),
        forall|i: int| 0 <= i < s.slots@.len() ==> (#[trigger] c.report_now()[i]).port == s.target.ports@[i],
        forall|i: int| 0 <= i < s.slots@.len() && (#[trigger] s.slots@[i]) is Done ==> {
            &&& c.report_now()[i].status == s.slots@[i]->Done_0
            &&& c.report_now()[i].elapsed_ms == s.slots@[i]->Done_1
            &&& c.report_now()[i].status != PortStatus::Cancelled
        },
        forall|i: int| 0 <= i < s.slots@.len() && !((#[trigger] s.slots@[i]) is Done)
            ==> c.report_now()[i].status == PortStatus::Cancelled,
{
}

} // verus!
