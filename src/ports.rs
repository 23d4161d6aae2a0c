//! Port sets: the ports of a target, held once each and in ascending order.
use vstd::prelude::*;
use crate::types::IpAddress;

verus! {

/// Each port is larger than the one before it: ascending, and no port twice.
pub open spec fn strictly_ascending(s: Seq<u16>) -> bool {
    forall|i: int, j: int| 0 <= i < j < s.len() ==> s[i] < s[j]
}

/// The contiguous ports `min..=max` (none when `min > max`).
pub open spec fn range_seq(min: u16, max: u16) -> Seq<u16> {
    Seq::new(
        if min <= max { (max - min + 1) as nat } else { 0 },
        |i: int| (min + i) as u16,
    )
}

/// The ports `min..=max`, ascending.
pub fn port_range(min: u16, max: u16) -> (r: Vec<u16>)
    ensures
        r@ == range_seq(min, max),
        strictly_ascending(r@),
{
    let mut r: Vec<u16> = Vec::new();
    if min > max {
        proof {
            assert(r@ =~= range_seq(min, max));
        }
        return r;
    }
    let mut p: u32 = min as u32;
    while p <= max as u32
        invariant
            min <= max,
            min <= p <= max + 1,
            r@.len() == p - min,
            forall|i: int| 0 <= i < r@.len() ==> r@[i] == min + i,
        decreases max + 1 - p,
    {
        r.push(p as u16);
        p = p + 1;
    }
    proof {
        assert(r@ =~= range_seq(min, max));
    }
    r
}

/// Where `p` goes in the ascending `s`: the number of elements below it.
fn insert_position(s: &Vec<u16>, p: u16) -> (k: usize)
    requires
        strictly_ascending(s@),
    ensures
        k <= s@.len(),
        forall|i: int| 0 <= i < k ==> s@[i] < p,
        forall|i: int| k <= i < s@.len() ==> s@[i] >= p,
{
    let mut k: usize = 0;
    while k < s.len()
        invariant
            k <= s@.len(),
            strictly_ascending(s@),
            forall|i: int| 0 <= i < k ==> s@[i] < p,
        decreases s@.len() - k,
    {
        if s[k] >= p {
            return k;
        }
        k = k + 1;
    }
    k
}

/// The requested ports, each once, ascending: the same set as `list`.
pub fn normalize_ports(list: &Vec<u16>) -> (r: Vec<u16>)
    ensures
        strictly_ascending(r@),
        forall|p: u16| r@.contains(p) <==> list@.contains(p),
        r@.len() <= list@.len(),
{
    let mut r: Vec<u16> = Vec::new();
    let mut n: usize = 0;
    while n < list.len()
        invariant
            n <= list@.len(),
            strictly_ascending(r@),
            r@.len() <= n,
            forall|p: u16| r@.contains(p) <==> list@.take(n as int).contains(p),
        decreases list@.len() - n,
    {
        let p = list[n];
        let k = insert_position(&r, p);
        let ghost before = r@;
        if k < r.len() && r[k] == p {
            assert(list@.take(n + 1) =~= list@.take(n as int).push(p));
            assert(before.contains(p)) by {
                assert(before[k as int] == p);
            };
        } else {
            r.insert(k, p);
            assert(list@.take(n + 1) =~= list@.take(n as int).push(p));
            assert(r@ =~= before.take(k as int).push(p) + before.skip(k as int));
            assert forall|q: u16| r@.contains(q) <==> list@.take(n + 1).contains(q) by {
                if r@.contains(q) {
                    let j = choose|j: int| 0 <= j < r@.len() && r@[j] == q;
                    if j < k {
                        assert(before[j] == q);
                    } else if j > k {
                        assert(before[j - 1] == q);
                    }
                }
                if before.contains(q) {
                    let j = choose|j: int| 0 <= j < before.len() && before[j] == q;
                    if j < k {
                        assert(r@[j] == q);
                    } else {
                        assert(r@[j + 1] == q);
                    }
                }
                if q == p {
                    assert(r@[k as int] == p);
                }
                let ghost t0 = list@.take(n as int);
                let ghost t1 = list@.take(n + 1);
                assert(t1.contains(q) <==> (t0.contains(q) || q == p)) by {
                    if t1.contains(q) && q != p {
                        let j = choose|j: int| 0 <= j < t1.len() && #[trigger] t1[j] == q;
                        assert(t0[j] == q);
                    }
                    if t0.contains(q) {
                        let j = choose|j: int| 0 <= j < t0.len() && #[trigger] t0[j] == q;
                        assert(t1[j] == q);
                    }
                    if q == p {
                        assert(t1[n as int] == q);
                    }
                };
            };
        }
        n = n + 1;
    }
    assert(list@.take(list@.len() as int) =~= list@);
    r
}

/// A scan target: an address and the ports to probe on it.
#[derive(Debug)]
pub struct ScanTarget {
    pub address: IpAddress,
    pub ports: Vec<u16>,
}

impl ScanTarget {
    /// Each port of the target once, ascending.
    pub open spec fn wf(&self) -> bool {
        strictly_ascending(self.ports@)
    }

    /// A target over an explicit list of ports; repeats are probed once.
    pub fn from_ports(address: IpAddress, list: &Vec<u16>) -> (t: ScanTarget)
        ensures
            t.wf(),
            t.address == address,
            forall|p: u16| t.ports@.contains(p) <==> list@.contains(p),
    {
        ScanTarget { address, ports: normalize_ports(list) }
    }

    /// A target over the contiguous ports `min..=max`.
    pub fn from_range(address: IpAddress, min: u16, max: u16) -> (t: ScanTarget)
        ensures
            t.wf(),
            t.address == address,
            t.ports@ == range_seq(min, max),
    {
        ScanTarget { address, ports: port_range(min, max) }
    }

    /// How many ports the target covers.
    pub fn port_count(&self) -> (n: usize)
        ensures
            n == self.ports@.len(),
    {
        self.ports.len()
    }
}

} // verus!
