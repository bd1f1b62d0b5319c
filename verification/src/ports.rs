//! Round-robin allocation of runtime ports from a fixed contiguous range.
//!
//! The pool scans forward from a rotating cursor, wrapping at the end of
//! the range, and hands out the first free port it meets.  Scanning from
//! the cursor rather than from the lowest free port avoids re-using a
//! just-released port while its previous occupant may still be dying.

use vstd::prelude::*;
use vstd::set_lib::{lemma_int_range, lemma_len_subset, set_int_range};

verus! {

/// A pool of ports over a contiguous range, with a rotating cursor.
#[derive(Debug)]
pub struct PortPool {
    start: u16,
    end: u16,
    next: u16,
    allocated: Vec<bool>,
}

impl PortPool {
    /// Lowest port of the range.
    pub closed spec fn first_port(&self) -> u16 {
        self.start
    }

    /// Highest port of the range.
    pub closed spec fn last_port(&self) -> u16 {
        self.end
    }

    /// Where the next scan begins.
    pub closed spec fn cursor(&self) -> u16 {
        self.next
    }

    /// Whether `p` lies in the pool's range.
    pub open spec fn in_range(&self, p: int) -> bool {
        self.first_port() <= p <= self.last_port()
    }

    /// Number of ports in the range.
    pub open spec fn range_len(&self) -> int {
        self.last_port() - self.first_port() + 1
    }

    /// Whether `p` is currently handed out.
    pub closed spec fn is_allocated(&self, p: int) -> bool {
        self.in_range(p) && self.allocated@[p - self.start]
    }

    /// Every port of the range is handed out.
    pub open spec fn is_full(&self) -> bool {
        forall|q: int| self.in_range(q) ==> self.is_allocated(q)
    }

    /// Length of the forward scan, wrapping at the end of the range, that
    /// starts at `from` and reaches `to`.
    pub open spec fn cyc_dist(&self, from: int, to: int) -> int {
        if to >= from {
            to - from
        } else {
            self.range_len() - (from - to)
        }
    }

    /// Internal consistency: a non-empty range, the cursor inside it, one
    /// allocation mark per port.
    pub closed spec fn wf(&self) -> bool {
        &&& self.start <= self.end
        &&& self.start <= self.next <= self.end
        &&& self.allocated@.len() == self.range_len()
    }

    /// A pool over `[start, end]` with no port handed out and the cursor
    /// at the lowest port.
    pub fn new(start: u16, end: u16) -> (r: Self)
        requires
            start <= end,
        ensures
            r.wf(),
            r.first_port() == start,
            r.last_port() == end,
            r.cursor() == start,
            forall|q: int| !r.is_allocated(q),
    {
        let n: usize = (end - start) as usize + 1;
        let mut allocated: Vec<bool> = Vec::new();
        let mut i: usize = 0;
        while i < n
            invariant
                0 <= i <= n,
                allocated@.len() == i,
                forall|j: int| 0 <= j < i ==> !allocated@[j],
            decreases n - i,
        {
            allocated.push(false);
            i = i + 1;
        }
        PortPool { start, end, next: start, allocated }
    }

    /// A pool over the range reserved for workbook runtime servers.
    pub fn new_runtime_range() -> (r: Self)
        ensures
            r.wf(),
            r.first_port() == crate::RUNTIME_PORT_START,
            r.last_port() == crate::RUNTIME_PORT_END,
            r.cursor() == crate::RUNTIME_PORT_START,
            forall|q: int| !r.is_allocated(q),
    {
        PortPool::new(crate::RUNTIME_PORT_START, crate::RUNTIME_PORT_END)
    }

    /// Hands out the first free port at or cyclically after the cursor,
    /// marks it allocated and moves the cursor just past it.  Returns
    /// nothing exactly when every port of the range is taken.
    pub fn allocate(&mut self) -> (r: Option<u16>)
        requires
            old(self).wf(),
        ensures
            final(self).wf(),
            final(self).first_port() == old(self).first_port(),
            final(self).last_port() == old(self).last_port(),
            match r {
                Some(p) => allocate_rel(*old(self), *final(self), p),
                None => *final(self) == *old(self) && old(self).is_full(),
            },
    {
        let n: usize = (self.end - self.start) as usize + 1;
        let off: usize = (self.next - self.start) as usize;
        let ghost c = self.next as int;
        let mut k: usize = 0;
        while k < n
            invariant
                *self == *old(self),
                self.wf(),
                n == self.range_len(),
                off == self.next - self.start,
                c == self.next as int,
                0 <= k <= n,
                forall|q: int|
                    self.in_range(q) && self.cyc_dist(c, q) < k ==> self.is_allocated(q),
            decreases n - k,
        {
            let idx: usize = if off + k < n {
                off + k
            } else {
                off + k - n
            };
            let port: u16 = self.start + (idx as u16);
            proof {
                assert(self.cyc_dist(c, port as int) == k);
            }
            if !self.allocated[idx] {
                let ghost pre = *self;
                self.allocated.set(idx, true);
                self.next = if port == self.end {
                    self.start
                } else {
                    port + 1
                };
                proof {
                    assert forall|q: int| pre.in_range(q) implies (self.is_allocated(q) <==> (
                    pre.is_allocated(q) || q == port as int)) by {
                        assert(self.allocated@ == pre.allocated@.update(idx as int, true));
                    }
                    assert(allocate_rel(pre, *self, port));
                }
                return Some(port);
            }
            proof {
                assert forall|q: int|
                    self.in_range(q) && self.cyc_dist(c, q) < k + 1 implies self.is_allocated(
                    q,
                ) by {
                    if self.cyc_dist(c, q) == k {
                        assert(q == port as int);
                    }
                }
            }
            k = k + 1;
        }
        proof {
            assert forall|q: int| self.in_range(q) implies self.is_allocated(q) by {
                assert(0 <= self.cyc_dist(c, q) < n);
            }
        }
        None
    }

    /// Returns a port to the pool; a port outside the range is ignored.
    /// The cursor does not move, so the released port is reached last.
    pub fn release(&mut self, port: u16)
        requires
            old(self).wf(),
        ensures
            final(self).wf(),
            final(self).first_port() == old(self).first_port(),
            final(self).last_port() == old(self).last_port(),
            final(self).cursor() == old(self).cursor(),
            forall|q: int|
                final(self).is_allocated(q) <==> (old(self).is_allocated(q) && q != port as int),
    {
        if port >= self.start && port <= self.end {
            let idx: usize = (port - self.start) as usize;
            self.allocated.set(idx, false);
        }
    }

    /// Marks a port allocated, wherever the cursor stands; a port outside
    /// the range is ignored.
    pub fn mark_allocated(&mut self, port: u16)
        requires
            old(self).wf(),
        ensures
            final(self).wf(),
            final(self).first_port() == old(self).first_port(),
            final(self).last_port() == old(self).last_port(),
            final(self).cursor() == old(self).cursor(),
            forall|q: int|
                final(self).is_allocated(q) <==> (old(self).is_allocated(q) || (q == port as int
                    && old(self).in_range(q))),
    {
        if port >= self.start && port <= self.end {
            let idx: usize = (port - self.start) as usize;
            self.allocated.set(idx, true);
        }
    }
}

/// Everything a successful allocation promises: the port was free and in
/// range, it alone became allocated, the cursor moved just past it, and
/// every port the scan passed over (cyclically between the old cursor and
/// the port) was already taken.
pub open spec fn allocate_rel(pre: PortPool, post: PortPool, p: u16) -> bool {
    &&& pre.wf() && post.wf()
    &&& post.first_port() == pre.first_port() && post.last_port() == pre.last_port()
    &&& pre.in_range(p as int)
    &&& !pre.is_allocated(p as int)
    &&& forall|q: int|
        pre.in_range(q) ==> (post.is_allocated(q) <==> (pre.is_allocated(q) || q == p as int))
    &&& post.cursor() == if p == pre.last_port() {
        pre.first_port()
    } else {
        (p + 1) as u16
    }
    &&& forall|q: int|
        pre.in_range(q) && pre.cyc_dist(pre.cursor() as int, q) < pre.cyc_dist(
            pre.cursor() as int,
            p as int,
        ) ==> pre.is_allocated(q)
}

/// No port is handed out twice while it stays allocated: two successful
/// allocations with no release in between return different ports.
pub proof fn lemma_allocate_twice_distinct(
    s0: PortPool,
    p1: u16,
    s1: PortPool,
    p2: u16,
    s2: PortPool,
)
    requires
        allocate_rel(s0, s1, p1),
        allocate_rel(s1, s2, p2),
    ensures
        p1 != p2,
{
    assert(s1.is_allocated(p1 as int));
}

/// After `k` successful allocations from an empty pool, exactly the
/// returned ports are allocated, and the range has not changed.
proof fn lemma_alloc_run(states: Seq<PortPool>, ports: Seq<u16>, k: int)
    requires
        states.len() == ports.len() + 1,
        forall|m: int| 0 <= m < ports.len() ==> allocate_rel(states[m], states[m + 1], ports[m]),
        forall|q: int| !states[0].is_allocated(q),
        0 <= k <= ports.len(),
    ensures
        states[k].first_port() == states[0].first_port(),
        states[k].last_port() == states[0].last_port(),
        forall|q: int|
            states[k].is_allocated(q) <==> exists|j: int| 0 <= j < k && ports[j] as int == q,
    decreases k,
{
    if k > 0 {
        lemma_alloc_run(states, ports, k - 1);
        assert(allocate_rel(states[k - 1], states[k], ports[k - 1]));
        assert forall|q: int| states[k].is_allocated(q) implies exists|j: int|
            0 <= j < k && ports[j] as int == q by {
            if states[k - 1].is_allocated(q) {
                let j = choose|j: int| 0 <= j < k - 1 && ports[j] as int == q;
                assert(0 <= j < k && ports[j] as int == q);
            } else {
                assert(ports[k - 1] as int == q);
            }
        }
        assert forall|q: int| (exists|j: int| 0 <= j < k && ports[j] as int == q)
            implies states[k].is_allocated(q) by {
            let j = choose|j: int| 0 <= j < k && ports[j] as int == q;
            if j < k - 1 {
                assert(states[k - 1].is_allocated(q));
            }
        }
    }
}

/// Round-robin fairness as coverage: starting from an empty pool, a run of
/// successful allocations as long as the range is pairwise distinct and
/// visits every port of the range before any port could repeat.
pub proof fn lemma_round_robin_coverage(states: Seq<PortPool>, ports: Seq<u16>)
    requires
        states.len() == ports.len() + 1,
        forall|m: int| 0 <= m < ports.len() ==> allocate_rel(states[m], states[m + 1], ports[m]),
        forall|q: int| !states[0].is_allocated(q),
        ports.len() == states[0].range_len(),
    ensures
        forall|a: int, b: int| 0 <= a < b < ports.len() ==> ports[a] != ports[b],
        forall|p: u16|
            states[0].in_range(p as int) ==> exists|k: int|
                0 <= k < ports.len() && ports[k] == p,
{
    let n = ports.len() as int;
    assert forall|a: int, b: int| 0 <= a < b < n implies ports[a] != ports[b] by {
        lemma_alloc_run(states, ports, b);
        assert(states[b].is_allocated(ports[a] as int));
        assert(allocate_rel(states[b], states[b + 1], ports[b]));
    }
    assert forall|m: int| 0 <= m < n implies states[0].in_range(ports[m] as int) by {
        lemma_alloc_run(states, ports, m);
        assert(allocate_rel(states[m], states[m + 1], ports[m]));
    }
    let lo = states[0].first_port() as int;
    let hi = states[0].last_port() as int + 1;
    let rng = set_int_range(lo, hi);
    lemma_int_range(lo, hi);
    let iports = ports.map_values(|p: u16| p as int);
    assert(iports.no_duplicates());
    iports.unique_seq_to_set();
    assert forall|p: u16| states[0].in_range(p as int) implies exists|k: int|
        0 <= k < ports.len() && ports[k] == p by {
        if forall|k: int| 0 <= k < n ==> ports[k] != p {
            let sub = rng.remove(p as int);
            assert(rng.contains(p as int));
            assert(sub.len() == rng.len() - 1);
            assert forall|x: int| iports.to_set().contains(x) implies sub.contains(x) by {
                let a = choose|a: int| 0 <= a < iports.len() && iports[a] == x;
                assert(states[0].in_range(ports[a] as int));
                assert(ports[a] != p);
            }
            lemma_len_subset(iports.to_set(), sub);
            assert(iports.to_set().len() == n);
            assert(false);
        }
    }
}

} // verus!
