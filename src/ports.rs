use vstd::prelude::*;

use std::collections::VecDeque;
use std::ops::Range;

use crate::support::{
    new_port_set, port_set, port_set_contains, port_set_insert, port_set_remove, PortSet,
};

verus! {

/// First port of the range the services bind to by default.
pub const PORTS_START: i32 = 27700;
/// One past the last port of the range.
pub const PORTS_END: i32 = 27800;


/// The ports among the `n` from `start` on that `used` does not hold, in ascending order.
pub open spec fn free_ports(used: Set<i32>, start: i32, n: int) -> Seq<i32>
    decreases n,
{
    if n <= 0 {
        Seq::empty()
    } else {
        let s = free_ports(used, start, n - 1);
        let p = (start + n - 1) as i32;
        if used.contains(p) {
            s
        } else {
            s.push(p)
        }
    }
}

/// Leases UDP ports from a fixed range: a FIFO of free ports and the set of leased ones.
pub struct MachinePorts {
    ports: VecDeque<i32>,
    used_ports: PortSet,
    range: Range<i32>,
}

impl MachinePorts {
    /// The free ports, in the order they will be leased.
    pub closed spec fn free(&self) -> Seq<i32> {
        self.ports@
    }

    /// The ports currently leased.
    pub closed spec fn leased(&self) -> Set<i32> {
        port_set(self.used_ports)
    }

    pub closed spec fn start(&self) -> i32 {
        self.range.start
    }

    pub closed spec fn end(&self) -> i32 {
        self.range.end
    }

    pub open spec fn in_range(&self, p: i32) -> bool {
        self.start() <= p < self.end()
    }

    /// No free port is free twice or leased; every port of the range is either
    /// free or leased, and no other port is.
    pub open spec fn wf(&self) -> bool {
        &&& self.free().no_duplicates()
        &&& forall|i: int| 0 <= i < self.free().len() ==> !self.leased().contains(#[trigger] self.free()[i])
        &&& forall|p: i32| #![trigger self.free().contains(p)] self.free().contains(p) ==> self.in_range(p)
        &&& forall|p: i32| #![trigger self.leased().contains(p)] self.leased().contains(p) ==> self.in_range(p)
        &&& forall|p: i32|
            #![trigger self.in_range(p)]
            self.in_range(p) ==> self.free().contains(p) || self.leased().contains(p)
    }

    /// Seeds the free FIFO with the ports of `range` that `ports_used` does not hold.
    pub fn new(range: Range<i32>, ports_used: &Vec<i32>) -> (r: MachinePorts)
        requires
            range.start <= range.end,
        ensures
            r.wf(),
            r.start() == range.start,
            r.end() == range.end,
            r.leased() == Set::new(|p: i32| range.start <= p < range.end && ports_used@.contains(p)),
            r.free() == free_ports(r.leased(), range.start, range.end - range.start),
    {
        let start = range.start;
        let end = range.end;
        let mut used_ports = new_port_set();
        let mut i: usize = 0;
        while i < ports_used.len()
            invariant
                i <= ports_used@.len(),
                port_set(used_ports) == Set::new(
                    |p: i32| start <= p < end && ports_used@.subrange(0, i as int).contains(p),
                ),
            decreases ports_used@.len() - i,
        {
            let p = ports_used[i];
            let ghost before = port_set(used_ports);
            if start <= p && p < end {
                port_set_insert(&mut used_ports, p);
            }
            i = i + 1;
            proof {
                let sub = ports_used@.subrange(0, i as int);
                assert(sub =~= ports_used@.subrange(0, i - 1).push(p));
                assert(port_set(used_ports) =~= Set::new(
                    |q: i32| start <= q < end && sub.contains(q),
                )) by {
                    let prev = ports_used@.subrange(0, i - 1);
                    assert forall|q: i32| sub.contains(q) == (prev.contains(q) || q == p) by {
                        if q == p {
                            assert(sub[i - 1] == p);
                        }
                        if prev.contains(q) {
                            let k = choose|k: int| 0 <= k < prev.len() && #[trigger] prev[k] == q;
                            assert(sub[k] == q);
                        }
                    }
                }
            }
        }
        assert(ports_used@.subrange(0, ports_used@.len() as int) =~= ports_used@);
        let ghost used = port_set(used_ports);
        let mut ports: VecDeque<i32> = VecDeque::with_capacity(100);
        let mut port: i32 = start;
        while port < end
            invariant
                start <= port <= end,
                port_set(used_ports) == used,
                forall|q: i32| used.contains(q) ==> start <= q < end,
                ports@ == free_ports(used, start, (port - start) as int),
                ports@.no_duplicates(),
                forall|k: int| 0 <= k < ports@.len() ==> start <= #[trigger] ports@[k] < port
                    && !used.contains(ports@[k]),
                forall|q: i32| start <= q < port && !used.contains(q) ==> ports@.contains(q),
            decreases end - port,
        {
            let ghost before = ports@;
            if !port_set_contains(&used_ports, port) {
                ports.push_back(port);
                assert(ports@[before.len() as int] == port);
            }
            port = port + 1;
            proof {
                assert forall|q: i32| start <= q < port && !used.contains(q) implies ports@.contains(q) by {
                    if q < port - 1 {
                        let k = choose|k: int| 0 <= k < before.len() && before[k] == q;
                        assert(ports@[k] == q);
                    }
                }
            }
        }
        let r = MachinePorts { ports, used_ports, range };
        r
    }

    /// Leases the free port at the head of the FIFO; `None` when every port is leased.
    pub fn next(&mut self) -> (r: Option<i32>)
        requires
            old(self).wf(),
        ensures
            final(self).wf(),
            final(self).start() == old(self).start(),
            final(self).end() == old(self).end(),
            old(self).free().len() == 0 ==> r is None && final(self).free() == old(self).free()
                && final(self).leased() == old(self).leased(),
            old(self).free().len() > 0 ==> r == Some(old(self).free()[0])
                && final(self).free() == old(self).free().drop_first()
                && final(self).leased() == old(self).leased().insert(old(self).free()[0]),
    {
        match self.ports.pop_front() {
            None => {
                assert(self.free() == old(self).free() && self.leased() == old(self).leased());
                assert(self.start() == old(self).start() && self.end() == old(self).end());
                proof {
                    lemma_wf_same(old(self), self);
                }
                None
            },
            Some(port) => {
                let ghost old_free = old(self).free();
                port_set_insert(&mut self.used_ports, port);
                proof {
                    assert(old_free[0] == port);
                    assert(old_free.contains(port));
                    assert(old(self).in_range(port));
                    assert(self.start() == old(self).start() && self.end() == old(self).end());
                    assert forall|q: i32| self.free().contains(q) implies old_free.contains(q) && q != port by {
                        let k = choose|k: int| 0 <= k < self.free().len() && self.free()[k] == q;
                        assert(old_free[k + 1] == q);
                    }
                    assert forall|q: i32| self.free().contains(q) implies self.in_range(q) by {
                        assert(old_free.contains(q));
                        assert(old(self).in_range(q));
                    }
                    assert forall|q: i32| self.leased().contains(q) implies self.in_range(q) by {
                        if q != port {
                            assert(old(self).leased().contains(q));
                            assert(old(self).in_range(q));
                        }
                    }
                    assert forall|i: int| 0 <= i < self.free().len() implies !self.leased().contains(
                        #[trigger] self.free()[i],
                    ) by {
                        assert(self.free()[i] == old_free[i + 1]);
                        assert(old_free[i + 1] != old_free[0]);
                    }
                    assert(self.free() =~= old_free.drop_first());
                    assert(self.free().no_duplicates()) by {
                        assert forall|i: int, j: int|
                            0 <= i < self.free().len() && 0 <= j < self.free().len() && i != j implies self.free()[i]
                            != self.free()[j] by {
                            assert(self.free()[i] == old_free[i + 1]);
                            assert(self.free()[j] == old_free[j + 1]);
                        }
                    }
                    assert forall|q: i32| self.in_range(q) implies self.free().contains(q) || self.leased().contains(q) by {
                        assert(old(self).in_range(q));
                        if q == port {
                            assert(self.leased().contains(q));
                        } else if old_free.contains(q) {
                            let k = choose|k: int| 0 <= k < old_free.len() && old_free[k] == q;
                            assert(self.free()[k - 1] == q);
                        } else {
                            assert(old(self).leased().contains(q));
                        }
                    }
                    assert forall|q: i32| self.in_range(q) implies self.free().contains(q) || self.leased().contains(q) by {
                        assert(old(self).in_range(q));
                        if old_free.contains(q) && q != port {
                            let k = choose|k: int| 0 <= k < old_free.len() && old_free[k] == q;
                            assert(k != 0);
                            assert(self.free()[k - 1] == q);
                        }
                    }
                    assert(self.wf());
                }
                Some(port)
            },
        }
    }

    /// Returns a leased port to the back of the FIFO. A port outside the range,
    /// or one that is already free, is ignored.
    pub fn return_port(&mut self, port: i32)
        requires
            old(self).wf(),
        ensures
            final(self).wf(),
            final(self).start() == old(self).start(),
            final(self).end() == old(self).end(),
            old(self).in_range(port) && !old(self).free().contains(port) ==> final(self).free()
                == old(self).free().push(port) && final(self).leased() == old(self).leased().remove(
                port,
            ),
            !(old(self).in_range(port) && !old(self).free().contains(port)) ==> final(self).free()
                == old(self).free() && final(self).leased() == old(self).leased(),
    {
        if port < self.range.start || port >= self.range.end {
            return;
        }
        if !port_set_contains(&self.used_ports, port) {
            proof {
                assert(old(self).in_range(port));
                assert(self.free().contains(port));
            }
            return;
        }
        proof {
            if self.free().contains(port) {
                let k = choose|k: int| 0 <= k < self.free().len() && self.free()[k] == port;
                assert(!self.leased().contains(self.free()[k]));
            }
        }
        let ghost old_free = self.free();
        self.ports.push_back(port);
        port_set_remove(&mut self.used_ports, port);
        proof {
            assert(self.free() == old_free.push(port));
            assert forall|q: i32| self.leased().contains(q) implies self.in_range(q) by {
                assert(old(self).leased().contains(q));
                assert(old(self).in_range(q));
            }
            assert forall|q: i32| self.free().contains(q) implies self.in_range(q) by {
                assert(self.start() == old(self).start() && self.end() == old(self).end());
                let k = choose|k: int| 0 <= k < self.free().len() && self.free()[k] == q;
                if k < old_free.len() {
                    assert(old_free[k] == q);
                    assert(old_free.contains(q));
                    assert(old(self).in_range(q));
                }
            }
            assert forall|q: i32| self.in_range(q) implies self.free().contains(q) || self.leased().contains(q) by {
                assert(old(self).in_range(q));
                if q == port {
                    assert(self.free()[old_free.len() as int] == port);
                } else if old_free.contains(q) {
                    let k = choose|k: int| 0 <= k < old_free.len() && old_free[k] == q;
                    assert(self.free()[k] == q);
                }
            }
        }
    }
}

proof fn lemma_wf_same(a: &MachinePorts, b: &MachinePorts)
    requires
        a.wf(),
        a.free() == b.free(),
        a.leased() == b.leased(),
        a.start() == b.start(),
        a.end() == b.end(),
    ensures
        b.wf(),
{
    assert forall|q: i32| b.in_range(q) implies b.free().contains(q) || b.leased().contains(q) by {
        assert(a.in_range(q));
    }
    assert forall|q: i32| b.free().contains(q) implies b.in_range(q) by {
        assert(a.free().contains(q));
    }
    assert forall|q: i32| b.leased().contains(q) implies b.in_range(q) by {
        assert(a.leased().contains(q));
    }
}

/// Port exclusivity: in any state the leaser reaches, no port is both free and
/// leased, and no free port is listed twice.
pub proof fn lemma_port_exclusive(m: &MachinePorts, p: i32)
    requires
        m.wf(),
    ensures
        !(m.free().contains(p) && m.leased().contains(p)),
        m.free().no_duplicates(),
{
    if m.free().contains(p) {
        let k = choose|k: int| 0 <= k < m.free().len() && m.free()[k] == p;
        assert(!m.leased().contains(m.free()[k]));
    }
}

} // verus!
