use vstd::prelude::*;

use crate::error::F1ServiceError;
use crate::support::{
    new_service_map, service_entries, service_map_contains, service_map_get, service_map_insert,
    service_map_keys, service_map_remove, ServiceMap,
};

verus! {

/// The registry after `start_service(port, id)`, and what the call returns.
pub open spec fn start_spec(m: Map<i32, i32>, id: i32, port: i32) -> (Map<i32, i32>, Result<(), F1ServiceError>) {
    if m.contains_key(id) {
        (m, Err(F1ServiceError::AlreadyExists))
    } else {
        (m.insert(id, port), Ok(()))
    }
}

/// The registry after `stop_service(id)`, and what the call returns.
pub open spec fn stop_spec(m: Map<i32, i32>, id: i32) -> (Map<i32, i32>, Result<i32, F1ServiceError>) {
    if m.contains_key(id) {
        (m.remove(id), Ok(m[id]))
    } else {
        (m, Err(F1ServiceError::NotActive))
    }
}

/// Process-wide registry of running services: championship id to port.
pub struct F1Service {
    services: ServiceMap,
}

impl F1Service {
    pub closed spec fn view(&self) -> Map<i32, i32> {
        service_entries(self.services)
    }

    pub fn new() -> (r: F1Service)
        ensures
            r@.dom() == Set::<i32>::empty(),
    {
        F1Service { services: new_service_map() }
    }

    /// The ids of the running services, each once.
    pub fn active_services(&self) -> (r: Vec<i32>)
        ensures
            r@.to_set() == self@.dom(),
            r@.no_duplicates(),
    {
        service_map_keys(&self.services)
    }

    pub fn service_active(&self, id: i32) -> (r: bool)
        ensures
            r == self@.contains_key(id),
    {
        service_map_contains(&self.services, id)
    }

    /// The port of a running service.
    pub fn service_port(&self, id: i32) -> (r: Option<i32>)
        ensures
            r == (if self@.contains_key(id) {
                Some(self@[id])
            } else {
                None
            }),
    {
        service_map_get(&self.services, id)
    }

    /// Registers the service of `championship_id` on `port`, unless one is running.
    pub fn start_service(&mut self, port: i32, championship_id: i32) -> (r: Result<(), F1ServiceError>)
        ensures
            (final(self)@, r) == start_spec(old(self)@, championship_id, port),
    {
        if service_map_contains(&self.services, championship_id) {
            return Err(F1ServiceError::AlreadyExists);
        }
        service_map_insert(&mut self.services, championship_id, port);
        Ok(())
    }

    /// Removes the service of `championship_id`, handing back its port.
    pub fn stop_service(&mut self, championship_id: i32) -> (r: Result<i32, F1ServiceError>)
        ensures
            (final(self)@, r) == stop_spec(old(self)@, championship_id),
    {
        match service_map_remove(&mut self.services, championship_id) {
            Some(port) => Ok(port),
            None => Err(F1ServiceError::NotActive),
        }
    }
}

/// Idempotent start: of any number of starts of one id, exactly the first
/// succeeds when no service was running; every later one is refused with
/// `AlreadyExists` and leaves the registry as it was.
pub proof fn lemma_start_idempotent(m: Map<i32, i32>, id: i32, p1: i32, p2: i32)
    ensures
        start_spec(m, id, p1).1 is Ok <==> !m.contains_key(id),
        start_spec(start_spec(m, id, p1).0, id, p2) == (
            start_spec(m, id, p1).0,
            Err::<(), F1ServiceError>(F1ServiceError::AlreadyExists),
        ),
{
}

/// The registry and the results after `start_service(ports[k], id)` for each `k` in turn.
pub open spec fn start_all(m: Map<i32, i32>, id: i32, ports: Seq<i32>) -> (
    Map<i32, i32>,
    Seq<Result<(), F1ServiceError>>,
)
    decreases ports.len(),
{
    if ports.len() == 0 {
        (m, Seq::empty())
    } else {
        let (m1, rs) = start_all(m, id, ports.drop_last());
        let (m2, r) = start_spec(m1, id, ports.last());
        (m2, rs.push(r))
    }
}

/// Exactly one start succeeds: of any number of starts of one id on a registry
/// without it, the first succeeds, every other one is refused with
/// `AlreadyExists`, and the registry ends up holding the id once, on the first
/// call's port.
pub proof fn lemma_exactly_one_start(m: Map<i32, i32>, id: i32, ports: Seq<i32>)
    requires
        !m.contains_key(id),
        ports.len() > 0,
    ensures
        start_all(m, id, ports).1.len() == ports.len(),
        start_all(m, id, ports).1[0] is Ok,
        forall|k: int|
            1 <= k < ports.len() ==> #[trigger] start_all(m, id, ports).1[k] == Err::<
                (),
                F1ServiceError,
            >(F1ServiceError::AlreadyExists),
        start_all(m, id, ports).0 == m.insert(id, ports[0]),
    decreases ports.len(),
{
    if ports.len() == 1 {
        assert(ports.drop_last().len() == 0);
    } else {
        let prev = ports.drop_last();
        lemma_exactly_one_start(m, id, prev);
        assert(prev[0] == ports[0]);
        let (m1, rs) = start_all(m, id, prev);
        assert(m1.contains_key(id));
        assert forall|k: int| 1 <= k < ports.len() implies #[trigger] start_all(m, id, ports).1[k]
            == Err::<(), F1ServiceError>(F1ServiceError::AlreadyExists) by {
            if k < prev.len() {
                assert(start_all(m, id, ports).1[k] == rs[k]);
            }
        }
    }
}

/// Port recycling: a service started and then stopped hands back the port it
/// was started on and leaves the registry as it found it.
pub proof fn lemma_start_stop_round_trip(m: Map<i32, i32>, id: i32, port: i32)
    requires
        !m.contains_key(id),
    ensures
        stop_spec(start_spec(m, id, port).0, id) == (m, Ok::<i32, F1ServiceError>(port)),
{
    assert(m.insert(id, port).remove(id) =~= m);
}

} // verus!
