use vstd::prelude::*;

use ahash::{AHashMap, AHashSet};
use bit_set::BitSet;
use dashmap::DashMap;

use crate::firewall::FirewallRule;
use ring::rand::SecureRandom;

verus! {

/// When a car's lap history was last emitted, with that lap's three sector times.
pub type LapMark = (u64, u32, u32, u32);

#[verifier::external_type_specification]
#[verifier::external_body]
#[verifier::reject_recursive_types(K)]
#[verifier::reject_recursive_types(V)]
#[verifier::reject_recursive_types(S)]
pub struct ExAHashMap<K, V, S>(ahash::AHashMap<K, V, S>);

#[verifier::external_type_specification]
#[verifier::external_body]
pub struct ExRandomState(ahash::RandomState);

/// Per-car lap marks, keyed by car index.
pub type LapMap = AHashMap<u8, LapMark>;

/// What a per-car lap map holds.
pub uninterp spec fn lap_marks(m: AHashMap<u8, LapMark>) -> Map<u8, LapMark>;

/// Relies on ahash::AHashMap::with_capacity: a new map is empty.
#[verifier::external_body]
pub(crate) fn new_lap_map() -> (map: LapMap)
    ensures
        lap_marks(map).dom() == Set::<u8>::empty(),
{
    AHashMap::with_capacity(20)
}

/// Relies on ahash::AHashMap::get: the value stored under `car`, if any.
#[verifier::external_body]
pub(crate) fn lap_mark(m: &LapMap, car: u8) -> (r: Option<LapMark>)
    ensures
        r == (if lap_marks(*m).contains_key(car) {
            Some(lap_marks(*m)[car])
        } else {
            None
        }),
{
    m.get(&car).copied()
}

/// Relies on ahash::AHashMap::insert: `car` maps to `mark` afterwards, other keys keep theirs.
#[verifier::external_body]
pub(crate) fn set_lap_mark(m: &mut LapMap, car: u8, mark: LapMark)
    ensures
        lap_marks(*final(m)) == lap_marks(*old(m)).insert(car, mark),
{
    m.insert(car, mark);
}

#[verifier::external_type_specification]
#[verifier::external_body]
#[verifier::reject_recursive_types(T)]
#[verifier::reject_recursive_types(S)]
pub struct ExAHashSet<T, S>(ahash::AHashSet<T, S>);

/// A set of ports.
pub type PortSet = AHashSet<i32>;

/// What a port set holds.
pub uninterp spec fn port_set(s: PortSet) -> Set<i32>;

/// Relies on ahash::AHashSet::new: a new set is empty.
#[verifier::external_body]
pub(crate) fn new_port_set() -> (set: PortSet)
    ensures
        port_set(set) == Set::<i32>::empty(),
{
    AHashSet::new()
}

/// Relies on std's HashSet::contains, reached through ahash::AHashSet's Deref.
#[verifier::external_body]
pub(crate) fn port_set_contains(s: &PortSet, port: i32) -> (r: bool)
    ensures
        r == port_set(*s).contains(port),
{
    s.contains(&port)
}

/// Relies on std's HashSet::insert, reached through ahash::AHashSet's DerefMut.
#[verifier::external_body]
pub(crate) fn port_set_insert(s: &mut PortSet, port: i32)
    ensures
        port_set(*final(s)) == port_set(*old(s)).insert(port),
{
    s.insert(port);
}

/// Relies on std's HashSet::remove, reached through ahash::AHashSet's DerefMut.
#[verifier::external_body]
pub(crate) fn port_set_remove(s: &mut PortSet, port: i32)
    ensures
        port_set(*final(s)) == port_set(*old(s)).remove(port),
{
    s.remove(&port);
}

#[verifier::external_type_specification]
#[verifier::external_body]
#[verifier::reject_recursive_types(B)]
pub struct ExBitSet<B>(bit_set::BitSet<B>);

/// What a bit set holds.
pub uninterp spec fn bits_of(s: BitSet) -> Set<usize>;

/// Relies on bit_set::BitSet::new: a new set is empty.
#[verifier::external_body]
pub(crate) fn new_bit_set() -> (set: BitSet)
    ensures
        bits_of(set) == Set::<usize>::empty(),
{
    BitSet::new()
}

/// Relies on bit_set::BitSet::insert: `value` is held afterwards, and the call
/// answers whether it was new. The set grows to hold `value`, so it is kept
/// below 2^31.
#[verifier::external_body]
pub(crate) fn bit_set_insert(s: &mut BitSet, value: usize) -> (r: bool)
    requires
        value < 0x8000_0000,
    ensures
        r == !bits_of(*old(s)).contains(value),
        bits_of(*final(s)) == bits_of(*old(s)).insert(value),
{
    s.insert(value)
}

/// Relies on ring::rand::SystemRandom::fill: the buffer keeps its length; its
/// bytes come from the operating system's generator. `false` when it failed.
#[verifier::external_body]
pub(crate) fn fill_random(buf: &mut Vec<u8>) -> (r: bool)
    ensures
        final(buf)@.len() == old(buf)@.len(),
{
    ring::rand::SystemRandom::new().fill(buf.as_mut_slice()).is_ok()
}

#[verifier::external_type_specification]
#[verifier::external_body]
#[verifier::reject_recursive_types(K)]
#[verifier::reject_recursive_types(V)]
#[verifier::reject_recursive_types(S)]
pub struct ExDashMap<K, V, S>(dashmap::DashMap<K, V, S>);

/// Running services: championship id to the port its socket is bound to.
pub type ServiceMap = DashMap<i32, i32>;

/// What a service map holds.
pub uninterp spec fn service_entries(m: ServiceMap) -> Map<i32, i32>;

/// Relies on dashmap::DashMap::with_capacity: a new map is empty.
#[verifier::external_body]
pub(crate) fn new_service_map() -> (map: ServiceMap)
    ensures
        service_entries(map).dom() == Set::<i32>::empty(),
{
    DashMap::with_capacity(100)
}

/// Relies on dashmap::DashMap::contains_key.
#[verifier::external_body]
pub(crate) fn service_map_contains(m: &ServiceMap, id: i32) -> (r: bool)
    ensures
        r == service_entries(*m).contains_key(id),
{
    m.contains_key(&id)
}

/// Relies on dashmap::DashMap::get: the value under `id`, copied out.
#[verifier::external_body]
pub(crate) fn service_map_get(m: &ServiceMap, id: i32) -> (r: Option<i32>)
    ensures
        r == (if service_entries(*m).contains_key(id) {
            Some(service_entries(*m)[id])
        } else {
            None
        }),
{
    m.get(&id).map(|entry| *entry.value())
}

/// Relies on dashmap::DashMap::insert: `id` maps to `port` afterwards, other keys keep theirs.
#[verifier::external_body]
pub(crate) fn service_map_insert(m: &mut ServiceMap, id: i32, port: i32)
    ensures
        service_entries(*final(m)) == service_entries(*old(m)).insert(id, port),
{
    m.insert(id, port);
}

/// Relies on dashmap::DashMap::remove: `id` is gone afterwards; its value is handed back.
#[verifier::external_body]
pub(crate) fn service_map_remove(m: &mut ServiceMap, id: i32) -> (r: Option<i32>)
    ensures
        service_entries(*final(m)) == service_entries(*old(m)).remove(id),
        r == (if service_entries(*old(m)).contains_key(id) {
            Some(service_entries(*old(m))[id])
        } else {
            None
        }),
{
    m.remove(&id).map(|entry| entry.1)
}

/// Relies on dashmap::DashMap::iter: every key once, in no particular order.
#[verifier::external_body]
pub(crate) fn service_map_keys(m: &ServiceMap) -> (r: Vec<i32>)
    ensures
        r@.to_set() == service_entries(*m).dom(),
        r@.no_duplicates(),
{
    m.iter().map(|entry| *entry.key()).collect()
}

/// Firewall rules by championship id.
pub type RuleMap = AHashMap<i32, FirewallRule>;

/// What a rule map holds.
pub uninterp spec fn rule_table(m: RuleMap) -> Map<i32, FirewallRule>;

/// Relies on ahash::AHashMap::with_capacity: a new map is empty.
#[verifier::external_body]
pub(crate) fn new_rule_map() -> (map: RuleMap)
    ensures
        rule_table(map).dom() == Set::<i32>::empty(),
{
    AHashMap::with_capacity(10)
}

/// Relies on std's HashMap::contains_key, reached through ahash::AHashMap's Deref.
#[verifier::external_body]
pub(crate) fn rule_map_contains(m: &RuleMap, id: i32) -> (r: bool)
    ensures
        r == rule_table(*m).contains_key(id),
{
    m.contains_key(&id)
}

/// Relies on ahash::AHashMap::get: the rule stored under `id`, if any.
#[verifier::external_body]
pub(crate) fn rule_map_get(m: &RuleMap, id: i32) -> (r: Option<&FirewallRule>)
    ensures
        r == (if rule_table(*m).contains_key(id) {
            Some(&rule_table(*m)[id])
        } else {
            None
        }),
{
    m.get(&id)
}

/// Relies on ahash::AHashMap::insert: `id` maps to `rule` afterwards, other keys keep theirs.
#[verifier::external_body]
pub(crate) fn rule_map_insert(m: &mut RuleMap, id: i32, rule: FirewallRule)
    ensures
        rule_table(*final(m)) == rule_table(*old(m)).insert(id, rule),
{
    m.insert(id, rule);
}

/// Relies on ahash::AHashMap::remove: `id` is gone afterwards; its rule is handed back.
#[verifier::external_body]
pub(crate) fn rule_map_remove(m: &mut RuleMap, id: i32) -> (r: Option<FirewallRule>)
    ensures
        rule_table(*final(m)) == rule_table(*old(m)).remove(id),
        r == (if rule_table(*old(m)).contains_key(id) {
            Some(rule_table(*old(m))[id])
        } else {
            None
        }),
{
    m.remove(&id)
}

/// Relies on std's HashMap::keys, reached through ahash::AHashMap's Deref: every key once.
#[verifier::external_body]
pub(crate) fn rule_map_ids(m: &RuleMap) -> (r: Vec<i32>)
    ensures
        r@.to_set() == rule_table(*m).dom(),
        r@.no_duplicates(),
{
    m.keys().copied().collect()
}

} // verus!
