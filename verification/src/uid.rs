//! Identifiers of nodes and definitions, and the addresses derived from them.

use rand::rngs::SmallRng;
use rand::{RngCore, SeedableRng};
use vstd::prelude::*;
use vstd::set_lib::FiniteRange;

verus! {

/// The small random number generator of the `rand` crate. Nothing is known of
/// what is inside.
#[verifier::external_type_specification]
#[verifier::external_body]
pub struct ExSmallRng(SmallRng);

/// A token that names a node or a definition. Tokens are compared by value.
#[derive(Clone, Copy, Debug, PartialEq, Eq, Hash)]
pub struct Uid(pub u32);

#[derive(Clone, Copy, Debug, PartialEq, Eq, Hash)]
pub struct FuncId(pub Uid);

#[derive(Clone, Copy, Debug, PartialEq, Eq, Hash)]
pub struct ComponentId(pub Uid);

/// The source of the tokens that a rack proposes for its new nodes.
pub struct UidGen {
    cur: SmallRng,
}

/// `SmallRng::from_seed` of the `rand` crate, with a seed of zeros. Nothing is
/// claimed of the generator that comes back.
#[verifier::external_body]
fn seeded_rng() -> (rng: SmallRng) {
    SmallRng::from_seed([0; 16])
}

/// `RngCore::next_u32` of the `rand` crate, on its small generator. Nothing is
/// claimed of the number drawn: which algorithm runs depends on the machine.
#[verifier::external_body]
fn rng_next_u32(rng: &mut SmallRng) -> (drawn: u32) {
    rng.next_u32()
}

impl Uid {
    pub fn new(inner: u32) -> (uid: Uid)
        ensures
            uid.0 == inner,
    {
        Uid(inner)
    }

    pub fn to_u32(self) -> (inner: u32)
        ensures
            inner == self.0,
    {
        self.0
    }
}

impl UidGen {
    pub fn new() -> UidGen {
        UidGen { cur: seeded_rng() }
    }

    /// Proposes a token. Any token may come: the caller has to see that it is
    /// not in use.
    pub fn next(&mut self) -> Uid {
        Uid(rng_next_u32(&mut self.cur))
    }
}

/// The number of the instance that the top-level definition runs in. Every
/// call of a definition, at every place in the nesting of calls, makes an
/// instance with a number of its own.
pub const ROOT: u32 = 0;

/// The address of the statement `id` inside the instance `inst`: the key under
/// which the state of a node instance is kept, and under which a call finds the
/// instance that it makes.
pub open spec fn spec_node_key(inst: u32, id: u32) -> u64 {
    (inst * 0x1_0000_0000 + id) as u64
}

/// The key under which the cache holds the output `port` of the statement at
/// the address `node`.
pub open spec fn spec_slot_key(node: u64, port: usize) -> u128 {
    (node * 0x1_0000_0000_0000_0000 + port) as u128
}

pub fn node_key(inst: u32, id: Uid) -> (key: u64)
    ensures
        key == spec_node_key(inst, id.0),
{
    (inst as u64) * 0x1_0000_0000u64 + id.0 as u64
}

pub fn slot_key(node: u64, port: usize) -> (key: u128)
    ensures
        key == spec_slot_key(node, port),
{
    (node as u128) * 0x1_0000_0000_0000_0000u128 + port as u128
}

/// The instance that an address belongs to.
pub open spec fn spec_instance_of(addr: u64) -> u32 {
    (addr / 0x1_0000_0000) as u32
}

/// Different statements, and the same statement in different instances, have
/// different addresses.
pub proof fn lemma_node_key_injective(inst: u32, id: u32, other_inst: u32, other_id: u32)
    requires
        spec_node_key(inst, id) == spec_node_key(other_inst, other_id),
    ensures
        inst == other_inst,
        id == other_id,
        spec_instance_of(spec_node_key(inst, id)) == inst,
{
}

/// Different outputs have different keys in the cache.
pub proof fn lemma_slot_key_injective(node: u64, port: usize, other_node: u64, other_port: usize)
    requires
        spec_slot_key(node, port) == spec_slot_key(other_node, other_port),
    ensures
        node == other_node,
        port == other_port,
{
}

/// How many keys the cache can hold.
pub open spec fn key_space() -> int {
    u128::MAX + 1
}

/// A finite set of keys has at most `key_space()` members.
pub proof fn lemma_key_space(s: Set<u128>)
    requires
        s.finite(),
    ensures
        s.len() <= key_space(),
{
    broadcast use vstd::set::group_set_axioms;

    let all = Set::<u128>::full();
    u128::range_properties(u128::MIN, u128::MAX);
    assert(all == Set::<u128>::range_inclusive(u128::MIN, u128::MAX));
    assert(s.subset_of(all));
    vstd::set_lib::lemma_len_subset(s, all);
}

} // verus!
