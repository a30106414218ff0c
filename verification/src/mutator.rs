//! Allocation semantics and the mapping from each semantic to the allocator
//! that serves it. The page-protecting plan does not sort objects by size or
//! kind: every semantic goes to the one large-object allocator.

use enum_map::EnumMap;
use vstd::prelude::*;

verus! {

/// What a mutator asks of the memory that it allocates.
#[derive(Clone, Copy, Debug, PartialEq, Eq, Structural)]
pub enum AllocationSemantics {
    Default,
    Immortal,
    Los,
    Code,
    ReadOnly,
    LargeCode,
    NonMoving,
}

/// How many allocation semantics there are.
pub const SEMANTICS_COUNT: u8 = 7;

impl AllocationSemantics {
    /// The place of the semantic in declaration order.
    pub open spec fn spec_index(self) -> u8 {
        match self {
            AllocationSemantics::Default => 0,
            AllocationSemantics::Immortal => 1,
            AllocationSemantics::Los => 2,
            AllocationSemantics::Code => 3,
            AllocationSemantics::ReadOnly => 4,
            AllocationSemantics::LargeCode => 5,
            AllocationSemantics::NonMoving => 6,
        }
    }

    /// The place of the semantic in declaration order, which is its key in an
    /// allocator mapping.
    pub fn index(&self) -> (r: u8)
        ensures
            r == self.spec_index(),
            r < SEMANTICS_COUNT,
    {
        match self {
            AllocationSemantics::Default => 0,
            AllocationSemantics::Immortal => 1,
            AllocationSemantics::Los => 2,
            AllocationSemantics::Code => 3,
            AllocationSemantics::ReadOnly => 4,
            AllocationSemantics::LargeCode => 5,
            AllocationSemantics::NonMoving => 6,
        }
    }
}

/// Which allocator of a mutator serves a request: the kind of allocator and
/// its number among the allocators of that kind.
#[derive(Clone, Copy, Debug, PartialEq, Eq, Structural)]
pub enum AllocatorSelector {
    BumpPointer(u8),
    LargeObject(u8),
    Malloc(u8),
    /// No allocator serves the request.
    Unmapped,
}

impl Default for AllocatorSelector {
    fn default() -> (r: AllocatorSelector)
        ensures
            r == AllocatorSelector::Unmapped,
    {
        AllocatorSelector::Unmapped
    }
}

/// A table of allocator selectors, held in an `enum_map::EnumMap` with one
/// slot for each `u8` key.
#[verifier::external_body]
pub struct AllocatorMapping {
    table: EnumMap<u8, AllocatorSelector>,
}

/// What the slots of a selector table hold, by key.
pub uninterp spec fn table_slots(mapping: AllocatorMapping) -> Map<u8, AllocatorSelector>;

/// `EnumMap::default`: the table has a slot for every key, and every slot
/// holds the default selector.
#[verifier::external_body]
fn table_new() -> (mapping: AllocatorMapping)
    ensures
        forall|key: u8| #[trigger]
            table_slots(mapping).contains_key(key) && table_slots(mapping)[key] == AllocatorSelector::Unmapped,
{
    AllocatorMapping { table: EnumMap::default() }
}

/// `IndexMut::index_mut` of `EnumMap`, assigned through: the slot of `key`
/// holds `selector` afterwards, and the other slots are as before.
#[verifier::external_body]
fn table_set(mapping: &mut AllocatorMapping, key: u8, selector: AllocatorSelector)
    ensures
        table_slots(*final(mapping)) == table_slots(*old(mapping)).insert(key, selector),
{
    mapping.table[key] = selector;
}

/// `Index::index` of `EnumMap`: what the slot of `key` holds.
#[verifier::external_body]
fn table_get(mapping: &AllocatorMapping, key: u8) -> (selector: AllocatorSelector)
    ensures
        selector == table_slots(*mapping)[key],
{
    mapping.table[key]
}

impl AllocatorMapping {
    /// The allocator that serves `semantics`.
    pub open spec fn selector(self, semantics: AllocationSemantics) -> AllocatorSelector {
        table_slots(self)[semantics.spec_index()]
    }

    /// Every semantic is served by the first large-object allocator, and the
    /// keys that stand for no semantic are unmapped.
    pub open spec fn routes_all_to_large_objects(self) -> bool {
        forall|key: u8| #[trigger]
            table_slots(self).contains_key(key) && table_slots(self)[key] == if key < SEMANTICS_COUNT {
                AllocatorSelector::LargeObject(0)
            } else {
                AllocatorSelector::Unmapped
            }
    }

    /// The allocator that serves `semantics`.
    pub fn get(&self, semantics: AllocationSemantics) -> (r: AllocatorSelector)
        ensures
            r == self.selector(semantics),
    {
        table_get(self, semantics.index())
    }
}

/// The allocator mapping of the page-protecting plan: a total function that
/// sends every semantic to the first large-object allocator.
pub fn create_allocator_mapping() -> (mapping: AllocatorMapping)
    ensures
        mapping.routes_all_to_large_objects(),
{
    let mut mapping = table_new();
    let mut key: u8 = 0;
    while key < SEMANTICS_COUNT
        invariant
            key <= SEMANTICS_COUNT,
            forall|k: u8| #[trigger]
                table_slots(mapping).contains_key(k) && table_slots(mapping)[k] == if k < key {
                    AllocatorSelector::LargeObject(0)
                } else {
                    AllocatorSelector::Unmapped
                },
        decreases SEMANTICS_COUNT - key,
    {
        table_set(&mut mapping, key, AllocatorSelector::LargeObject(0));
        key += 1;
    }
    mapping
}

/// In the mapping of the page-protecting plan every semantic has the same
/// allocator.
pub proof fn lemma_mapping_is_constant(mapping: AllocatorMapping, semantics: AllocationSemantics)
    requires
        mapping.routes_all_to_large_objects(),
    ensures
        mapping.selector(semantics) == AllocatorSelector::LargeObject(0),
{
    assert(table_slots(mapping).contains_key(semantics.spec_index()));
}

} // verus!
