//! Entity identifiers.
use vstd::prelude::*;

verus! {

/// Identifies an entity: the index of its slot and the generation of that
/// slot, which tells apart entities that reused the same slot.
///
/// Entities are ordered by generation, then by index (the order of
/// [`Entity::to_bits`]).
#[derive(Clone, Copy, Debug, PartialEq, Eq, Hash, Structural)]
pub struct Entity {
    index: u32,
    generation: u32,
}

/// The index of the placeholder entity.
pub const PLACEHOLDER_INDEX: u32 = 0xffff_fffe;

impl Entity {
    /// The index of the entity's slot.
    pub closed spec fn index_spec(&self) -> u32 {
        self.index
    }

    /// The generation of the entity's slot.
    pub closed spec fn generation_spec(&self) -> u32 {
        self.generation
    }

    /// The position of the entity in the order of entities: generation first,
    /// then index.
    pub open spec fn key(&self) -> int {
        self.generation_spec() * 0x1_0000_0000 + self.index_spec()
    }

    /// A meaningless entity, used where an entity must be stored but none is
    /// known yet.
    pub open spec fn placeholder_spec() -> Entity {
        Entity::from_parts_spec(PLACEHOLDER_INDEX, 0)
    }

    /// The entity with the given index and generation.
    pub closed spec fn from_parts_spec(index: u32, generation: u32) -> Entity {
        Entity { index, generation }
    }

    /// Creates the entity with the given index and generation.
    pub fn from_index_and_generation(index: u32, generation: u32) -> (r: Entity)
        ensures
            r == Entity::from_parts_spec(index, generation),
            r.index_spec() == index,
            r.generation_spec() == generation,
    {
        Entity { index, generation }
    }

    /// A meaningless entity, used where an entity must be stored but none is
    /// known yet.
    pub fn placeholder() -> (r: Entity)
        ensures
            r == Entity::placeholder_spec(),
            r.index_spec() == PLACEHOLDER_INDEX,
            r.generation_spec() == 0,
    {
        Entity { index: PLACEHOLDER_INDEX, generation: 0 }
    }

    /// Returns the index of the entity's slot.
    pub fn index(&self) -> (r: u32)
        ensures
            r == self.index_spec(),
    {
        self.index
    }

    /// Returns the generation of the entity's slot.
    pub fn generation(&self) -> (r: u32)
        ensures
            r == self.generation_spec(),
    {
        self.generation
    }

    /// Packs the entity into 64 bits: the generation in the high half, the
    /// index in the low half.
    pub fn to_bits(&self) -> (r: u64)
        ensures
            r == self.key(),
    {
        let g = self.generation as u64;
        let i = self.index as u64;
        assert(((g << 32u64) | i) == g * 0x1_0000_0000 + i) by (bit_vector)
            requires
                g < 0x1_0000_0000,
                i < 0x1_0000_0000,
        ;
        (g << 32u64) | i
    }

    /// Returns whether `self` comes before `other`, or is `other`, in the
    /// order of entities.
    pub fn le(&self, other: &Entity) -> (r: bool)
        ensures
            r == (self.key() <= other.key()),
    {
        self.generation < other.generation || (self.generation == other.generation && self.index
            <= other.index)
    }

    /// Distinct entities have distinct keys.
    pub proof fn lemma_key_injective(a: Entity, b: Entity)
        ensures
            a.key() == b.key() <==> a == b,
    {
    }
}

} // verus!
