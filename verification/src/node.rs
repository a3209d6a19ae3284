//! Identifiers of the nodes of a schedule graph, and systems stored with
//! their access.
use crate::access::FilteredAccessSet;
use crate::graph::Direction;
use vstd::prelude::*;

verus! {

/// A unique identifier for a system in a schedule graph: the 64-bit form of
/// the slot key (slot index and version) that the graph's slot map assigned.
#[derive(Clone, Copy, Debug, PartialEq, Eq, Hash, PartialOrd, Ord, Structural)]
pub struct SystemKey(pub u64);

/// A unique identifier for a system set in a schedule graph: the 64-bit form
/// of its slot key.
#[derive(Clone, Copy, Debug, PartialEq, Eq, Hash, PartialOrd, Ord, Structural)]
pub struct SystemSetKey(pub u64);

impl SystemKey {
    /// Returns the key data of this key.
    pub fn data(self) -> (r: u64)
        ensures
            r == self.0,
    {
        self.0
    }
}

impl SystemSetKey {
    /// Returns the key data of this key.
    pub fn data(self) -> (r: u64)
        ensures
            r == self.0,
    {
        self.0
    }
}

/// Unique identifier for a system or system set stored in a schedule graph.
#[derive(Clone, Copy, Debug, PartialEq, Eq, Hash, PartialOrd, Ord, Structural)]
pub enum NodeId {
    /// Identifier for a system.
    System(SystemKey),
    /// Identifier for a system set.
    SystemSet(SystemSetKey),
}

impl NodeId {
    /// Returns `true` if the identified node is a system.
    pub fn is_system(&self) -> (r: bool)
        ensures
            r == (*self is System),
    {
        match self {
            NodeId::System(_) => true,
            NodeId::SystemSet(_) => false,
        }
    }

    /// Returns `true` if the identified node is a system set.
    pub fn is_set(&self) -> (r: bool)
        ensures
            r == (*self is SystemSet),
    {
        match self {
            NodeId::System(_) => false,
            NodeId::SystemSet(_) => true,
        }
    }

    /// Returns the key data of the identified node.
    pub fn key_data(&self) -> (r: u64)
        ensures
            r == node_key_data(*self),
    {
        match self {
            NodeId::System(key) => key.data(),
            NodeId::SystemSet(key) => key.data(),
        }
    }
}

/// The key data of a node identifier.
pub open spec fn node_key_data(id: NodeId) -> u64 {
    match id {
        NodeId::System(key) => key.0,
        NodeId::SystemSet(key) => key.0,
    }
}

/// The node identifier with the given key data and kind.
pub open spec fn node_from_data(key: u64, is_system: bool) -> NodeId {
    if is_system {
        NodeId::System(SystemKey(key))
    } else {
        NodeId::SystemSet(SystemSetKey(key))
    }
}

/// Compact storage of a [`NodeId`] and a [`Direction`].
#[derive(Clone, Copy, Debug, PartialEq, Eq, Hash)]
pub struct CompactNodeIdAndDirection {
    /// The key data of the node.
    pub key: u64,
    /// Whether the node is a system (or else a system set).
    pub is_system: bool,
    /// The direction.
    pub direction: Direction,
}

impl CompactNodeIdAndDirection {
    /// Packs a node identifier and a direction.
    pub fn from_node(id: NodeId, direction: Direction) -> (r: CompactNodeIdAndDirection)
        ensures
            r.key == node_key_data(id),
            r.is_system == (id is System),
            r.direction == direction,
    {
        let key = id.key_data();
        let is_system = id.is_system();
        CompactNodeIdAndDirection { key, is_system, direction }
    }

    /// Unpacks the node identifier and the direction.
    pub fn to_node(self) -> (r: (NodeId, Direction))
        ensures
            r == (node_from_data(self.key, self.is_system), self.direction),
    {
        let node = if self.is_system {
            NodeId::System(SystemKey(self.key))
        } else {
            NodeId::SystemSet(SystemSetKey(self.key))
        };
        (node, self.direction)
    }
}

/// Compact storage of a [`NodeId`] pair.
#[derive(Clone, Copy, Debug, PartialEq, Eq, Hash)]
pub struct CompactNodeIdPair {
    /// The key data of the first node.
    pub key_a: u64,
    /// The key data of the second node.
    pub key_b: u64,
    /// Whether the first node is a system.
    pub is_system_a: bool,
    /// Whether the second node is a system.
    pub is_system_b: bool,
}

impl CompactNodeIdPair {
    /// Packs a pair of node identifiers.
    pub fn from_nodes(a: NodeId, b: NodeId) -> (r: CompactNodeIdPair)
        ensures
            r.key_a == node_key_data(a),
            r.key_b == node_key_data(b),
            r.is_system_a == (a is System),
            r.is_system_b == (b is System),
    {
        CompactNodeIdPair {
            key_a: a.key_data(),
            key_b: b.key_data(),
            is_system_a: a.is_system(),
            is_system_b: b.is_system(),
        }
    }

    /// Unpacks the pair of node identifiers.
    pub fn to_nodes(self) -> (r: (NodeId, NodeId))
        ensures
            r == (node_from_data(self.key_a, self.is_system_a), node_from_data(
                self.key_b,
                self.is_system_b,
            )),
    {
        let a = if self.is_system_a {
            NodeId::System(SystemKey(self.key_a))
        } else {
            NodeId::SystemSet(SystemSetKey(self.key_a))
        };
        let b = if self.is_system_b {
            NodeId::System(SystemKey(self.key_b))
        } else {
            NodeId::SystemSet(SystemSetKey(self.key_b))
        };
        (a, b)
    }
}

/// Packing a node identifier and then unpacking it gives it back.
pub proof fn lemma_node_data_roundtrip(id: NodeId)
    ensures
        node_from_data(node_key_data(id), id is System) == id,
{
}

/// A system stored alongside the access returned from its initialization.
pub struct SystemWithAccess<S> {
    /// The system itself.
    pub system: S,
    /// The access returned by the system's initialization.
    /// This will be empty if the system has not been initialized yet.
    pub access: FilteredAccessSet,
}

impl<S> SystemWithAccess<S> {
    /// Constructs a new [`SystemWithAccess`] from a system.
    /// The `access` will initially be empty.
    pub fn new(system: S) -> (r: SystemWithAccess<S>)
        ensures
            r.system == system,
            r.access.wf(),
            r.access.accesses().len() == 0,
            r.access.combined().is_empty_spec(),
    {
        SystemWithAccess { system, access: FilteredAccessSet::new() }
    }

    /// Returns the underlying system.
    pub fn system(&self) -> (r: &S)
        ensures
            *r == self.system,
    {
        &self.system
    }
}

/// A run condition stored alongside the access returned from its
/// initialization.
pub struct ConditionWithAccess<C> {
    /// The condition itself.
    pub condition: C,
    /// The access returned by the condition's initialization.
    /// This will be empty if the condition has not been initialized yet.
    pub access: FilteredAccessSet,
}

impl<C> ConditionWithAccess<C> {
    /// Constructs a new [`ConditionWithAccess`] from a condition.
    /// The `access` will initially be empty.
    pub fn new(condition: C) -> (r: ConditionWithAccess<C>)
        ensures
            r.condition == condition,
            r.access.wf(),
            r.access.accesses().len() == 0,
            r.access.combined().is_empty_spec(),
    {
        ConditionWithAccess { condition, access: FilteredAccessSet::new() }
    }
}

/// A [`SystemWithAccess`] stored in a schedule graph; empty once the system
/// has been taken out.
pub struct SystemNode<S> {
    /// The stored system, if any.
    pub inner: Option<SystemWithAccess<S>>,
}

impl<S> SystemNode<S> {
    /// Create a new [`SystemNode`].
    pub fn new(system: S) -> (r: SystemNode<S>)
        ensures
            r.inner matches Some(s) && s.system == system && s.access.wf()
                && s.access.accesses().len() == 0,
    {
        SystemNode { inner: Some(SystemWithAccess::new(system)) }
    }

    /// Obtain a reference to the [`SystemWithAccess`] represented by this node.
    pub fn get(&self) -> (r: Option<&SystemWithAccess<S>>)
        ensures
            r matches Some(s) ==> self.inner == Some(*s),
            r is None <==> self.inner is None,
    {
        match &self.inner {
            Some(s) => Some(s),
            None => None,
        }
    }

    /// Obtain a mutable reference to the [`SystemWithAccess`] represented by this node.
    pub fn get_mut(&mut self) -> (r: Option<&mut SystemWithAccess<S>>)
        ensures
            r is None <==> old(self).inner is None,
            r matches Some(s) ==> old(self).inner == Some(*s) && final(self).inner == Some(*final(s)),
            r is None ==> final(self).inner is None,
    {
        match &mut self.inner {
            Some(s) => Some(s),
            None => None,
        }
    }
}

} // verus!
