//! Verified core of the Kairos entity-component-system.
//!
//! - component access tracking and conflict detection (`access`,
//!   `component_id_set`, `fixed_bit_set`), and the query builder and query
//!   state that match archetypes against an access (`query_builder`,
//!   `query_state`, `query_iter`, `query_error`);
//! - schedules, their registry and build settings, schedule graph node
//!   identifiers, and system stepping (`schedule`, `schedule_settings`,
//!   `node`, `graph`, `stepping`);
//! - entities, the packed free-list state of the remote entity allocator,
//!   change-detection ticks and spawn details (`entity`, `remote_allocator`,
//!   `change_detection`, `spawn_details`);
//! - relationship source collections and hook modes (`relationship`,
//!   `relationship_source_collection`), and resource entities (`resource`).
pub mod fixed_bit_set;
pub mod component;
pub mod component_id_set;
pub mod access;
pub mod graph;
pub mod node;
pub mod assoc;
pub mod schedule;
pub mod stepping;
pub mod query_builder;
pub mod schedule_settings;
pub mod query_error;
pub mod entity;
pub mod relationship_source_collection;
pub mod remote_allocator;
pub mod change_detection;
pub mod spawn_details;
pub mod resource;
pub mod relationship;
pub mod query_term;
pub mod query_state;
pub mod query_iter;
pub mod observer;
