# kairos_ecs

The core of the Kairos entity-component-system, written in Verus: every
function in `src/` carries a `requires`/`ensures` contract that Verus proves,
and the laws that tie several functions together stand in `src/` as public
proof functions.

## Layout

- `src/` — the verified library.
  - `access`, `component_id_set`, `fixed_bit_set`: read/write access to
    components, filtered accesses and sets of them, and conflict detection.
    `fixed_bit_set` is the one place that calls the `fixedbitset` crate; each
    call goes through a small trusted wrapper whose contract states what the
    crate's method does.
  - `query_term`, `query_builder`, `query_state`, `query_iter`,
    `query_error`: the terms of a query, building its access at run time,
    matching archetypes and tables against it, transmuting and joining query
    states, and the cursor that walks the matched rows.
  - `schedule`, `schedule_settings`, `node`, `graph`, `stepping`: schedules
    and their registry, build settings, graph node identifiers, and the
    stepping state machine that runs systems one at a time.
  - `entity`, `remote_allocator`, `change_detection`, `spawn_details`,
    `relationship`, `relationship_source_collection`, `resource`, `observer`,
    `component`, `assoc`: entities and the allocator's free-list bookkeeping,
    change ticks, relationship source collections, the resource-entity cache,
    the decision whether an observer runs, and small association lists.
- `tests/` — ordinary Rust tests that run the compiled library.
- `app/` — the library's error types with `Display` and `std::error::Error`,
  which verified code cannot implement.

## Models

Each data type has a view (`@`) over Verus's mathematical types: component
sets are `Set<usize>`, accesses are sets of read and written components plus
flags for "everything", filtered accesses add a sequence of `(with, without)`
filter sets, and query states expose the matched archetypes and tables as
sets. Contracts are stated over these views.
