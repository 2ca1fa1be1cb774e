# nihonium

The model layer of a UML state machine diagramming tool, written in Verus.

A diagram holds state machines, notes and note links; a state machine holds
states, pseudostates, transitions and composite states, whose regions hold
more of the same. Each element is viewed as an ordered tree (`model.rs`):
its kind, uuid, texts, one list of children per bucket, and the endpoints it
links. Every operation is specified over that view.

## Layout

- `src/model.rs`, `src/ids.rs`, `src/constructors.rs`: the element types,
  their tree view and their constructors; fresh uuids come from the `uuid`
  crate.
- `src/find_spec.rs`, `src/containers.rs`: looking elements up and reporting
  their position.
- `src/edit_spec.rs`, `src/edit.rs`, `src/update_spec.rs`, `src/descend.rs`,
  `src/diagram_edit.rs`, `src/reorder.rs`: inserting, removing and moving
  elements, in a container and anywhere in a diagram.
- `src/tree.rs`, `src/closure.rs`, `src/closure_walk.rs`, `src/delete.rs`: the
  set of elements a deletion takes, and the deletion with its undo records.
- `src/clone.rs`, `src/copy_spec.rs`, `src/copy.rs`, `src/relink.rs`,
  `src/enumerate.rs`: deep copies with fresh uuids and relinked references,
  and the listing of all elements.
- `src/changes.rs`, `src/adapters.rs`, `src/adapter_ops.rs`, `src/labels.rs`,
  `src/ordinal.rs`: property changes with their undo, the adapters that
  apply them, labels, and the reordering of selected elements.
- `src/wf.rs`: the shape every element has.
- `src/laws.rs`, `src/laws_edit.rs`, `src/update_laws.rs`,
  `src/restore_spec.rs`, `src/prune_facts.rs`, `src/restore_law.rs`,
  `src/find_facts.rs`, `src/reinsert_law.rs`, `src/reinsert_diagram.rs`,
  `src/closure_laws.rs`, `src/climb_facts.rs`: properties that relate
  several operations (undoing a change, putting deleted elements back,
  closing a deletion twice, what a deletion leaves, when the search for the
  state machine above an element comes to an end).
- `tests/`: tests on concrete diagrams.
- `app/`: a small program that builds a diagram and prints what the library
  computes of it.
