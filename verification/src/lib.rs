//! Verified model layer of a UML state machine diagramming tool.
//!
//! The diagram is an ordered tree of owned elements; references between
//! elements (transitions, note links) are held as typed uuids.

pub mod ids;
pub mod model;

pub mod tree;
pub mod closure;
pub mod closure_walk;
pub mod delete;
pub mod clone;
pub mod enumerate;
pub mod copy_spec;
pub mod copy;
pub mod relink;
pub mod find_spec;
pub mod containers;
pub mod constructors;
pub mod edit_spec;
pub mod edit;
pub mod update_spec;
pub mod descend;
pub mod diagram_edit;
pub mod reorder;
pub mod changes;
pub mod adapters;
pub mod labels;
pub mod adapter_ops;
pub mod ordinal;
pub mod wf;
pub mod update_laws;
pub mod laws;
pub mod laws_edit;
pub mod restore_spec;
pub mod prune_facts;
pub mod restore_law;
pub mod find_facts;
pub mod reinsert_law;
pub mod reinsert_diagram;
pub mod closure_laws;
pub mod climb_facts;
pub mod change_laws;
