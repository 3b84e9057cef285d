//! Ownership graphs with non-owning back-references, and a few small
//! companions: a boxed cons list, a transparent wrapper and a quota tracker.

pub mod model;
pub mod lemmas;
pub mod graph;
pub mod laws;
pub mod boxed_list;
pub mod my_box;
pub mod limit_tracker;
