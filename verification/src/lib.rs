//! Interaction core for a terminal issue ("bead") dashboard.
//!
//! The crate owns the pure, verifiable heart of the dashboard: the data
//! model, the tree-ordered view builder, the cursor-accurate text buffer,
//! the input-mode state machine, and the field diff that drives mutations.
//! Terminal drawing, the on-disk store and the mutation backend live in the
//! surrounding application, which talks to this crate through plain values.

pub mod app;
pub mod bead;
pub mod detail;
pub mod diff;
pub mod event;
pub mod input;
pub mod keys;
pub mod layout;
pub mod list;
pub mod load;
pub mod modal;
pub mod order;
pub mod text;

pub use app::{App, AppAction, InputMode};
pub use bead::{Bead, BeadStatus, BeadType, Comment, Dependency, DependencyType};
pub use input::TextInput;
pub use layout::Focus;
pub use modal::{CreateField, CreateModal, ModalAction};
pub use order::build_tree_order;
