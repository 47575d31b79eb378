//! A generic aggregate-persistence core: permission-checked create, update
//! and delete commands over business entities, uniform queries, and
//! bidirectional cursor pagination over arbitrary sort orders.
//!
//! The storage engine itself stays outside this crate; every operation
//! takes the transaction's current view of the entity table -- a [`store::Store`] --
//! as an explicit parameter, so no ambient database handle is needed.

pub mod access;
pub mod error;
pub mod ident;
pub mod laws;
pub mod pagination;
pub mod presentation;
pub mod repository;
pub mod store;
pub mod text;
pub mod user;

pub use access::Permission;
pub use error::Error;
pub use error::FieldValue;
pub use pagination::Order;
pub use presentation::Presentation;
pub use repository::{Page, Repository};
pub use store::Store;
pub use text::Cmp;
pub use user::{Command, CommandCreate, CommandDelete, CommandUpdate, Model, Query, Role, User};
