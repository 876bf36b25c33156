//! A typed, transactional key-value store.
//!
//! The library holds the verified core of the store: the tagged value codec,
//! the byte ordering of keys, the copy-on-write snapshots of the in-process
//! "safe mode" engine, its environments and transactions, the typed stores,
//! the environment manager and the migrator.
use vstd::prelude::*;

pub mod builder;
pub mod database;
pub mod env;
pub mod environment;
pub mod error;
pub mod flags;
pub mod manager;
pub mod migrator;
pub mod order;
pub mod persist;
pub mod resize;
pub mod snapshot;
pub mod store;
pub mod value;

pub use env::{Reader, Rkv, Writer};
pub use environment::Readable;
pub use error::{MigrateError, StoreError};
pub use flags::{DatabaseFlags, WriteFlags};
pub use manager::Manager;
pub use migrator::Migrator;
pub use store::integer::{EncodableKey, IntegerStore, PrimitiveInt};
pub use store::integermulti::MultiIntegerStore;
pub use store::multi::MultiStore;
pub use store::single::SingleStore;
pub use store::Options as StoreOptions;
pub use value::{DataError, Type, Value};

verus! {

} // verus!
