//! Codrop: a folder that syncs itself across machines.
//!
//! Every change is content-addressed into a blob store ([`store`]) and recorded in an index
//! ([`index`]) that maps each path to its content hash and vector clock ([`vclock`]). The engine
//! ([`engine`]) decides what a local change or a peer's record does; [`convergence`] states what
//! that adds up to between devices. Peers exchange records and missing chunks ([`proto`],
//! [`fetch`], [`node`]), and only with peers that they are paired with ([`trust`]).
//!
//! The library holds no file and no connection: it is handed what was read and received, and
//! says what is to be written and sent.

pub mod chunker;
pub mod cli;
pub mod convergence;
pub mod daemon;
pub mod digest;
pub mod engine;
pub mod fetch;
pub mod ignores;
pub mod index;
pub mod linefile;
pub mod node;
pub mod paths;
pub mod proto;
pub mod store;
pub mod strmap;
pub mod text;
pub mod trust;
pub mod vclock;
pub mod watcher;

pub use engine::{ApplyOutcome, Engine, Observation, SyncAction};
pub use ignores::{
    append_ignore, ignore_state_in_git, normalize_pattern, Matcher, IGNORE_DIRS, IGNORE_FILE,
};
pub use index::{FileRecord, Index};
pub use node::SyncStats;
pub use store::BlobStore;
pub use vclock::{Causality, VClock};
