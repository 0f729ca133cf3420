//! Interactive browsing engine for clustered log tables: a lazily paged
//! table, a cluster index, a structured query language, budgeted and
//! background filtering, sortable views, and the modal window state
//! machines that tie them together.

pub mod cluster;
pub mod detail;
pub mod filter;
pub mod float;
pub mod gauge;
pub mod hint;
pub mod key;
pub mod loading;
pub mod logrecord;
pub mod nav;
pub mod query;
pub mod quit;
pub mod scan;
pub mod sort;
pub mod state;
pub mod table;
pub mod theme;
pub mod text;
