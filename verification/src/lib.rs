//! Dependency auditing for uv-managed Python projects: the dependency graph of a
//! `uv.lock` file, the packages it pulls in, the vulnerability report built from
//! OSV records, and the remediation advice derived from it.

pub mod text;
pub mod names;
pub mod version;
pub mod lock;
pub mod graph;
pub mod collect;
pub mod osv;
pub mod store;
pub mod scan;
pub mod audit;
pub mod fix;
pub mod report;
pub mod laws;
pub mod answer_laws;
