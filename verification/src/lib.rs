//! Build-time support for a library whose wire types come from two schema
//! corpora: locating the workspace, planning the two code-generation stages,
//! and qualifying the imports of the emitted Thrift modules so that they
//! resolve under one parent module.

pub mod config;
pub mod device_info;
pub mod generated;
pub mod laws;
pub mod names;
pub mod pipeline;
pub mod rewrite;
pub mod rules;
pub mod scan;
pub mod shape;
pub mod split;
pub mod stable;
pub mod stages;
pub mod statement;
pub mod text;
pub mod walk;
pub mod workspace;
