//! Verified core of the UGC audit client: flows, modules, validation,
//! execution planning, data ports and reports.
pub mod strs;
pub mod json;
pub mod catalog;
pub mod text;
pub mod flow;
pub mod graph;
pub mod plan;
pub mod validate;
pub mod normalize;
pub mod run;
pub mod report;
pub mod cli;
pub mod modules;
pub mod ports;
pub mod settings;
pub mod scheme;
pub mod live;
pub mod start;
pub mod resolve;
pub mod launch;
pub mod procs;
pub mod previous;
pub mod order;
pub mod registry;
pub mod smi;
