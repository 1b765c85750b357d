//! Queries over the dataflow and control-flow facts that a whole-program
//! analysis of a JavaScript application leaves behind.
//!
//! Two questions are asked of every function that the analysis summarised:
//! is each sink behind a check by an authentication function
//! ([`pa_auth_bypass_findings`]), and is each sink behind a comparison of the
//! requested resource with the session's owner ([`idor_findings`])?
//!
//! What the answers mean is stated twice: by the contracts, and by laws that tell it
//! from the nodes, edges, blocks, plans and arguments alone ([`fact_laws`],
//! [`origin_laws`], [`guard_laws`], [`ownership_laws`], [`report_laws`] and
//! [`learning_laws`]). [`laws`] relates answers to one another.

pub mod auth_guard;
pub mod control_flow;
pub mod direct_query;
pub mod fact_laws;
pub mod findings;
pub mod graph;
pub mod guard_laws;
pub mod id_set;
pub mod ids;
pub mod laws;
pub mod learning_laws;
pub mod origin_laws;
pub mod ownership;
pub mod ownership_laws;
pub mod plan_learning;
pub mod provenance;
pub mod report_laws;
pub mod value;

pub use findings::{idor_findings, pa_auth_bypass_findings, AuthBypassFinding, Snapshot};
