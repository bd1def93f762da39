//! The decisions of the ReviewGate command line, verified.
pub mod agent_result;
pub mod aggregate;
pub mod angles;
pub mod benchmark;
pub mod bytes;
pub mod claims;
pub mod collector;
pub mod config;
pub mod context_files;
pub mod context_plan;
pub mod diff;
pub mod disposition;
pub mod download;
pub mod evaluation;
pub mod excerpts;
pub mod extract;
pub mod finding_comments;
pub mod findings;
pub mod grounding;
pub mod json;
pub mod list;
pub mod live;
pub mod number;
pub mod openrouter;
pub mod order;
pub mod outcome;
pub mod paths;
pub mod permissions;
pub mod prompt;
pub mod publish;
pub mod pull_request;
pub mod reading;
pub mod records;
pub mod rereview;
pub mod rereview_flow;
pub mod review_run;
pub mod search;
pub mod semantic;
pub mod sources;
pub mod split;
pub mod status;
pub mod submission;
pub mod summary;
pub mod symbols;
pub mod text;
pub mod threads;
pub mod workflow;
pub mod yaml;
