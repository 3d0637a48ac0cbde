//! The logic of Traza, a datastore for traces of agents: what it answers, what
//! it counts, what it erases, and how its benchmarks judge it.
//!
//! - Spans and their aggregation: [`span`], [`filter`], [`rollup`],
//!   [`analytics`], [`sessions`], [`usage`], [`ranking`], [`days`], [`latency`],
//!   [`upkeep`].
//! - Findings: [`attribution`].
//! - Text search: [`content`], [`hash`].
//! - Erasure: [`erasure`], [`tombstones`], [`receipt`].
//! - Annotations and append-only logs: [`annotations`], [`jsonl`], [`crc`].
//! - The HTTP surface: [`http`], [`connection`], [`auth`], [`routes`],
//!   [`queries`], [`answers`], [`responses`], [`streams`], [`metrics`],
//!   [`dashboard`], [`mcp`].
//! - Command lines: [`args`], [`commands`], [`object`], [`object_report`],
//!   [`seeding`].
//! - Corpora and benchmarks: [`corpus`], [`batches`], [`protobuf`], [`llm`],
//!   [`oracle`], [`measure`], [`canonical_record`], [`client`], [`ingest_bench`],
//!   [`query_bench`], [`storage_bench`], [`content_bench`], [`memory_bench`],
//!   [`memory_report`].
//! - Ground: [`text`], [`json`], [`sort`], [`sets`], [`table`].

pub mod analytics;
pub mod annotations;
pub mod answers;
pub mod args;
pub mod attribution;
pub mod auth;
pub mod batches;
pub mod canonical_record;
pub mod client;
pub mod commands;
pub mod connection;
pub mod content;
pub mod content_bench;
pub mod corpus;
pub mod crc;
pub mod dashboard;
pub mod days;
pub mod erasure;
pub mod filter;
pub mod hash;
pub mod http;
pub mod ingest_bench;
pub mod json;
pub mod jsonl;
pub mod latency;
pub mod llm;
pub mod mcp;
pub mod measure;
pub mod memory_bench;
pub mod memory_report;
pub mod metrics;
pub mod object;
pub mod object_report;
pub mod oracle;
pub mod protobuf;
pub mod queries;
pub mod query_bench;
pub mod ranking;
pub mod receipt;
pub mod responses;
pub mod rollup;
pub mod routes;
pub mod seeding;
pub mod sessions;
pub mod sets;
pub mod sort;
pub mod span;
pub mod storage_bench;
pub mod streams;
pub mod table;
pub mod text;
pub mod tombstones;
pub mod upkeep;
pub mod usage;
