//! Aggregation and ranking of per-epoch validator telemetry.
//!
//! The crate turns flat per-epoch rows (stake, commission, credits, uptime,
//! version, data-centre location) into one record per validator with a nested
//! history, assigns tie-aware ranks, sums stake by data-centre grouping, and
//! builds the multi-row statements that writers send to the store. Everything
//! here works on plain values; reading from and writing to the store is left
//! to the caller, and so is arithmetic on reals: the yield estimate and the
//! mean are handed in as functions.
//!
//! - [`numeric`], [`records`], [`text`]: the values that rows and records are
//!   made of.
//! - [`window`], [`grouping`], [`loaders`]: rows of the most recent epochs,
//!   filed by validator.
//! - [`yields`], [`validators`], [`averages`], [`sorting`], [`ranking`],
//!   [`refresh`]: from rows to ranked records.
//! - [`concentration`], [`cluster`]: cluster-wide figures per epoch.
//! - [`combiner`], [`commissions`]: statements for the writers.
//! - [`api`], [`config`]: what the programs around the crate ask and are
//!   started with.

pub mod api;
pub mod averages;
pub mod cluster;
pub mod combiner;
pub mod commissions;
pub mod concentration;
pub mod config;
pub mod grouping;
pub mod loaders;
pub mod numeric;
pub mod ranking;
pub mod records;
pub mod refresh;
pub mod sorting;
pub mod text;
pub mod validators;
pub mod window;
pub mod yields;
