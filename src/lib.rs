//! A local job ledger for an image-generation tool: jobs and their items with
//! their lifecycle, the stored provider key and its masked display, and the
//! checks that guard the managed uploads area.

pub mod config;
pub mod files;
pub mod jobs;
pub mod laws;
pub mod ledger;
pub mod model;
