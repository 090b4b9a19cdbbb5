#![verifier::loop_isolation(false)]

pub mod analyze;
pub mod captures;
pub mod classify;
pub mod json;
pub mod order;
pub mod query;
pub mod rank;
pub mod render;
pub mod themes;
pub mod types;
