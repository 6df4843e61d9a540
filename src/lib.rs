//! A bulk transfer engine: a token-bucket rate limiter shared by all
//! transfers, the decisions of a rate-limited stream copy, a job source that
//! hands each job out once, and the bookkeeping of a dispatcher that runs jobs
//! on several executors and reports their lifecycle.

pub mod token_bucket;
pub mod config;
pub mod bounded_copy;
pub mod jobs;
pub mod dispatcher;
pub mod job_list;
