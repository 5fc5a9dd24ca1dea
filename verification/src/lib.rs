//! A fixed-size worker pool and the request handling that runs on it.
//!
//! [`pool::ThreadPool`] is the queue and the bookkeeping behind a pool of
//! workers: jobs go in at one end, workers take them out at the other in the
//! order they came, and a shutdown hands every worker one order to stop.
//! [`model`] states that discipline over plain sequences and proves what holds
//! of every run of it. [`request`] decides what a connection is answered with
//! and frames the answer.

pub mod model;
pub mod pool;
pub mod request;
pub mod worker;
