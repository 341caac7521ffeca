//! The decisions of an HTTP load balancer: which backend gets a request, what
//! counts as a failure, when a request is sent again, which connections are
//! kept, and what a client is told when nothing worked.
//!
//! Nothing here performs I/O. Each step of serving a request is a function from
//! the current state and what just happened to the next state and what to do
//! next; a program around the library does the connecting and the sending.

pub mod backend;
pub mod balancer;
pub mod body;
pub mod exchange;
pub mod health;
pub mod http;
pub mod octets;
pub mod pool;
pub mod retry_budget;
mod sequences;
