//! A recursive resolver: classifying responses, caching them, and choosing
//! the name servers to ask.
pub mod cache;
pub mod error;
pub mod message_classifier;
pub mod nsas;
pub mod running_query;
pub mod sender;
pub mod recursor;
