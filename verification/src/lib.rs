//! Request priorities of an HTTP/2 client connection.
//!
//! Requests that carry a [`control::RequestPriority`] form one exclusive
//! dependency chain per connection, ordered by encoded weight.

mod chain;
pub mod connection;
pub mod control;
pub mod effects;
pub mod frame;
pub mod laws;
pub mod order;
pub mod store;
pub mod sync;
pub mod tree;
