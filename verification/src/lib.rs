//! Task-assignee extension library: a key-value association between a task
//! identifier and a free-text assignee string, with read, upsert and delete
//! operations and the response shaping used by the HTTP handlers around it.

pub mod models;
pub mod routes;
pub mod store;
