//! Periodically collected metadata about the project access tokens of a GitLab
//! instance: the data model, the paginated fetch protocol and the state owner
//! that serves the latest snapshot.

pub mod gitlab;
pub mod pagination;
pub mod state_actor;
