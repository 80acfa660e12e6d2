//! The operations: outline, skeleton, read, find, query, project.
pub mod outline;
pub mod read;
pub mod skeleton;
pub mod find;
pub mod project;
pub mod query;
pub mod walk;
