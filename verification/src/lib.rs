//! Verified core of a collection of small Unix utilities.
pub mod applets;
pub mod num;
pub mod paths;
pub mod text;
