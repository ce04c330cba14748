//! Authorization and session model of an admin console: users, roles,
//! permissions and groups joined by directed edges, sessions that cache what a
//! user may do, and the rule that names the permission a resource asks for.

pub mod auth;
pub mod edges;
pub mod endpoint;
pub mod error;
pub mod graph;
pub mod graph_view;
pub mod handler;
pub mod laws;
pub mod model;
pub mod page;
pub mod password;
pub mod policy;
pub mod repository;
pub mod session;
pub mod text;
