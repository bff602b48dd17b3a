//! A minimal dynamic-address registry: clients present a user and password
//! pair, and publish, fetch or revoke the address kept under that pair.

pub mod fault;
pub mod handler;
pub mod id;
pub mod outside;
pub mod registry;
pub mod text;
