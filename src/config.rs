//! Site configuration: database connections, extra dependencies for every
//! package build, and environment values.

use vstd::prelude::*;
use std::collections::HashMap;

verus! {

#[derive(Debug, Clone, Default)]
pub struct RspConfig {
    pub database: DatabaseConfig,
    pub dependencies: Vec<String>,
    pub env: HashMap<String, String>,
}

#[derive(Debug, Clone, Default)]
pub struct DatabaseConfig {
    pub default: Option<String>,
    pub connections: HashMap<String, ConnectionConfig>,
}

#[derive(Debug, Clone)]
pub struct ConnectionConfig {
    pub driver: String,
    pub url: String,
    pub max_connections: u32,
}

/// The pool size of a connection that names none.
pub fn default_max_connections() -> (r: u32)
    ensures
        r == 5,
{
    5
}

} // verus!
