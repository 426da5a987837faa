//! Aurex: a small build tool for Java applications.
//!
//! The library holds the logic of the tool: reading the project
//! configuration, Maven coordinates and POM resolution, dependency
//! manifest editing, jar manifests and fat-jar planning, and the build
//! sequence. Everything that touches the file system, the network or
//! external processes lives in the application around it.
use vstd::prelude::*;

pub mod text;
pub mod paths;
pub mod order;
pub mod config;
pub mod maven;
pub mod xml;
pub mod strmap;
pub mod pom;
pub mod pom_xml;
pub mod resolver;
pub mod manifest;
pub mod jar;
pub mod stages;
pub mod tools;
pub mod sources;
pub mod report;
pub mod fetch;
pub mod resolution;

verus! {

} // verus!
