//! A verified deep-merge engine for Kubernetes-style configuration documents.
//!
//! Parsed JSON and YAML documents are modelled by two tagged tree types,
//! [`json::JsonValue`] and [`yaml::YamlValue`].  The library merges such
//! trees by a recursive, asymmetric rule table, merges resource wrappers
//! (`apiVersion`/`kind`/metadata/spec), selects templates by a matching
//! predicate, and converts YAML trees to JSON trees.  Every operation is
//! specified against a mathematical view of the trees and proved against it.

pub mod config;
pub mod json;
pub mod resource;
pub mod templates;
pub mod text;
pub mod yaml;
