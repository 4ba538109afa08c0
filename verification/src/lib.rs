//! The decisions a Brenn server takes while it boots.

pub mod address;
pub mod apps;
pub mod boot;
pub mod channels;
pub mod clients;
pub mod delivery;
pub mod directory;
pub mod draft;
pub mod drift;
pub mod dynamic;
pub mod egress;
pub mod gc;
pub mod model;
pub mod mqtt;
pub mod obs_config;
pub mod policy;
pub mod prefix;
pub mod rings;
pub mod surface_bindings;
pub mod surface_grants;
pub mod surface_laws;
pub mod surface_model;
pub mod surface_outcomes;
pub mod surface_rules;
pub mod surface_scene;
pub mod surfaces;
pub mod text;
pub mod wasm;
pub mod wasm_laws;
pub mod wasm_model;
pub mod wiring;
