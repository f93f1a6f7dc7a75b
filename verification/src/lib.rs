//! Verified core of an Xcode project toolkit: reading workspace
//! descriptions, resolving file locations, inspecting the active Xcode
//! install and rendering the command-line reports.

pub mod text;
pub mod json;
pub mod xcode;
pub mod path;
pub mod element;
pub mod order;
pub mod workspace;
pub mod render;
pub mod settings;
pub mod bindings;
