//! Build planning for page bundles: validation of page descriptors, output
//! layout, stylesheet scanning and inlining, virtual entry modules, and the
//! decisions around evaluating bundled JavaScript.

pub mod text;
pub mod scan;
pub mod paths;
pub mod pages;
pub mod entries;
pub mod json;
pub mod stylesheet;
pub mod runtime;
