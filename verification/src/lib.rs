//! Renders a structured personal record - a person, skills, and lists
//! of experience, project, and education entries - into markup, driven
//! by a small declarative layout language that controls which fields
//! appear, in what order, and in what composition of literal text and
//! field references.
//!
//! `layout` parses the layout language into a typed tree; `render`
//! walks that tree together with a `document::Document` and produces
//! the markup string; `laws` states and proves the properties that
//! relate them.
pub mod document;
pub mod laws;
pub mod layout;
pub mod render;
pub mod strutil;
