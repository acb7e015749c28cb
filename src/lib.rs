//! Blueprint assembly: project metadata, validator interfaces and the
//! ambiguity-aware selection of a single validator by title.

pub mod blueprint;
pub mod json;
pub mod options;
pub mod pretty;
pub mod schema;
