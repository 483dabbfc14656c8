//! Daily construction progress report: the form's data model, its JSON
//! encoding, the data block that an exported PDF carries so that it can be
//! opened again for editing, and the layout decisions of the PDF renderer.

pub mod chars;
pub mod filename;
pub mod json;
pub mod layout;
pub mod marker;
pub mod model;
pub mod names;
pub mod order;
pub mod pairs;
pub mod report;
pub mod template;
pub mod wrap;
