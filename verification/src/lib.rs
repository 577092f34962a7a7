//! Table data, filtering, sorting and export logic of a CSV viewer.

pub mod data;
pub mod text;
pub mod order;
pub mod compute;
pub mod number;
pub mod pattern;
pub mod export;
pub mod layout;
pub mod encoding;
pub mod view;
pub mod json;
pub mod laws;
