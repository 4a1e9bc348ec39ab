//! A configuration-driven static asset server: route resolution of request
//! paths onto directories, and content types by file extension.

pub mod text;
pub mod table;
pub mod content_type;
pub mod error;
pub mod route;
pub mod state;
