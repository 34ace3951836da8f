pub mod error;
pub mod layout;
pub mod model;
pub mod text;
pub mod builder;
pub mod resolve;
pub mod draw;
pub mod render;
