pub mod error;
pub mod text;
pub mod time;
