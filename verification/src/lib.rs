pub mod api_error;
pub mod arith;
pub mod bytes;
pub mod datetime;
pub mod handlers;
pub mod models;
pub mod mp4utils;
pub mod resources;
pub mod text;
pub mod utility;
pub mod vtt;
