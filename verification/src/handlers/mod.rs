pub mod master;
pub mod media;
