pub mod asset;
pub mod dimension;
pub mod fragment;
pub mod query;
