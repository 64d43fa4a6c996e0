pub mod cli;
pub mod data_uri;
pub mod markdown;
pub mod model;
pub mod render;
pub mod shape;
pub mod shot;
pub mod text;
pub mod validate;
pub mod webhook;
