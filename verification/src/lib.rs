pub mod text;
pub mod sorting;
pub mod outside;
pub mod model;
pub mod sanitize;
pub mod commands;
