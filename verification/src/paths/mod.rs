//! The pages and answers behind the site's routes.

pub mod copy;
pub mod root;
pub mod about;
pub mod posts;
pub mod eighteightthirtyone;
pub mod matrix;
