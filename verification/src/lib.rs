//! Building blocks of a small personal website: image compression planning,
//! post processing, page rendering and the lookups behind the HTTP routes.

pub mod text;
pub mod outside;
pub mod image;
pub mod compress;
pub mod picture;
pub mod posts;
pub mod badges;
pub mod codegen;
pub mod paths;
pub mod state;
pub mod store;
