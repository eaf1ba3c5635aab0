pub mod text;
pub mod keyed;
pub mod mod_context;
pub mod closure;
pub mod syntax;
pub mod assembly;
pub mod order;
pub mod render;
pub mod encoding;
pub mod parse_context;
pub mod laws;
pub mod callbacks;
