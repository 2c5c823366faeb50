pub mod html;
pub mod laws;
pub mod lexer;
pub mod render;
mod renderer;
