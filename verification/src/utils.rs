pub mod strings;
pub mod renderer;
