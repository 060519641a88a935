pub mod chunk;
pub mod compiler;
pub mod debug;
pub mod scanner;
pub mod text;
pub mod value;
pub mod vm;
