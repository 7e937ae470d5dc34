pub mod ast;
pub mod laws;
pub mod oracle;
pub mod parser;
pub mod render;
pub mod transform;
