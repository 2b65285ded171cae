pub mod span;
pub mod token;
pub mod text;
pub mod ast;
pub mod parser;
pub mod typecheck;
pub mod opt;
pub mod ir;
pub mod diagnostic;
pub mod codegen;
