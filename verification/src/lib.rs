pub mod ast;
pub mod value;
pub mod maps;
pub mod parser;
pub mod vm;

pub use ast::Cmd;
pub use ast::Error;
pub use ast::Loc;
pub use ast::SyntaxError;
pub use ast::SyntaxKind;
pub use ast::Var;
pub use value::Value;
pub use vm::Vm;
pub use vm::Frame;
