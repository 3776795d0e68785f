pub mod balance;
pub mod compiler;
pub mod laws;
pub mod num;
pub mod opcode;
pub mod scanner;
pub mod text;
pub mod value;
pub mod vm;
