pub mod interpreter;
pub mod printer;
pub mod template;
pub mod print_ops;
