pub mod error;
pub mod main_data;
pub mod token;
pub mod names;
pub mod ast_node;
pub mod ir;
pub mod codegen;
