pub mod text;
pub mod version;
pub mod paths;
pub mod solve;
pub mod lock;
pub mod keyed;
pub mod manifest;
pub mod render;
pub mod ast;
pub mod symbols;
pub mod mangle;
pub mod cli;
pub mod parser;
pub mod modules;
pub mod fmt;
pub mod lsp_text;
pub mod linker;
pub mod typing;
pub mod rope;
pub mod lsp_map;
pub mod lsp_refs;
pub mod lsp_complete;
pub mod lsp_query;
pub mod loader;
pub mod resolve;
pub mod disk_loader;
pub mod layout;
pub mod checks;
pub mod traits;
