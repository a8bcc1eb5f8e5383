pub mod symbol;
pub mod find_path;
pub mod ast_crate;
pub mod ast_mod;
pub mod attributes;
pub mod tokens;
pub mod match_symbol;
pub mod cargo_toml;
