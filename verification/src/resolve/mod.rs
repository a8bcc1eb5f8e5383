pub mod util;
pub mod constants;
pub mod paths;
pub mod function_arg;
pub mod ast_items;
pub mod items_crate;
pub mod items;
pub mod item_macros;
pub mod parse_macro_call;
