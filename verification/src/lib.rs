//! CRAINE compiles HTML pages that use components written in plain HTML.
//!
//! The library holds the logic of the compiler: variable definitions and their
//! substitution, the expansion of components, HTML rendering, import statements,
//! how files are named and sorted, and the workspace layout.

pub mod error_handler;
pub mod text;
pub mod table;
pub mod var_parser;
pub mod dom;
pub mod compose;
pub mod paths;
pub mod workspace;
pub mod cmd_params;
pub mod imports;

pub use dom::dom_tree_to_html;
pub use paths::get_name;
pub use paths::is_component;
