//! Configuration loading: a recursive value tree, a priority-driven merge
//! engine, and a per-field resolution procedure with typed conversion.

pub mod cli;
pub mod file;
pub mod params;
pub mod parser;
pub mod resolve;
pub mod scalars;
pub mod source;
pub mod text;
pub mod utils;
pub mod validation;
pub mod value;

pub use cli::CliSource;
pub use file::{ConfigFileSource, FileSource};
pub use parser::{get_file_extension, get_parser, FileFormat, JsonParser, ParserError, TomlParser,
    YmlParser};
pub use source::{merge_configs, merge_sections, ConfigBuilder};
pub use value::ConfigValue;
