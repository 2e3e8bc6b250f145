pub mod decimal;
pub mod filter;
pub mod input_parser;
pub mod permission;
pub mod walker;

pub use filter::{Filter, FilterSet};
pub use input_parser::ParseError;
pub use permission::{PartialPermissionBlock, PermissionBlock, PermissionState};
pub use walker::{check_object, ChildStep, EntryInfo, Args};
