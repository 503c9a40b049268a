//! Replenishment workbook filling: reading sales and stock reports, patching the
//! worksheets of a plan and keeping the program itself up to date.

pub mod text;
pub mod number;
pub mod station;
pub mod nesting;
pub mod xml;
pub mod edit;
pub mod value;
pub mod column;
pub mod escape;
pub mod layout;
pub mod sheet;
pub mod refill;
pub mod map;
pub mod workbook;
pub mod archive;
pub mod rewrite;
pub mod report;
pub mod source;
pub mod identify;
pub mod load;
pub mod plan;
pub mod inspect;
pub mod settled;
pub mod inspector;
pub mod save;
pub mod updates;
pub mod package;
pub mod install;
pub mod session;
pub mod display;
pub mod window;
pub mod command;
