//! Filling a workbook template's worksheet with a week of timesheet rows.
pub mod cells;
pub mod error;
pub mod layout;
pub mod refs;
pub mod rows;
pub mod sheet;
pub mod workbook;
pub mod shared_strings;
pub mod xml;
