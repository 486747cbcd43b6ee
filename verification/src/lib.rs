//! Weekly timesheets from GitHub activity: the rules that turn issues, pull requests and
//! commits into timesheet entries, group them into weeks, and fill an Excel workbook
//! template's worksheet and shared-string table with them, each with its contract.
pub mod ai;
pub mod chronology;
pub mod cli;
pub mod config;
pub mod dates;
pub mod decimal;
pub mod excel;
pub mod github;
pub mod mapper;
pub mod model;
pub mod report;
pub mod text;
pub mod weeks;
