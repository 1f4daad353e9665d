//! Per-application input method switching: the rules, the TIP text format and
//! the decisions of the background switcher, kept apart from the Windows calls.
pub mod cli;
pub mod hex;
pub mod log;
pub mod text;
pub mod tip;
pub mod tip_laws;
pub mod tip_case;
pub mod rules;
pub mod rules_laws;
pub mod template;
pub mod tsf;
pub mod tray;
pub mod switcher;
pub mod switcher_laws;
