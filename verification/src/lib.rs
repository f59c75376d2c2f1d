//! The logic of a desktop shell around dsh, the DeepSeek Harness.
//!
//! The shell connects dsh to a local gateway of models: it checks the gateway (`check`),
//! writes the gateway into dsh's settings and credentials and takes it out again
//! (`actions`, on top of `provider`, `default_model` and `credentials`, which edit the text
//! of the files), finds and supervises dsh (`install`, `supervise`), and reports how many
//! tokens the sessions used (`usage_log` to `usage_report`).
//!
//! The modules whose names end in `_laws` state what calls promise in terms of what goes in
//! and what comes out: what stands in a file after an edit, how two calls relate.
//!
//! Nothing here touches a file, a process, a socket or a clock. Where the shell must do so
//! in between, a function takes what came of it and says what to do next.

pub mod account_laws;
pub mod action_laws;
pub mod actions;
pub mod again_laws;
pub mod balance;
pub mod blocks;
pub mod cache;
pub mod check;
pub mod choice_laws;
pub mod counts;
pub mod credential_laws;
pub mod credentials;
pub mod default_laws;
pub mod default_model;
pub mod edit_laws;
pub mod entry_count;
pub mod file_laws;
pub mod files;
pub mod find_laws;
pub mod gateway;
pub mod give_back;
pub mod held;
pub mod install;
pub mod json;
pub mod keep_laws;
pub mod key_laws;
pub mod lines;
pub mod one_entry;
pub mod order;
pub mod outside_text;
pub mod probe_laws;
pub mod provider;
pub mod provider_laws;
pub mod reply_laws;
pub mod report_laws;
pub mod scan;
pub mod setup_laws;
pub mod shape;
pub mod supervise;
pub mod tally_laws;
pub mod task_laws;
pub mod text;
pub mod text_laws;
pub mod usage;
pub mod usage_log;
pub mod usage_report;
pub mod value_laws;
pub mod watch_laws;

