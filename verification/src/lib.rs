//! The command-pipeline engine of a small interactive shell: alias and
//! wildcard resolution, segmentation of a token stream into commands, builtin
//! dispatch, and the plan by which processes are chained.

pub mod alias;
pub mod builtin;
pub mod command;
pub mod complete;
pub mod config;
pub mod error;
pub mod prompt;
pub mod redirect;
pub mod resolve;
pub mod run;
pub mod shell;
pub mod table;
pub mod text;
pub mod utils;
pub mod words;

pub use alias::Alias;
pub use builtin::{Builtin, BuiltinAction, BuiltinCommandResult};
pub use command::{Redirection, ShellCommand};
pub use complete::{Completion, MyFilenameCompleter, Quoting};
pub use config::ConfigFile;
pub use error::ShellError;
pub use redirect::RedirectPlan;
pub use resolve::Piece;
pub use run::{Input, LineRun, SpawnPlan, Step};
pub use shell::{Osh, Reading, Turn};
pub use table::Table;
pub use utils::Utils;
