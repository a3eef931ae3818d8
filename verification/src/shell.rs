//! The state of a shell session.

use crate::config::ConfigFile;
use crate::prompt::is_prompt;
use crate::table::Table;
use vstd::prelude::*;
use vstd::string::StringExecFns;

verus! {

/// A shell session: what one input line leaves behind for the next.
#[derive(Debug)]
pub struct Osh {
    /// The settings in force.
    pub config: ConfigFile,
    /// The aliases by which input words are replaced.
    pub aliases: Table,
    /// Where the history of input lines is kept.
    pub history_path: String,
    /// The exit status of the last command; 0 for success.
    pub status: u32,
    /// The prompt as it was last built.
    pub prompt: String,
    /// The working directory that was left by the last change of directory.
    pub previous_directory: String,
}

/// What an attempt to read an input line came to.
#[derive(Debug, PartialEq, Eq)]
pub enum Reading {
    /// A line was read.
    Line(String),
    /// The user interrupted the input.
    Interrupted,
    /// The input has ended.
    EndOfInput,
    /// The input could not be read.
    Failed,
}

/// What the shell does after an attempt to read an input line.
#[derive(Debug, PartialEq, Eq)]
pub enum Turn {
    /// Ask for another line.
    Prompt,
    /// Record the line in the history, then run it.
    Run(String),
    /// Save the history and leave.
    Leave,
}

/// Where the history of input lines is kept: in the file `.history` of the
/// home directory, or of `/tmp` where the environment names no home.
pub open spec fn history_location(env: Map<Seq<char>, Seq<char>>) -> Seq<char> {
    (if env.contains_key("HOME"@) {
        env["HOME"@]
    } else {
        "/tmp"@
    }) + "/.history"@
}

impl Osh {
    /// A session that starts with `config`, in the given environment and
    /// working directory.
    pub fn new(config: ConfigFile, env: &Table, current_directory: &str) -> (r: Osh)
        ensures
            r.config == config,
            r.aliases@ == config.aliases@,
            r.history_path@ == history_location(env@),
            r.status == 0,
            r.previous_directory@ == current_directory@,
            r.prompt_is_current(current_directory@),
    {
        let mut history_path = match env.lookup("HOME") {
            Some(home) => home,
            None => "/tmp".to_owned(),
        };
        history_path.append("/.history");
        let aliases = config.aliases.clone();
        let prompt = Osh::build_prompt(&config, 0, current_directory);
        Osh {
            config,
            aliases,
            history_path,
            status: 0,
            prompt,
            previous_directory: current_directory.to_owned(),
        }
    }

    /// What the shell does after an attempt to read an input line: it runs
    /// a line that is not empty, leaves when the input has ended or cannot
    /// be read, and asks again after an empty line or an interrupt.
    pub fn turn(reading: Reading) -> (r: Turn)
        ensures
            match reading {
                Reading::Line(line) => if line@.len() == 0 {
                    r == Turn::Prompt
                } else {
                    r == Turn::Run(line)
                },
                Reading::Interrupted => r == Turn::Prompt,
                Reading::EndOfInput => r == Turn::Leave,
                Reading::Failed => r == Turn::Leave,
            },
    {
        match reading {
            Reading::Line(line) => {
                if line.as_str().is_empty() {
                    Turn::Prompt
                } else {
                    Turn::Run(line)
                }
            },
            Reading::Interrupted => Turn::Prompt,
            Reading::EndOfInput => Turn::Leave,
            Reading::Failed => Turn::Leave,
        }
    }

    /// Whether the prompt is the one for the current settings and status, in
    /// the working directory `directory`.
    pub open spec fn prompt_is_current(&self, directory: Seq<char>) -> bool {
        is_prompt(
            self.prompt@,
            self.config.username@,
            self.config.hostname@,
            self.config.prompt@,
            self.status,
            directory,
        )
    }

    /// Builds the prompt anew, for the working directory `directory`.
    pub fn refresh_prompt(&mut self, directory: &str)
        ensures
            final(self).prompt_is_current(directory@),
            final(self).config == old(self).config,
            final(self).aliases == old(self).aliases,
            final(self).history_path == old(self).history_path,
            final(self).status == old(self).status,
            final(self).previous_directory == old(self).previous_directory,
    {
        self.prompt = Osh::build_prompt(&self.config, self.status, directory);
    }
}

} // verus!
