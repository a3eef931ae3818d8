//! The commands that the shell carries out itself.

use crate::alias::{alias_lines, Alias};
use crate::command::{CommandView, ShellCommand};
use crate::config::ConfigFile;
use crate::error::{ErrorView, ShellError};
use crate::shell::Osh;
use crate::table::Table;
use crate::text::{join_words, joined, same_text, texts};
use crate::utils::{expansion, Utils};
use vstd::prelude::*;

verus! {

/// The commands that the shell carries out itself.
#[derive(Debug, Clone, Copy, PartialEq, Eq, Structural)]
pub enum Builtin {
    Export,
    Unset,
    Alias,
    Unalias,
    Config,
    Reload,
    Status,
    History,
    Cd,
}

/// The builtin that a command name stands for, if any.
pub open spec fn builtin_named(name: Seq<char>) -> Option<Builtin> {
    if name == "export"@ {
        Some(Builtin::Export)
    } else if name == "unset"@ {
        Some(Builtin::Unset)
    } else if name == "alias"@ {
        Some(Builtin::Alias)
    } else if name == "unalias"@ {
        Some(Builtin::Unalias)
    } else if name == "config"@ {
        Some(Builtin::Config)
    } else if name == "reload"@ {
        Some(Builtin::Reload)
    } else if name == "status"@ {
        Some(Builtin::Status)
    } else if name == "history"@ {
        Some(Builtin::History)
    } else if name == "cd"@ {
        Some(Builtin::Cd)
    } else {
        None
    }
}

/// Each of the nine names stands for its own builtin.
pub proof fn lemma_builtin_names()
    ensures
        builtin_named("export"@) == Some(Builtin::Export),
        builtin_named("unset"@) == Some(Builtin::Unset),
        builtin_named("alias"@) == Some(Builtin::Alias),
        builtin_named("unalias"@) == Some(Builtin::Unalias),
        builtin_named("config"@) == Some(Builtin::Config),
        builtin_named("reload"@) == Some(Builtin::Reload),
        builtin_named("status"@) == Some(Builtin::Status),
        builtin_named("history"@) == Some(Builtin::History),
        builtin_named("cd"@) == Some(Builtin::Cd),
{
    reveal_strlit("export");
    reveal_strlit("unset");
    reveal_strlit("alias");
    reveal_strlit("unalias");
    reveal_strlit("config");
    reveal_strlit("reload");
    reveal_strlit("status");
    reveal_strlit("history");
    reveal_strlit("cd");
    assert("export"@.len() == 6 && "export"@[0] == 'e');
    assert("unset"@.len() == 5 && "unset"@[0] == 'u');
    assert("alias"@.len() == 5 && "alias"@[0] == 'a');
    assert("unalias"@.len() == 7 && "unalias"@[0] == 'u');
    assert("config"@.len() == 6 && "config"@[0] == 'c');
    assert("reload"@.len() == 6 && "reload"@[0] == 'r');
    assert("status"@.len() == 6 && "status"@[0] == 's');
    assert("history"@.len() == 7 && "history"@[0] == 'h');
    assert("cd"@.len() == 2 && "cd"@[0] == 'c');
}

/// The builtin that a command name stands for, if any.
pub fn find_builtin(name: &str) -> (r: Option<Builtin>)
    ensures
        r == builtin_named(name@),
{
    if same_text(name, "export") {
        Some(Builtin::Export)
    } else if same_text(name, "unset") {
        Some(Builtin::Unset)
    } else if same_text(name, "alias") {
        Some(Builtin::Alias)
    } else if same_text(name, "unalias") {
        Some(Builtin::Unalias)
    } else if same_text(name, "config") {
        Some(Builtin::Config)
    } else if same_text(name, "reload") {
        Some(Builtin::Reload)
    } else if same_text(name, "status") {
        Some(Builtin::Status)
    } else if same_text(name, "history") {
        Some(Builtin::History)
    } else if same_text(name, "cd") {
        Some(Builtin::Cd)
    } else {
        None
    }
}

/// What is left to do outside the session once a builtin has been decided.
#[derive(Debug, PartialEq, Eq)]
pub enum BuiltinAction {
    /// Nothing.
    Nothing,
    /// Report the error to the user.
    Report(ShellError),
    /// Set the variable `name` of the environment to `value`.
    SetVariable { name: String, value: String },
    /// Remove the variable `name` from the environment.
    RemoveVariable { name: String },
    /// Print the lines, which show the aliases.
    ListAliases { lines: Vec<String> },
    /// Open `file` in the program `editor`, wait for it, then load the
    /// configuration anew and hand it to the session.
    EditConfig { editor: String, file: String },
    /// Load the configuration anew and hand it to the session.
    ReloadConfig,
    /// Print the status.
    ShowStatus { status: u32 },
    /// Print the history of input lines.
    ShowHistory,
    /// Change the working directory to `target` and tell the session how it
    /// went. Where `home_missing` is set, warn first that no home directory
    /// is known and the root is taken in its place.
    ChangeDirectory { target: String, home_missing: bool },
}

/// An action as the contracts speak of it.
pub enum ActionView {
    Nothing,
    Report(ErrorView),
    SetVariable { name: Seq<char>, value: Seq<char> },
    RemoveVariable { name: Seq<char> },
    ListAliases { lines: Seq<Seq<char>> },
    EditConfig { editor: Seq<char>, file: Seq<char> },
    ReloadConfig,
    ShowStatus { status: u32 },
    ShowHistory,
    ChangeDirectory { target: Seq<char>, home_missing: bool },
}

impl View for BuiltinAction {
    type V = ActionView;

    open spec fn view(&self) -> ActionView {
        match self {
            BuiltinAction::Nothing => ActionView::Nothing,
            BuiltinAction::Report(error) => ActionView::Report(error@),
            BuiltinAction::SetVariable { name, value } => ActionView::SetVariable {
                name: name@,
                value: value@,
            },
            BuiltinAction::RemoveVariable { name } => ActionView::RemoveVariable { name: name@ },
            BuiltinAction::ListAliases { lines } => ActionView::ListAliases {
                lines: texts(lines@),
            },
            BuiltinAction::EditConfig { editor, file } => ActionView::EditConfig {
                editor: editor@,
                file: file@,
            },
            BuiltinAction::ReloadConfig => ActionView::ReloadConfig,
            BuiltinAction::ShowStatus { status } => ActionView::ShowStatus { status: *status },
            BuiltinAction::ShowHistory => ActionView::ShowHistory,
            BuiltinAction::ChangeDirectory { target, home_missing } => ActionView::ChangeDirectory {
                target: target@,
                home_missing: *home_missing,
            },
        }
    }
}

/// What came of trying a command as a builtin.
#[derive(Debug, PartialEq, Eq)]
pub struct BuiltinCommandResult {
    /// Whether the command is a builtin.
    pub is_builtin: bool,
    /// Whether the rest of the input line is given up.
    pub skip: bool,
    /// What is left to do outside the session.
    pub action: BuiltinAction,
}

/// What a builtin does to a session and asks of its surroundings.
pub struct Effect {
    /// The aliases after it.
    pub aliases: Map<Seq<char>, Seq<char>>,
    /// The status after it.
    pub status: u32,
    /// Whether the rest of the input line is given up.
    pub skip: bool,
    /// What is left to do outside the session.
    pub action: ActionView,
}

/// The effect of a builtin that fails: the error is reported, the status is
/// 1, the rest of the line is given up.
pub open spec fn failure(aliases: Map<Seq<char>, Seq<char>>, error: ErrorView) -> Effect {
    Effect { aliases, status: 1, skip: true, action: ActionView::Report(error) }
}

/// The effect of a builtin that succeeds: the status is 0 and the line goes on.
pub open spec fn success(aliases: Map<Seq<char>, Seq<char>>, action: ActionView) -> Effect {
    Effect { aliases, status: 0, skip: false, action }
}

/// The directory that `cd` changes to: its argument, or without one the
/// home directory, or the root where the environment names no home; the
/// previous directory where that is `-`; all of it expanded.
pub open spec fn cd_target(
    args: Seq<Seq<char>>,
    previous_directory: Seq<char>,
    env: Map<Seq<char>, Seq<char>>,
) -> Seq<char> {
    let wanted = if args.len() > 0 {
        args[0]
    } else if env.contains_key("HOME"@) {
        env["HOME"@]
    } else {
        "/"@
    };
    expansion(
        if wanted == "-"@ {
            previous_directory
        } else {
            wanted
        },
        env,
    )
}

/// The effect of a builtin with the given arguments on a session with the
/// given aliases, status and previous directory, in the environment `env`.
pub open spec fn builtin_effect(
    which: Builtin,
    args: Seq<Seq<char>>,
    aliases: Map<Seq<char>, Seq<char>>,
    status: u32,
    previous_directory: Seq<char>,
    env: Map<Seq<char>, Seq<char>>,
) -> Effect {
    match which {
        Builtin::Export => if args.len() == 0 {
            failure(aliases, ErrorView::MissingVariable)
        } else if args.len() == 1 {
            success(aliases, ActionView::RemoveVariable { name: args[0] })
        } else {
            success(aliases, ActionView::SetVariable { name: args[0], value: args[1] })
        },
        Builtin::Unset => if args.len() == 0 {
            failure(aliases, ErrorView::MissingVariable)
        } else {
            success(aliases, ActionView::RemoveVariable { name: args[0] })
        },
        Builtin::Alias => if args.len() == 0 {
            Effect {
                aliases,
                status: 0,
                skip: true,
                action: ActionView::ListAliases { lines: alias_lines(aliases) },
            }
        } else {
            success(aliases.insert(args[0], joined(args.skip(1), " "@)), ActionView::Nothing)
        },
        Builtin::Unalias => if args.len() == 0 {
            failure(aliases, ErrorView::MissingAlias)
        } else if !aliases.contains_key(args[0]) {
            failure(aliases, ErrorView::UnknownAlias(args[0]))
        } else {
            success(aliases.remove(args[0]), ActionView::Nothing)
        },
        Builtin::Config => if !env.contains_key("EDITOR"@) {
            failure(aliases, ErrorView::EditorUnset)
        } else {
            success(
                aliases,
                ActionView::EditConfig {
                    editor: env["EDITOR"@],
                    file: expansion("~/.shell.yaml"@, env),
                },
            )
        },
        Builtin::Reload => success(aliases, ActionView::ReloadConfig),
        Builtin::Status => success(aliases, ActionView::ShowStatus { status }),
        Builtin::History => success(aliases, ActionView::ShowHistory),
        Builtin::Cd => success(
            aliases,
            ActionView::ChangeDirectory {
                target: cd_target(args, previous_directory, env),
                home_missing: args.len() == 0 && !env.contains_key("HOME"@),
            },
        ),
    }
}

/// The effect of a command on a session: that of the builtin it names, or
/// none where it names no builtin.
pub open spec fn command_effect(
    command: CommandView,
    aliases: Map<Seq<char>, Seq<char>>,
    status: u32,
    previous_directory: Seq<char>,
    env: Map<Seq<char>, Seq<char>>,
) -> Effect {
    match builtin_named(command.command) {
        Some(which) => builtin_effect(which, command.args, aliases, status, previous_directory, env),
        None => Effect { aliases, status, skip: false, action: ActionView::Nothing },
    }
}

impl Osh {
    /// Carries out `command` if it is a builtin, as far as the session
    /// goes, and says what is left to do outside it.
    pub fn try_builtin(&mut self, command: &ShellCommand, env: &Table) -> (r: BuiltinCommandResult)
        ensures
            r.is_builtin == builtin_named(command.command@) is Some,
            ({
                let effect = command_effect(
                    command@,
                    old(self).aliases@,
                    old(self).status,
                    old(self).previous_directory@,
                    env@,
                );
                &&& final(self).aliases@ == effect.aliases
                &&& final(self).status == effect.status
                &&& r.skip == effect.skip
                &&& r.action@ == effect.action
            }),
            final(self).config == old(self).config,
            final(self).history_path == old(self).history_path,
            final(self).prompt == old(self).prompt,
            final(self).previous_directory == old(self).previous_directory,
    {
        let which = match find_builtin(command.command.as_str()) {
            Some(which) => which,
            None => {
                return BuiltinCommandResult {
                    is_builtin: false,
                    skip: false,
                    action: BuiltinAction::Nothing,
                };
            },
        };
        let args = &command.args;
        let ghost given = texts(args@);
        let outcome: Result<BuiltinAction, ShellError> = match which {
            Builtin::Export => {
                if args.len() == 0 {
                    Err(ShellError::MissingVariable)
                } else if args.len() == 1 {
                    assert(given[0] == args@[0]@);
                    Ok(BuiltinAction::RemoveVariable { name: args[0].clone() })
                } else {
                    assert(given[0] == args@[0]@ && given[1] == args@[1]@);
                    Ok(
                        BuiltinAction::SetVariable {
                            name: args[0].clone(),
                            value: args[1].clone(),
                        },
                    )
                }
            },
            Builtin::Unset => {
                if args.len() == 0 {
                    Err(ShellError::MissingVariable)
                } else {
                    assert(given[0] == args@[0]@);
                    Ok(BuiltinAction::RemoveVariable { name: args[0].clone() })
                }
            },
            Builtin::Alias => {
                if args.len() == 0 {
                    self.status = 0;
                    return BuiltinCommandResult {
                        is_builtin: true,
                        skip: true,
                        action: BuiltinAction::ListAliases { lines: self.list_aliases() },
                    };
                }
                assert(given[0] == args@[0]@);
                let text = join_words(args, 1, " ");
                self.aliases.insert(args[0].clone(), text);
                Ok(BuiltinAction::Nothing)
            },
            Builtin::Unalias => {
                if args.len() == 0 {
                    Err(ShellError::MissingAlias)
                } else {
                    assert(given[0] == args@[0]@);
                    if self.aliases.remove(args[0].as_str()) {
                        Ok(BuiltinAction::Nothing)
                    } else {
                        assert(self.aliases@ =~= old(self).aliases@);
                        Err(ShellError::UnknownAlias(args[0].clone()))
                    }
                }
            },
            Builtin::Config => {
                match env.lookup("EDITOR") {
                    Some(editor) => Ok(
                        BuiltinAction::EditConfig {
                            editor,
                            file: Osh::perform_expansion_on_single_element("~/.shell.yaml", env),
                        },
                    ),
                    None => Err(ShellError::EditorUnset),
                }
            },
            Builtin::Reload => Ok(BuiltinAction::ReloadConfig),
            Builtin::Status => Ok(BuiltinAction::ShowStatus { status: self.status }),
            Builtin::History => Ok(BuiltinAction::ShowHistory),
            Builtin::Cd => {
                let home = env.lookup("HOME");
                let home_missing = args.len() == 0 && home.is_none();
                let wanted = if args.len() > 0 {
                    assert(given[0] == args@[0]@);
                    args[0].clone()
                } else {
                    match home {
                        Some(directory) => directory,
                        None => "/".to_owned(),
                    }
                };
                let target = if same_text(wanted.as_str(), "-") {
                    Osh::perform_expansion_on_single_element(
                        self.previous_directory.as_str(),
                        env,
                    )
                } else {
                    Osh::perform_expansion_on_single_element(wanted.as_str(), env)
                };
                Ok(BuiltinAction::ChangeDirectory { target, home_missing })
            },
        };
        match outcome {
            Ok(action) => {
                self.status = 0;
                BuiltinCommandResult { is_builtin: true, skip: false, action }
            },
            Err(error) => {
                self.status = 1;
                BuiltinCommandResult {
                    is_builtin: true,
                    skip: true,
                    action: BuiltinAction::Report(error),
                }
            },
        }
    }

    /// Puts a configuration that was loaded anew in force: its settings and
    /// its aliases take the place of those of the session.
    pub fn install_config(&mut self, config: ConfigFile)
        ensures
            final(self).config == config,
            final(self).aliases@ == config.aliases@,
            final(self).status == old(self).status,
            final(self).history_path == old(self).history_path,
            final(self).prompt == old(self).prompt,
            final(self).previous_directory == old(self).previous_directory,
    {
        self.aliases = config.aliases.clone();
        self.config = config;
    }
}

} // verus!
