//! The prompt: user and host, the working directory, and the prompt text,
//! with the colours of a terminal where the terminal takes them.

use crate::config::ConfigFile;
use crate::shell::Osh;
use crate::text::{replace_char, replaced};
use vstd::prelude::*;
use vstd::string::StringExecFns;

verus! {

/// `text` between the escape sequence `codes` and the sequence that resets
/// the terminal.
pub open spec fn painted(codes: Seq<char>, text: Seq<char>) -> Seq<char> {
    codes + text + seq!['\x1b', '[', '0', 'm']
}

/// The escape sequence for green text.
pub open spec fn green_codes() -> Seq<char> {
    seq!['\x1b', '[', '3', '2', 'm']
}

/// The escape sequences for blue, bold text.
pub open spec fn blue_bold_codes() -> Seq<char> {
    seq!['\x1b', '[', '3', '4', 'm', '\x1b', '[', '1', 'm']
}

/// The escape sequence for bold text.
pub open spec fn bold_codes() -> Seq<char> {
    seq!['\x1b', '[', '1', 'm']
}

/// Whether `out` shows `text`, plain or painted with `codes`.
pub open spec fn shows(out: Seq<char>, text: Seq<char>, codes: Seq<char>) -> bool {
    out == text || out == painted(codes, text)
}

/// Calls `console::style(..).green()` and formats the result. `console`
/// writes the text between the escape sequence for a green foreground and
/// the reset sequence where colours are enabled for standard output, and
/// writes the text alone where they are not; which of the two holds depends
/// on the terminal and the environment, so the contract allows both.
#[verifier::external_body]
fn green(text: &str) -> (r: String)
    ensures
        shows(r@, text@, green_codes()),
{
    console::style(text).green().to_string()
}

/// Calls `console::style(..).blue().bold()` and formats the result: the text
/// alone, or the text between the escape sequences for a blue foreground and
/// for bold and the reset sequence, as colours are disabled or enabled.
#[verifier::external_body]
fn blue_bold(text: &str) -> (r: String)
    ensures
        shows(r@, text@, blue_bold_codes()),
{
    console::style(text).blue().bold().to_string()
}

/// Calls `console::style(..).bold()` and formats the result: the text alone,
/// or the text between the escape sequence for bold and the reset sequence,
/// as colours are disabled or enabled.
#[verifier::external_body]
fn bold(text: &str) -> (r: String)
    ensures
        shows(r@, text@, bold_codes()),
{
    console::style(text).bold().to_string()
}

/// The prompt made of its parts as they are shown.
pub open spec fn prompt_layout(
    user: Seq<char>,
    host: Seq<char>,
    directory: Seq<char>,
    symbol: Seq<char>,
) -> Seq<char> {
    user + host + directory + seq![' '] + symbol + seq![' ']
}

/// What the prompt says of the host: nothing for an empty name, else `@`,
/// the name and a space.
pub open spec fn host_label(hostname: Seq<char>) -> Seq<char> {
    seq!['@'] + hostname + seq![' ']
}

/// Whether `prompt` is a prompt for the given names, status and working
/// directory: the user name in green, the host label in green, the
/// directory without its double quotes, blue and bold after a success and
/// bold after a failure, a space, the prompt text and a space. An empty
/// name is left out, and each part may stand unpainted.
pub open spec fn is_prompt(
    prompt: Seq<char>,
    username: Seq<char>,
    hostname: Seq<char>,
    symbol: Seq<char>,
    status: u32,
    directory: Seq<char>,
) -> bool {
    exists|user: Seq<char>, host: Seq<char>, dir: Seq<char>|
        {
            &&& #[trigger] prompt_layout(user, host, dir, symbol) == prompt
            &&& if username.len() == 0 {
                user.len() == 0
            } else {
                shows(user, username, green_codes())
            }
            &&& if hostname.len() == 0 {
                host.len() == 0
            } else {
                shows(host, host_label(hostname), green_codes())
            }
            &&& shows(
                dir,
                replaced(directory, '"', Seq::empty()),
                if status == 0 {
                    blue_bold_codes()
                } else {
                    bold_codes()
                },
            )
        }
}

/// Puts the parts of a prompt together as they are shown.
pub fn compose_prompt(user: &str, host: &str, directory: &str, symbol: &str) -> (r: String)
    ensures
        r@ == prompt_layout(user@, host@, directory@, symbol@),
{
    proof {
        reveal_strlit(" ");
    }
    assert(" "@ =~= seq![' ']);
    let mut prompt = user.to_owned();
    prompt.append(host);
    prompt.append(directory);
    prompt.append(" ");
    prompt.append(symbol);
    prompt.append(" ");
    prompt
}

impl Osh {
    /// The prompt for the given settings and status, in the working
    /// directory `directory`.
    pub fn build_prompt(config: &ConfigFile, status: u32, directory: &str) -> (r: String)
        ensures
            is_prompt(
                r@,
                config.username@,
                config.hostname@,
                config.prompt@,
                status,
                directory@,
            ),
    {
        let user = if config.username.as_str().is_empty() {
            String::new()
        } else {
            green(config.username.as_str())
        };
        let host = if config.hostname.as_str().is_empty() {
            String::new()
        } else {
            proof {
                reveal_strlit("@");
                reveal_strlit(" ");
            }
            let mut label = "@".to_owned();
            label.append(config.hostname.as_str());
            label.append(" ");
            assert(label@ =~= host_label(config.hostname@));
            green(label.as_str())
        };
        let shown = replace_char(directory, '"', "");
        proof {
            reveal_strlit("");
        }
        assert(""@ =~= Seq::<char>::empty());
        let dir = if status == 0 {
            blue_bold(shown.as_str())
        } else {
            bold(shown.as_str())
        };
        let prompt = compose_prompt(
            user.as_str(),
            host.as_str(),
            dir.as_str(),
            config.prompt.as_str(),
        );
        assert(prompt_layout(user@, host@, dir@, config.prompt@) == prompt@);
        prompt
    }
}

} // verus!
