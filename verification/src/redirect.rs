//! Where the output of a redirected command is written.

use crate::shell::Osh;
use crate::text::{find_text, index_of, occurs_at, trim_text, trimmed};
use vstd::prelude::*;
use vstd::string::StrSliceExecFns;

verus! {

/// How the output of a redirected command is written to a file.
#[derive(Debug, PartialEq, Eq)]
pub struct RedirectPlan {
    /// Whether the standard error is written after the standard output.
    pub with_stderr: bool,
    /// Whether the output is added to the end of the file; otherwise the
    /// file is created if need be and emptied first.
    pub append: bool,
    /// The name of the file.
    pub file: String,
}

/// A plan as the contracts speak of it.
pub struct RedirectView {
    pub with_stderr: bool,
    pub append: bool,
    pub file: Seq<char>,
}

impl View for RedirectPlan {
    type V = RedirectView;

    open spec fn view(&self) -> RedirectView {
        RedirectView { with_stderr: self.with_stderr, append: self.append, file: self.file@ }
    }
}

/// What stands in `s` before the first `mark`: all of `s` where there is none.
pub open spec fn before_mark(s: Seq<char>, mark: Seq<char>) -> Seq<char> {
    match index_of(s, mark) {
        Some(at) => s.take(at),
        None => s,
    }
}

/// What stands in `s` between the first `mark` and the one after it, or up
/// to the end where no other follows; nothing where `s` holds no `mark`.
pub open spec fn after_mark(s: Seq<char>, mark: Seq<char>) -> Option<Seq<char>> {
    match index_of(s, mark) {
        Some(at) => Some(before_mark(s.skip(at + mark.len()), mark)),
        None => None,
    }
}

/// The plan that the text of a command asks for, if it redirects at all.
/// `>>` anywhere asks to append. The file is named between the first `>>`,
/// or else the first `>`, and the next one, white space aside. The
/// standard error is wanted where a `2` stands right before the first `>`.
pub open spec fn redirect_plan(command: Seq<char>) -> Option<RedirectView> {
    let append = index_of(command, ">>"@) is Some;
    let named = after_mark(
        command,
        if append {
            ">>"@
        } else {
            ">"@
        },
    );
    let head = before_mark(command, ">"@);
    match named {
        Some(name) => Some(
            RedirectView {
                with_stderr: head.len() > 0 && head.last() == '2',
                append,
                file: trimmed(name),
            },
        ),
        None => None,
    }
}

/// What stands in `s` from position `from` up to the first `mark` after
/// it, or up to the end.
fn upto_mark(s: &str, from: usize, mark: &str) -> (r: String)
    requires
        from <= s@.len(),
    ensures
        r@ == before_mark(s@.skip(from as int), mark@),
{
    let rest = s.substring_char(from, s.unicode_len());
    assert(rest@ =~= s@.skip(from as int));
    match find_text(rest, mark) {
        Some(at) => rest.substring_char(0, at).to_owned(),
        None => rest.to_owned(),
    }
}

/// Where `>>` stands in a text, `>` stands too: a text without `>` has no `>>`.
pub proof fn lemma_doubled_holds_single(s: Seq<char>)
    ensures
        index_of(s, ">>"@) is Some ==> index_of(s, ">"@) is Some,
{
    reveal_strlit(">>");
    reveal_strlit(">");
    if index_of(s, ">>"@) is Some {
        let at = choose|i: int| occurs_at(s, ">>"@, i);
        assert(occurs_at(s, ">>"@, at));
        assert(s.subrange(at, at + 1) =~= ">"@) by {
            assert(s.subrange(at, at + 2)[0] == '>');
        }
        assert(occurs_at(s, ">"@, at));
    }
}

impl Osh {
    /// The plan by which the output of `command` is written to a file, if
    /// its text redirects at all.
    pub fn redirect(command: &str) -> (r: Option<RedirectPlan>)
        ensures
            r is Some == redirect_plan(command@) is Some,
            r is Some ==> r->0@ == redirect_plan(command@)->0,
    {
        proof {
            reveal_strlit(">>");
            reveal_strlit(">");
            lemma_doubled_holds_single(command@);
        }
        let length = command.unicode_len();
        let single = match find_text(command, ">") {
            Some(at) => at,
            None => {
                return None;
            },
        };
        assert(single + 1 <= length);
        let doubled = find_text(command, ">>");
        assert(doubled is Some ==> doubled->0 + 2 <= length);
        let name = match doubled {
            Some(at) => upto_mark(command, at + 2, ">>"),
            None => upto_mark(command, single + 1, ">"),
        };
        let with_stderr = single > 0 && command.get_char(single - 1) == '2';
        Some(RedirectPlan { with_stderr, append: doubled.is_some(), file: trim_text(name.as_str()) })
    }
}

} // verus!
