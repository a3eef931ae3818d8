//! Expansion of a single word: variables of the environment, the home
//! directory, and wildcards.

use crate::error::{ErrorView, ShellError};
use crate::shell::Osh;
use crate::table::Table;
use crate::text::{
    find_text, has_char, index_of, lemma_sorted_meaning, precedes, replace_char, replaced,
    same_text, sort_texts, sorted, texts, trim_text, trimmed,
};
use vstd::prelude::*;
use vstd::string::{StrSliceExecFns, StringExecFns};

verus! {

/// What a word becomes in the environment `env`. A word without `$` has
/// each `~` replaced by the value of `HOME`, where the environment has one.
/// A word that starts with `$` becomes the value of the variable that the
/// rest of it names, and nothing where the environment has no such
/// variable. Any other word with a `$` stays as it is: a `$` inside a word
/// is not substituted.
pub open spec fn expansion(value: Seq<char>, env: Map<Seq<char>, Seq<char>>) -> Seq<char> {
    if !value.contains('$') {
        if value.contains('~') && env.contains_key("HOME"@) {
            replaced(value, '~', env["HOME"@])
        } else {
            value
        }
    } else if value[0] == '$' {
        if env.contains_key(value.skip(1)) {
            env[value.skip(1)]
        } else {
            Seq::empty()
        }
    } else {
        value
    }
}

/// The directory whose entries take the place of a word: none for a word
/// without `*`; for a word with `/*`, what stands before the first `/*`, and
/// the root for the word `/*` itself; else the current directory.
pub open spec fn wildcard_target(value: Seq<char>) -> Option<Seq<char>> {
    if !value.contains('*') {
        None
    } else {
        match index_of(value, "/*"@) {
            Some(at) => if value == "/*"@ {
                Some("/"@)
            } else {
                Some(value.take(at))
            },
            None => Some("."@),
        }
    }
}

/// The text that stands for the entry `name` of the directory of the word
/// `value`. For a word without `/*`, which names no directory, it is the
/// name alone. Otherwise it is the path of the entry: what stands before the
/// first `/*` of the word, a `/` unless that ends in one, and the name.
pub open spec fn entry_text(value: Seq<char>, name: Seq<char>) -> Seq<char> {
    match index_of(value, "/*"@) {
        Some(at) => {
            let directory = value.take(at);
            if directory.len() > 0 && directory.last() == '/' {
                directory + name
            } else {
                directory + "/"@ + name
            }
        },
        None => name,
    }
}

/// The texts that stand for the entries of the directory of the word
/// `value`, whose names are `names`, in lexicographic order of the names.
pub open spec fn entry_texts(value: Seq<char>, names: Seq<Seq<char>>) -> Seq<Seq<char>> {
    sorted(names).map_values(|name: Seq<char>| entry_text(value, name))
}

/// The expansion of a word with a wildcard, given the names of the entries
/// of its directory, or `None` for a directory that could not be listed. A
/// word without `*` has no expansion. A word with one becomes the texts of
/// the entries, in order; where the directory could not be listed, that is
/// an error, which names the directory.
pub open spec fn wildcard_expansion(value: Seq<char>, listing: Option<Seq<Seq<char>>>) -> Result<
    Option<Seq<Seq<char>>>,
    ErrorView,
> {
    match wildcard_target(value) {
        None => Ok(None),
        Some(directory) => match listing {
            Some(names) => Ok(Some(entry_texts(value, names))),
            None => Err(ErrorView::Unlistable(directory)),
        },
    }
}

/// The names of a listing, if there is one.
pub open spec fn names_of(listing: Option<&Vec<String>>) -> Option<Seq<Seq<char>>> {
    match listing {
        Some(names) => Some(texts(names@)),
        None => None,
    }
}

/// Putting the same text before two texts does not change their order.
pub proof fn lemma_prefix_keeps_order(prefix: Seq<char>, a: Seq<char>, b: Seq<char>)
    ensures
        precedes(prefix + a, prefix + b) == precedes(a, b),
    decreases prefix.len(),
{
    if prefix.len() == 0 {
        assert(prefix + a =~= a);
        assert(prefix + b =~= b);
    } else {
        assert((prefix + a).skip(1) =~= prefix.skip(1) + a);
        assert((prefix + b).skip(1) =~= prefix.skip(1) + b);
        assert((prefix + a)[0] == (prefix + b)[0]);
        lemma_prefix_keeps_order(prefix.skip(1), a, b);
    }
}

/// The texts of the entries of a directory are as many as its entries, each
/// is the text of a name of the listing, and they stand in lexicographic
/// order: none comes before an earlier one.
pub proof fn lemma_entry_texts_ordered(value: Seq<char>, names: Seq<Seq<char>>)
    ensures
        entry_texts(value, names).len() == names.len(),
        forall|i: int|
            0 <= i < names.len() ==> #[trigger] entry_texts(value, names)[i] == entry_text(
                value,
                sorted(names)[i],
            ),
        forall|i: int, j: int|
            0 <= i < j < names.len() ==> !precedes(
                #[trigger] entry_texts(value, names)[j],
                #[trigger] entry_texts(value, names)[i],
            ),
{
    lemma_sorted_meaning(names);
    let texts = entry_texts(value, names);
    assert forall|i: int, j: int| 0 <= i < j < names.len() implies !precedes(
        #[trigger] texts[j],
        #[trigger] texts[i],
    ) by {
        let a = sorted(names)[i];
        let b = sorted(names)[j];
        assert(!precedes(b, a));
        match index_of(value, "/*"@) {
            Some(at) => {
                let directory = value.take(at);
                if directory.len() > 0 && directory.last() == '/' {
                    lemma_prefix_keeps_order(directory, b, a);
                } else {
                    lemma_prefix_keeps_order(directory + "/"@, b, a);
                }
            },
            None => {},
        }
    }
}

/// What the shell derives from its surroundings.
pub trait Utils {
    /// Expands the variables and the home directory in one word.
    fn perform_expansion_on_single_element(value: &str, env: &Table) -> (r: String)
        ensures
            r@ == expansion(value@, env@),
    ;

    /// The expansion of a word with a wildcard, given the names of the
    /// entries of its directory, or `None` where the directory could not be
    /// listed.
    fn perform_wildcard_expansion(value: &str, listing: Option<&Vec<String>>) -> (r: Result<
        Option<Vec<String>>,
        ShellError,
    >)
        ensures
            match wildcard_expansion(value@, names_of(listing)) {
                Ok(None) => r is Ok && r->Ok_0 is None,
                Ok(Some(entries)) => r is Ok && r->Ok_0 is Some && texts(r->Ok_0->0@) == entries,
                Err(error) => r is Err && r->Err_0@ == error,
            },
    ;

    /// The prompt text of a session without a configured one.
    fn default_prompt() -> (r: String)
        ensures
            r@ == seq!['$'],
    ;

    /// The user name: the value of `USERNAME`, or nothing.
    fn get_username(env: &Table) -> (r: String)
        ensures
            r@ == if env@.contains_key("USERNAME"@) {
                env@["USERNAME"@]
            } else {
                Seq::empty()
            },
    ;

    /// The host name: what the host name file holds, without the white space
    /// around it, or nothing where the file could not be read.
    fn get_hostname(contents: Option<&str>) -> (r: String)
        ensures
            r@ == match contents {
                Some(text) => trimmed(text@),
                None => Seq::empty(),
            },
    ;
}

impl Utils for Osh {
    fn perform_expansion_on_single_element(value: &str, env: &Table) -> (r: String) {
        if !has_char(value, '$') {
            if has_char(value, '~') {
                match env.lookup("HOME") {
                    Some(home) => {
                        return replace_char(value, '~', home.as_str());
                    },
                    None => {},
                }
            }
            return value.to_owned();
        }
        assert(value@.len() > 0);
        if value.get_char(0) == '$' {
            let name = value.substring_char(1, value.unicode_len());
            assert(name@ == value@.skip(1));
            match env.lookup(name) {
                Some(text) => text,
                None => String::new(),
            }
        } else {
            value.to_owned()
        }
    }

    fn perform_wildcard_expansion(value: &str, listing: Option<&Vec<String>>) -> (r: Result<
        Option<Vec<String>>,
        ShellError,
    >) {
        let directory = match Osh::wildcard_directory(value) {
            Some(directory) => directory,
            None => {
                return Ok(None);
            },
        };
        let names = match listing {
            Some(names) => names,
            None => {
                return Err(ShellError::Unlistable(directory));
            },
        };
        let ordered = sort_texts(names);
        let mut out: Vec<String> = Vec::new();
        let mut i: usize = 0;
        while i < ordered.len()
            invariant
                i <= ordered.len(),
                out.len() == i,
                forall|j: int|
                    0 <= j < i ==> (#[trigger] out@[j])@ == entry_text(value@, ordered@[j]@),
            decreases ordered.len() - i,
        {
            out.push(Osh::entry_path(value, ordered[i].as_str()));
            i += 1;
        }
        assert(texts(out@) =~= entry_texts(value@, texts(names@)));
        Ok(Some(out))
    }

    fn default_prompt() -> (r: String) {
        proof {
            reveal_strlit("$");
        }
        assert("$"@ =~= seq!['$']);
        "$".to_owned()
    }

    fn get_username(env: &Table) -> (r: String) {
        match env.lookup("USERNAME") {
            Some(name) => name,
            None => String::new(),
        }
    }

    fn get_hostname(contents: Option<&str>) -> (r: String) {
        match contents {
            Some(text) => trim_text(text),
            None => String::new(),
        }
    }
}

impl Osh {
    /// The text that stands for the entry `name` of the directory of the
    /// word `value`.
    pub fn entry_path(value: &str, name: &str) -> (r: String)
        ensures
            r@ == entry_text(value@, name@),
    {
        match find_text(value, "/*") {
            Some(at) => {
                let mut path = value.substring_char(0, at).to_owned();
                if !(at > 0 && value.get_char(at - 1) == '/') {
                    path.append("/");
                }
                path.append(name);
                path
            },
            None => name.to_owned(),
        }
    }

    /// The directory whose entries take the place of `value`, if it holds a
    /// wildcard.
    pub fn wildcard_directory(value: &str) -> (r: Option<String>)
        ensures
            r is Some == wildcard_target(value@) is Some,
            r is Some ==> r->0@ == wildcard_target(value@)->0,
    {
        if !has_char(value, '*') {
            return None;
        }
        match find_text(value, "/*") {
            Some(at) => {
                if same_text(value, "/*") {
                    Some("/".to_owned())
                } else {
                    Some(value.substring_char(0, at).to_owned())
                }
            },
            None => Some(".".to_owned()),
        }
    }
}

} // verus!
