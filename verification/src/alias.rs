//! The aliases of a session.

use crate::shell::Osh;
use crate::table::{listing, pairs};
use crate::text::texts;
use vstd::prelude::*;
use vstd::string::StringExecFns;

verus! {

/// The line that shows one alias: its name, a colon and a space, its text.
pub open spec fn alias_line(pair: (Seq<char>, Seq<char>)) -> Seq<char> {
    pair.0 + ": "@ + pair.1
}

/// The lines that show the aliases of a map, in the order of their names.
pub open spec fn alias_lines(aliases: Map<Seq<char>, Seq<char>>) -> Seq<Seq<char>> {
    listing(aliases).map_values(|pair: (Seq<char>, Seq<char>)| alias_line(pair))
}

/// What a holder of aliases answers.
pub trait Alias {
    /// The aliases held: each name with the text that replaces it.
    spec fn known_aliases(&self) -> Map<Seq<char>, Seq<char>>;

    /// The text that replaces exactly `value`, if it is an alias.
    fn lookup_aliases(&self, value: &str) -> (r: Option<String>)
        ensures
            r is Some == self.known_aliases().contains_key(value@),
            r is Some ==> r->0@ == self.known_aliases()[value@],
    ;

    /// The lines that show the aliases, in the order of their names.
    fn list_aliases(&self) -> (r: Vec<String>)
        ensures
            texts(r@) == alias_lines(self.known_aliases()),
    ;
}

impl Alias for Osh {
    open spec fn known_aliases(&self) -> Map<Seq<char>, Seq<char>> {
        self.aliases@
    }

    fn lookup_aliases(&self, value: &str) -> (r: Option<String>) {
        self.aliases.lookup(value)
    }

    fn list_aliases(&self) -> (r: Vec<String>) {
        let listed = self.aliases.list();
        let mut lines: Vec<String> = Vec::new();
        let mut i: usize = 0;
        while i < listed.len()
            invariant
                i <= listed.len(),
                lines.len() == i,
                forall|j: int| 0 <= j < i ==> (#[trigger] lines@[j])@ == alias_line(pairs(listed@)[j]),
            decreases listed.len() - i,
        {
            let mut line = listed[i].0.clone();
            line.append(": ");
            line.append(listed[i].1.as_str());
            lines.push(line);
            i += 1;
        }
        assert(texts(lines@) =~= alias_lines(self.aliases@));
        lines
    }
}

} // verus!
