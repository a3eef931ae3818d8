//! Resolution: from the words of a line to the words of its commands, by
//! expansion, aliases and wildcards.

use crate::alias::Alias;
use crate::error::{ErrorView, ShellError};
use crate::shell::Osh;
use crate::table::Table;
use crate::text::{lemma_sorted_ignores_arrival, same_text, texts};
use crate::utils::{expansion, names_of, wildcard_expansion, wildcard_target, Utils};
use crate::words::{shell_split, split, tokenize};
use vstd::prelude::*;

verus! {

/// One piece of a resolved line.
#[derive(Debug, PartialEq, Eq)]
pub enum Piece {
    /// A word that stands for itself.
    Word(String),
    /// A word with a wildcard: the entries of its directory take its place.
    Wildcard(String),
}

/// A piece as the contracts speak of it.
pub enum PieceView {
    Word(Seq<char>),
    Wildcard(Seq<char>),
}

impl View for Piece {
    type V = PieceView;

    open spec fn view(&self) -> PieceView {
        match self {
            Piece::Word(word) => PieceView::Word(word@),
            Piece::Wildcard(word) => PieceView::Wildcard(word@),
        }
    }
}

/// The views of a sequence of pieces.
pub open spec fn pieces(v: Seq<Piece>) -> Seq<PieceView> {
    Seq::new(v.len(), |i: int| v[i]@)
}

/// The views of a sequence of listings, each the names of the entries of a
/// directory, of which some may be missing.
pub open spec fn listings(v: Seq<Option<Vec<String>>>) -> Seq<Option<Seq<Seq<char>>>> {
    Seq::new(
        v.len(),
        |i: int|
            match v[i] {
                Some(entries) => Some(texts(entries@)),
                None => None,
            },
    )
}

/// Words as pieces that stand for themselves.
pub open spec fn as_words(words: Seq<Seq<char>>) -> Seq<PieceView> {
    words.map_values(|word: Seq<char>| PieceView::Word(word))
}

/// The piece of an expanded word that is no alias: a wildcard where it
/// holds one, else a word that stands for itself.
pub open spec fn settled(expanded: Seq<char>) -> PieceView {
    if wildcard_target(expanded) is Some {
        PieceView::Wildcard(expanded)
    } else {
        PieceView::Word(expanded)
    }
}

/// The pieces of one word. The word is expanded first. On a line that is
/// taken literally that is all. Otherwise an expanded word that is an alias
/// becomes the words of the alias text, which are not looked up again; one
/// that is no alias is settled as a wildcard or as itself.
pub open spec fn resolved_word(
    word: Seq<char>,
    aliases: Map<Seq<char>, Seq<char>>,
    env: Map<Seq<char>, Seq<char>>,
    literal: bool,
) -> Result<Seq<PieceView>, ErrorView> {
    let expanded = expansion(word, env);
    if literal {
        Ok(seq![PieceView::Word(expanded)])
    } else if aliases.contains_key(expanded) {
        match shell_split(aliases[expanded]) {
            Some(words) => Ok(as_words(words)),
            None => Err(ErrorView::BadAlias(expanded)),
        }
    } else {
        Ok(seq![settled(expanded)])
    }
}

/// The pieces of the words of a line, one word after the other; the first
/// word that fails decides the error.
pub open spec fn resolved(
    words: Seq<Seq<char>>,
    aliases: Map<Seq<char>, Seq<char>>,
    env: Map<Seq<char>, Seq<char>>,
    literal: bool,
) -> Result<Seq<PieceView>, ErrorView>
    decreases words.len(),
{
    if words.len() == 0 {
        Ok(Seq::empty())
    } else {
        match resolved(words.drop_last(), aliases, env, literal) {
            Ok(front) => match resolved_word(words.last(), aliases, env, literal) {
                Ok(more) => Ok(front + more),
                Err(e) => Err(e),
            },
            Err(e) => Err(e),
        }
    }
}

/// Whether a line is taken literally: its first word is exactly `unalias`,
/// so that the aliases it names are not replaced.
pub open spec fn is_literal(words: Seq<Seq<char>>) -> bool {
    words.len() > 0 && words[0] == "unalias"@
}

/// The pieces of a line of words.
pub open spec fn resolution(
    words: Seq<Seq<char>>,
    aliases: Map<Seq<char>, Seq<char>>,
    env: Map<Seq<char>, Seq<char>>,
) -> Result<Seq<PieceView>, ErrorView> {
    resolved(words, aliases, env, is_literal(words))
}

/// The directories that the pieces want listed, in order: one for each
/// wildcard.
pub open spec fn wanted(pieces: Seq<PieceView>) -> Seq<Seq<char>>
    decreases pieces.len(),
{
    if pieces.len() == 0 {
        Seq::empty()
    } else {
        match pieces.last() {
            PieceView::Word(_) => wanted(pieces.drop_last()),
            PieceView::Wildcard(word) => match wildcard_target(word) {
                Some(directory) => wanted(pieces.drop_last()).push(directory),
                None => wanted(pieces.drop_last()),
            },
        }
    }
}

/// `front` before the words of `rest`, where `rest` has words.
pub open spec fn preceded(front: Seq<Seq<char>>, rest: Result<Seq<Seq<char>>, ErrorView>) -> Result<
    Seq<Seq<char>>,
    ErrorView,
> {
    match rest {
        Ok(words) => Ok(front + words),
        Err(e) => Err(e),
    }
}

/// The first of the listings, or none where no listing is left.
pub open spec fn first_listing(listings: Seq<Option<Seq<Seq<char>>>>) -> Option<Seq<Seq<char>>> {
    if listings.len() > 0 {
        listings[0]
    } else {
        None
    }
}

/// The words of the pieces, given the listings of the directories they
/// want, in the same order. A word stands for itself. A wildcard takes the
/// next listing and stands for its expansion; the first whose directory
/// could not be listed, or has no listing left, decides the error.
pub open spec fn filled(
    pieces: Seq<PieceView>,
    listings: Seq<Option<Seq<Seq<char>>>>,
) -> Result<Seq<Seq<char>>, ErrorView>
    decreases pieces.len(),
{
    if pieces.len() == 0 {
        Ok(Seq::empty())
    } else {
        match pieces[0] {
            PieceView::Word(word) => preceded(seq![word], filled(pieces.skip(1), listings)),
            PieceView::Wildcard(word) => match wildcard_expansion(word, first_listing(listings)) {
                Ok(Some(entries)) => preceded(entries, filled(pieces.skip(1), listings.skip(1))),
                Ok(None) => preceded(seq![word], filled(pieces.skip(1), listings)),
                Err(e) => Err(e),
            },
        }
    }
}

/// Whether two sequences of listings hold the same entries, listing by
/// listing, each entry as often in the one as in the other.
pub open spec fn same_entries(
    a: Seq<Option<Seq<Seq<char>>>>,
    b: Seq<Option<Seq<Seq<char>>>>,
) -> bool {
    &&& a.len() == b.len()
    &&& forall|i: int|
        0 <= i < a.len() ==> match (#[trigger] a[i], b[i]) {
            (Some(x), Some(y)) => x.to_multiset() == y.to_multiset(),
            (None, None) => true,
            _ => false,
        }
}

/// The words of a line do not depend on the order in which a directory
/// hands out its entries.
pub proof fn lemma_filled_ignores_arrival(
    pieces: Seq<PieceView>,
    a: Seq<Option<Seq<Seq<char>>>>,
    b: Seq<Option<Seq<Seq<char>>>>,
)
    requires
        same_entries(a, b),
    ensures
        filled(pieces, a) == filled(pieces, b),
    decreases pieces.len(),
{
    if pieces.len() > 0 {
        lemma_filled_ignores_arrival(pieces.skip(1), a, b);
        match pieces[0] {
            PieceView::Word(_) => {},
            PieceView::Wildcard(word) => {
                if a.len() > 0 {
                    assert(a[0] is Some == b[0] is Some);
                    if a[0] is Some {
                        lemma_sorted_ignores_arrival(a[0]->0, b[0]->0);
                        assert(same_entries(a.skip(1), b.skip(1))) by {
                            assert forall|i: int| 0 <= i < a.skip(1).len() implies match (
                                #[trigger] a.skip(1)[i],
                                b.skip(1)[i],
                            ) {
                                (Some(x), Some(y)) => x.to_multiset() == y.to_multiset(),
                                (None, None) => true,
                                _ => false,
                            } by {
                                assert(a.skip(1)[i] == a[i + 1]);
                                assert(b.skip(1)[i] == b[i + 1]);
                            }
                        }
                        lemma_filled_ignores_arrival(pieces.skip(1), a.skip(1), b.skip(1));
                    }
                }
            },
        }
    }
}

/// A word with a wildcard, resolved and filled by itself, becomes what its
/// expansion says: the texts of the entries of its directory, or the error
/// of a directory that could not be listed.
pub proof fn lemma_wildcard_filled(word: Seq<char>, listing: Option<Seq<Seq<char>>>)
    requires
        wildcard_target(word) is Some,
    ensures
        wanted(seq![settled(word)]) == seq![wildcard_target(word)->0],
        filled(seq![settled(word)], seq![listing]) == match wildcard_expansion(word, listing) {
            Ok(found) => Ok::<Seq<Seq<char>>, ErrorView>(found->0),
            Err(e) => Err(e),
        },
{
    let pieces = seq![settled(word)];
    let none = Seq::<PieceView>::empty();
    assert(pieces.last() == PieceView::Wildcard(word));
    assert(pieces.drop_last() =~= none);
    assert(wanted(none) =~= Seq::<Seq<char>>::empty());
    assert(wanted(pieces) =~= seq![wildcard_target(word)->0]);
    assert(pieces[0] == PieceView::Wildcard(word));
    assert(pieces.skip(1) =~= none);
    assert(first_listing(seq![listing]) == listing);
    assert(filled(none, seq![listing].skip(1)) == Ok::<Seq<Seq<char>>, ErrorView>(Seq::empty()));
    if listing is Some {
        let entries = wildcard_expansion(word, listing)->Ok_0->0;
        assert(entries + Seq::<Seq<char>>::empty() =~= entries);
    }
}

/// An alias is replaced once: where a word expands to the name of an alias,
/// its pieces are the words of the alias text as they stand, whatever those
/// words are, even names of aliases themselves.
pub proof fn lemma_alias_replaced_once(
    word: Seq<char>,
    aliases: Map<Seq<char>, Seq<char>>,
    env: Map<Seq<char>, Seq<char>>,
    words: Seq<Seq<char>>,
)
    requires
        aliases.contains_key(expansion(word, env)),
        shell_split(aliases[expansion(word, env)]) == Some(words),
    ensures
        resolved_word(word, aliases, env, false) == Ok::<Seq<PieceView>, ErrorView>(
            as_words(words),
        ),
        forall|i: int|
            0 <= i < words.len() ==> resolved_word(word, aliases, env, false)->Ok_0[i]
                == PieceView::Word(#[trigger] words[i]),
{
}

/// On a literal line every word is expanded and nothing else.
pub proof fn lemma_resolved_literal(
    words: Seq<Seq<char>>,
    aliases: Map<Seq<char>, Seq<char>>,
    env: Map<Seq<char>, Seq<char>>,
)
    ensures
        resolved(words, aliases, env, true) == Ok::<Seq<PieceView>, ErrorView>(
            as_words(words.map_values(|word: Seq<char>| expansion(word, env))),
        ),
    decreases words.len(),
{
    let expand = |word: Seq<char>| expansion(word, env);
    if words.len() == 0 {
        assert(as_words(words.map_values(expand)) =~= Seq::<PieceView>::empty());
    } else {
        lemma_resolved_literal(words.drop_last(), aliases, env);
        assert(as_words(words.map_values(expand)) =~= as_words(
            words.drop_last().map_values(expand),
        ) + seq![PieceView::Word(expansion(words.last(), env))]);
    }
}

/// A line whose first word is `unalias` keeps its words: each is expanded,
/// and none is replaced by an alias or a listing, whatever the aliases are.
pub proof fn lemma_unalias_keeps_words(
    words: Seq<Seq<char>>,
    aliases: Map<Seq<char>, Seq<char>>,
    env: Map<Seq<char>, Seq<char>>,
)
    requires
        is_literal(words),
    ensures
        resolution(words, aliases, env) == Ok::<Seq<PieceView>, ErrorView>(
            as_words(words.map_values(|word: Seq<char>| expansion(word, env))),
        ),
{
    lemma_resolved_literal(words, aliases, env);
}

impl Osh {
    /// The words of an alias text as pieces: each stands for itself.
    pub fn alias_pieces(words: Vec<String>) -> (r: Vec<Piece>)
        ensures
            pieces(r@) == as_words(texts(words@)),
    {
        let mut out: Vec<Piece> = Vec::new();
        let mut i: usize = 0;
        while i < words.len()
            invariant
                i <= words.len(),
                out.len() == i,
                forall|j: int| 0 <= j < i ==> (#[trigger] out@[j])@ == PieceView::Word(words@[j]@),
            decreases words.len() - i,
        {
            out.push(Piece::Word(words[i].clone()));
            i += 1;
        }
        assert(pieces(out@) =~= as_words(texts(words@)));
        out
    }

    /// The piece of an expanded word that is no alias.
    pub fn settle(expanded: String) -> (r: Piece)
        ensures
            r@ == settled(expanded@),
    {
        match Osh::wildcard_directory(expanded.as_str()) {
            Some(_) => Piece::Wildcard(expanded),
            None => Piece::Word(expanded),
        }
    }

    /// The pieces of one word of a line.
    pub fn resolve_word(&self, word: &str, env: &Table, literal: bool) -> (r: Result<
        Vec<Piece>,
        ShellError,
    >)
        ensures
            match r {
                Ok(found) => resolved_word(word@, self.aliases@, env@, literal) == Ok::<
                    Seq<PieceView>,
                    ErrorView,
                >(pieces(found@)),
                Err(e) => resolved_word(word@, self.aliases@, env@, literal) == Err::<
                    Seq<PieceView>,
                    ErrorView,
                >(e@),
            },
    {
        let expanded = Osh::perform_expansion_on_single_element(word, env);
        if literal {
            let out = vec![Piece::Word(expanded)];
            assert(pieces(out@) =~= seq![PieceView::Word(expanded@)]);
            return Ok(out);
        }
        match self.lookup_aliases(expanded.as_str()) {
            Some(text) => match split(text.as_str()) {
                Ok(words) => Ok(Osh::alias_pieces(words)),
                Err(_) => Err(ShellError::BadAlias(expanded)),
            },
            None => {
                let ghost shown = expanded@;
                let out = vec![Osh::settle(expanded)];
                assert(pieces(out@) =~= seq![settled(shown)]);
                Ok(out)
            },
        }
    }

    /// The pieces of the words of a line.
    pub fn resolve_words(&self, words: &Vec<String>, env: &Table) -> (r: Result<
        Vec<Piece>,
        ShellError,
    >)
        ensures
            match r {
                Ok(found) => resolution(texts(words@), self.aliases@, env@) == Ok::<
                    Seq<PieceView>,
                    ErrorView,
                >(pieces(found@)),
                Err(e) => resolution(texts(words@), self.aliases@, env@) == Err::<
                    Seq<PieceView>,
                    ErrorView,
                >(e@),
            },
    {
        let ghost all = texts(words@);
        let literal = words.len() > 0 && same_text(words[0].as_str(), "unalias");
        assert(literal == is_literal(all));
        let mut out: Vec<Piece> = Vec::new();
        let mut i: usize = 0;
        assert(all.take(0) =~= Seq::<Seq<char>>::empty());
        assert(pieces(out@) =~= Seq::<PieceView>::empty());
        while i < words.len()
            invariant
                i <= words.len(),
                all == texts(words@),
                literal == is_literal(all),
                resolved(all.take(i as int), self.aliases@, env@, literal) == Ok::<
                    Seq<PieceView>,
                    ErrorView,
                >(pieces(out@)),
            decreases words.len() - i,
        {
            let ghost front = pieces(out@);
            proof {
                assert(all.take(i + 1).drop_last() =~= all.take(i as int));
                assert(all.take(i + 1).last() == words@[i as int]@);
            }
            match self.resolve_word(words[i].as_str(), env, literal) {
                Ok(mut more) => {
                    let ghost added = pieces(more@);
                    out.append(&mut more);
                    assert(pieces(out@) =~= front + added);
                },
                Err(e) => {
                    proof {
                        lemma_resolved_error(all, i + 1, self.aliases@, env@, literal);
                    }
                    return Err(e);
                },
            }
            i += 1;
        }
        assert(all.take(i as int) =~= all);
        Ok(out)
    }

    /// Splits a line into words and resolves them. A line that cannot be
    /// resolved sets the status to 1.
    pub fn resolve(&mut self, line: &str, env: &Table) -> (r: Result<Vec<Piece>, ShellError>)
        ensures
            match shell_split(line@) {
                Some(words) => match r {
                    Ok(found) => resolution(words, old(self).aliases@, env@) == Ok::<
                        Seq<PieceView>,
                        ErrorView,
                    >(pieces(found@)),
                    Err(e) => resolution(words, old(self).aliases@, env@) == Err::<
                        Seq<PieceView>,
                        ErrorView,
                    >(e@),
                },
                None => r is Err && r->Err_0@ == ErrorView::UnclosedQuote,
            },
            final(self).status == if r is Ok {
                old(self).status
            } else {
                1
            },
            final(self).aliases == old(self).aliases,
            final(self).config == old(self).config,
            final(self).history_path == old(self).history_path,
            final(self).prompt == old(self).prompt,
            final(self).previous_directory == old(self).previous_directory,
    {
        let outcome = match tokenize(line) {
            Ok(words) => self.resolve_words(&words, env),
            Err(e) => Err(e),
        };
        if outcome.is_err() {
            self.status = 1;
        }
        outcome
    }

    /// The directories that the pieces want listed, in order.
    pub fn wanted_directories(found: &Vec<Piece>) -> (r: Vec<String>)
        ensures
            texts(r@) == wanted(pieces(found@)),
    {
        let ghost all = pieces(found@);
        let mut out: Vec<String> = Vec::new();
        let mut i: usize = 0;
        assert(all.take(0) =~= Seq::<PieceView>::empty());
        assert(texts(out@) =~= Seq::<Seq<char>>::empty());
        while i < found.len()
            invariant
                i <= found.len(),
                all == pieces(found@),
                texts(out@) == wanted(all.take(i as int)),
            decreases found.len() - i,
        {
            let ghost before = texts(out@);
            proof {
                assert(all.take(i + 1).drop_last() =~= all.take(i as int));
                assert(all.take(i + 1).last() == found@[i as int]@);
            }
            match &found[i] {
                Piece::Word(_) => {},
                Piece::Wildcard(word) => {
                    match Osh::wildcard_directory(word.as_str()) {
                        Some(directory) => {
                            out.push(directory);
                            assert(texts(out@) =~= before.push(wildcard_target(word@)->0));
                        },
                        None => {},
                    }
                },
            }
            i += 1;
        }
        assert(all.take(i as int) =~= all);
        out
    }

    /// The words of the pieces, given the listings of the directories they
    /// want: the names of the entries of each, or `None` for a directory
    /// that could not be listed.
    pub fn fill(found: &Vec<Piece>, given: &Vec<Option<Vec<String>>>) -> (r: Result<
        Vec<String>,
        ShellError,
    >)
        ensures
            match r {
                Ok(words) => filled(pieces(found@), listings(given@)) == Ok::<
                    Seq<Seq<char>>,
                    ErrorView,
                >(texts(words@)),
                Err(e) => filled(pieces(found@), listings(given@)) == Err::<
                    Seq<Seq<char>>,
                    ErrorView,
                >(e@),
            },
    {
        let ghost all = pieces(found@);
        let ghost lists = listings(given@);
        let mut out: Vec<String> = Vec::new();
        let mut i: usize = 0;
        let mut k: usize = 0;
        proof {
            assert(all.skip(0) =~= all);
            assert(lists.skip(0) =~= lists);
            assert(texts(out@) =~= Seq::<Seq<char>>::empty());
            lemma_preceded_empty(filled(all, lists));
        }
        while i < found.len()
            invariant
                i <= found.len(),
                k <= given.len(),
                all == pieces(found@),
                lists == listings(given@),
                filled(all, lists) == preceded(
                    texts(out@),
                    filled(all.skip(i as int), lists.skip(k as int)),
                ),
            decreases found.len() - i,
        {
            let ghost before = texts(out@);
            let ghost rest = all.skip(i as int);
            let ghost left = lists.skip(k as int);
            proof {
                assert(rest[0] == found@[i as int]@);
                assert(rest.skip(1) =~= all.skip(i + 1));
            }
            match &found[i] {
                Piece::Word(word) => {
                    out.push(word.clone());
                    proof {
                        assert(texts(out@) =~= before + seq![word@]);
                        lemma_preceded_twice(before, seq![word@], filled(rest.skip(1), left));
                    }
                },
                Piece::Wildcard(word) => {
                    let listing = if k < given.len() {
                        assert(left[0] == lists[k as int]);
                        assert(left.skip(1) =~= lists.skip(k + 1));
                        match &given[k] {
                            Some(names) => Some(names),
                            None => None,
                        }
                    } else {
                        assert(left.len() == 0);
                        None
                    };
                    assert(names_of(listing) == first_listing(left));
                    match Osh::perform_wildcard_expansion(word.as_str(), listing) {
                        Ok(Some(mut entries)) => {
                            let ghost added = texts(entries@);
                            out.append(&mut entries);
                            proof {
                                assert(texts(out@) =~= before + added);
                                lemma_preceded_twice(
                                    before,
                                    added,
                                    filled(rest.skip(1), left.skip(1)),
                                );
                            }
                            k += 1;
                        },
                        Ok(None) => {
                            out.push(word.clone());
                            proof {
                                assert(texts(out@) =~= before + seq![word@]);
                                lemma_preceded_twice(
                                    before,
                                    seq![word@],
                                    filled(rest.skip(1), left),
                                );
                            }
                        },
                        Err(error) => {
                            return Err(error);
                        },
                    }
                },
            }
            i += 1;
        }
        proof {
            assert(all.skip(i as int).len() == 0);
            assert(texts(out@) + Seq::<Seq<char>>::empty() =~= texts(out@));
        }
        Ok(out)
    }
}

/// Nothing before a result leaves the result as it is.
proof fn lemma_preceded_empty(rest: Result<Seq<Seq<char>>, ErrorView>)
    ensures
        preceded(Seq::empty(), rest) == rest,
{
    match rest {
        Ok(words) => {
            assert(Seq::<Seq<char>>::empty() + words =~= words);
        },
        Err(_) => {},
    }
}

/// Putting words before a result in two steps is putting them before it in one.
proof fn lemma_preceded_twice(
    a: Seq<Seq<char>>,
    b: Seq<Seq<char>>,
    rest: Result<Seq<Seq<char>>, ErrorView>,
)
    ensures
        preceded(a, preceded(b, rest)) == preceded(a + b, rest),
{
    match rest {
        Ok(words) => {
            assert(a + (b + words) =~= (a + b) + words);
        },
        Err(_) => {},
    }
}

/// Once a word fails, the line fails with the error of that word.
proof fn lemma_resolved_error(
    words: Seq<Seq<char>>,
    upto: int,
    aliases: Map<Seq<char>, Seq<char>>,
    env: Map<Seq<char>, Seq<char>>,
    literal: bool,
)
    requires
        0 < upto <= words.len(),
        resolved(words.take(upto), aliases, env, literal) is Err,
    ensures
        resolved(words, aliases, env, literal) == resolved(
            words.take(upto),
            aliases,
            env,
            literal,
        ),
    decreases words.len() - upto,
{
    if upto < words.len() {
        assert(words.take(upto + 1).drop_last() =~= words.take(upto));
        lemma_resolved_error(words, upto + 1, aliases, env, literal);
    } else {
        assert(words.take(upto) =~= words);
    }
}

} // verus!
