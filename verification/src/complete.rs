//! Completion of file names: which entries of a directory a pattern offers,
//! and what is put into the line for them.

use crate::text::{chars_of, find_text, index_of, join_words, joined, texts};
use vstd::prelude::*;
use vstd::string::{StrSliceExecFns, StringExecFns, StringSliceAdditionalSpecFns};
use vstd::utf8::is_char_boundary;

verus! {

/// How the word that is completed is quoted.
#[derive(Debug, Clone, Copy, PartialEq, Eq, Structural)]
pub enum Quoting {
    /// Between double quotes.
    Double,
    /// Between single quotes.
    Single,
    /// Not at all.
    Unquoted,
}

/// The word that `rustyline::completion::extract_word` finds before a
/// position of a line, with the position at which the word starts.
pub uninterp spec fn extracted_word(
    line: Seq<char>,
    pos: int,
    esc_char: Option<char>,
    break_chars: Seq<u8>,
) -> (int, Seq<char>);

/// Calls `rustyline::completion::extract_word`, which looks backwards from
/// `pos` for the start of a word and returns that start with the text from
/// it up to `pos`, so the start is not past `pos`. It slices the line at
/// `pos` first, so `pos` has to lie on the boundary of a character. It reads
/// nothing but its arguments; the contract gives its result the name
/// `extracted_word`.
#[verifier::external_body]
fn extract(line: &str, pos: usize, esc_char: Option<char>, break_chars: &Vec<u8>) -> (r: (
    usize,
    String,
))
    requires
        is_char_boundary(line.spec_bytes(), pos as int),
    ensures
        (r.0 as int, r.1@) == extracted_word(line@, pos as int, esc_char, break_chars@),
        r.0 <= pos,
{
    let (start, word) = rustyline::completion::extract_word(
        line,
        pos,
        esc_char,
        break_chars.as_slice(),
    );
    (start, word.to_string())
}

/// `text` with the escape character `esc` taken out. A character behind an
/// escape character is kept, whatever it is. Where `kept` is not set, the
/// escape character itself is dropped; where it is set, it stays before
/// every character but `"`, and at the end of the text.
pub open spec fn unescaped_text(text: Seq<char>, esc: char, kept: bool) -> Seq<char>
    decreases text.len(),
{
    if text.len() == 0 {
        Seq::empty()
    } else if text[0] != esc {
        seq![text[0]] + unescaped_text(text.skip(1), esc, kept)
    } else if text.len() == 1 {
        if kept {
            seq![esc]
        } else {
            Seq::empty()
        }
    } else {
        (if kept && text[1] != '"' {
            seq![esc, text[1]]
        } else {
            seq![text[1]]
        }) + unescaped_text(text.skip(2), esc, kept)
    }
}

/// Whether `out` is `text` with the escape character `esc` taken out, in
/// one of the two ways in which it is done.
pub open spec fn is_unescaped(out: Seq<char>, text: Seq<char>, esc: char) -> bool {
    out == unescaped_text(text, esc, false) || out == unescaped_text(text, esc, true)
}

/// A text without the escape character is left as it is, either way.
pub proof fn lemma_unescaped_absent(text: Seq<char>, esc: char, kept: bool)
    requires
        !text.contains(esc),
    ensures
        unescaped_text(text, esc, kept) == text,
    decreases text.len(),
{
    if text.len() > 0 {
        assert(text.contains(text[0]));
        assert forall|i: int| 0 <= i < text.skip(1).len() implies text.skip(1)[i] != esc by {
            assert(text.contains(text[i + 1]));
        }
        lemma_unescaped_absent(text.skip(1), esc, kept);
        assert(seq![text[0]] + text.skip(1) =~= text);
    } else {
        assert(text =~= Seq::<char>::empty());
    }
}

/// Calls `rustyline::completion::unescape`, which removes the escape
/// character. Without an escape character the text comes back as it is.
/// With one, the character behind each escape character is kept; the escape
/// character itself is dropped on most platforms and kept on Windows before
/// every character but `"` and at the end of the text. The contract allows
/// both.
#[verifier::external_body]
fn unescape(input: &str, esc_char: Option<char>) -> (r: String)
    ensures
        esc_char is None ==> r@ == input@,
        esc_char is Some ==> is_unescaped(r@, input@, esc_char->0),
{
    rustyline::completion::unescape(input, esc_char).into_owned()
}

/// What `c` becomes when the break characters are escaped with `esc`.
pub open spec fn escaped_char(c: char, esc: char, break_chars: Seq<u8>) -> Seq<char> {
    if c <= '\u{7f}' && break_chars.contains(c as u8) {
        seq![esc, c]
    } else {
        seq![c]
    }
}

/// `text` with the escape character `esc` before each of its characters
/// that is a break character.
pub open spec fn escaped_text(text: Seq<char>, esc: char, break_chars: Seq<u8>) -> Seq<char> {
    text.map_values(|c: char| escaped_char(c, esc, break_chars)).flatten()
}

/// Calls `rustyline::completion::escape`. Between single quotes it returns
/// the text as it is. Otherwise, given an escape character, it puts that
/// character before each ASCII character of the text whose byte is among
/// `break_chars`. What it does without an escape character differs between
/// platforms, and of that the contract claims nothing.
#[verifier::external_body]
fn escape(input: String, esc_char: Option<char>, break_chars: &Vec<u8>, quoting: Quoting) -> (r:
    String)
    ensures
        quoting == Quoting::Single ==> r@ == input@,
        quoting != Quoting::Single && esc_char is Some ==> r@ == escaped_text(
            input@,
            esc_char->0,
            break_chars@,
        ),
{
    let quote = match quoting {
        Quoting::Double => rustyline::completion::Quote::Double,
        Quoting::Single => rustyline::completion::Quote::Single,
        Quoting::Unquoted => rustyline::completion::Quote::None,
    };
    rustyline::completion::escape(input, esc_char, break_chars.as_slice(), quote)
}

/// The position after the last `/` of a pattern: where its file part starts.
pub open spec fn file_start(pattern: Seq<char>) -> int
    decreases pattern.len(),
{
    if pattern.len() == 0 {
        0
    } else if pattern.last() == '/' {
        pattern.len() as int
    } else {
        file_start(pattern.drop_last())
    }
}

/// The directory part of a pattern: all of it up to its last `/`, which is
/// nothing where it has none.
pub open spec fn directory_part(pattern: Seq<char>) -> Seq<char> {
    pattern.take(file_start(pattern))
}

/// The file part of a pattern: what follows its last `/`.
pub open spec fn file_part(pattern: Seq<char>) -> Seq<char> {
    pattern.skip(file_start(pattern))
}

/// Whether a pattern asks for every entry of its directory.
pub open spec fn wants_all(pattern: Seq<char>) -> bool {
    index_of(pattern, "**"@) is Some
}

/// The candidates that a pattern offers among the names of the entries of
/// its directory. A pattern with `**` offers every name as it is. Any other
/// offers the names that hold its file part, each behind its directory
/// part.
pub open spec fn offered(pattern: Seq<char>, names: Seq<Seq<char>>) -> Seq<Seq<char>> {
    if wants_all(pattern) {
        names
    } else {
        names.filter(|name: Seq<char>| index_of(name, file_part(pattern)) is Some).map_values(
            |name: Seq<char>| directory_part(pattern) + name,
        )
    }
}

/// What is done with the candidates of a pattern.
#[derive(Debug, PartialEq, Eq)]
pub enum Completion {
    /// There is none: nothing is offered.
    Nothing,
    /// There is one: the path here, once escaped, replaces the pattern.
    Single(String),
    /// There are several: the user chooses among them.
    Choose(Vec<String>),
}

/// A completion as the contracts speak of it.
pub enum CompletionView {
    Nothing,
    Single(Seq<char>),
    Choose(Seq<Seq<char>>),
}

impl View for Completion {
    type V = CompletionView;

    open spec fn view(&self) -> CompletionView {
        match self {
            Completion::Nothing => CompletionView::Nothing,
            Completion::Single(path) => CompletionView::Single(path@),
            Completion::Choose(candidates) => CompletionView::Choose(texts(candidates@)),
        }
    }
}

/// What is done with the candidates of a pattern: nothing where there is
/// none; a single one replaces the pattern, behind its directory part;
/// several are put before the user.
pub open spec fn completion_of(pattern: Seq<char>, names: Seq<Seq<char>>) -> CompletionView {
    let candidates = offered(pattern, names);
    if candidates.len() == 0 {
        CompletionView::Nothing
    } else if candidates.len() == 1 {
        CompletionView::Single(directory_part(pattern) + candidates[0])
    } else {
        CompletionView::Choose(candidates)
    }
}

/// What replaces a pattern once the user has chosen: the chosen names, each
/// behind the directory part of the pattern, with a space between each two.
pub open spec fn chosen_text(pattern: Seq<char>, chosen: Seq<Seq<char>>) -> Seq<char> {
    joined(chosen.map_values(|name: Seq<char>| directory_part(pattern) + name), " "@)
}

/// The two parts of a pattern put together are the pattern, and its file
/// part holds no `/`.
pub proof fn lemma_pattern_parts(pattern: Seq<char>)
    ensures
        0 <= file_start(pattern) <= pattern.len(),
        directory_part(pattern) + file_part(pattern) == pattern,
        !file_part(pattern).contains('/'),
        file_start(pattern) > 0 ==> pattern[file_start(pattern) - 1] == '/',
    decreases pattern.len(),
{
    if pattern.len() > 0 && pattern.last() != '/' {
        let front = pattern.drop_last();
        lemma_pattern_parts(front);
        let at = file_start(front);
        assert(file_part(pattern) =~= file_part(front).push(pattern.last()));
        assert forall|i: int| 0 <= i < file_part(pattern).len() implies file_part(pattern)[i]
            != '/' by {
            if i < file_part(front).len() {
                assert(file_part(front).contains(file_part(front)[i]));
            }
        }
    }
    assert(directory_part(pattern) + file_part(pattern) =~= pattern);
}

/// A completer of file names.
#[derive(Debug)]
pub struct MyFilenameCompleter {
    break_chars: Vec<u8>,
    double_quotes_special_chars: Vec<u8>,
}

/// The characters that end a word of the input line, as bytes: space, tab,
/// line feed, `"`, `\`, `'`, `` ` ``, `@`, `$`, `>`, `<`, `=`, `;`, `|`, `&`, `{`,
/// `(` and the null character.
pub open spec fn default_break_chars() -> Seq<u8> {
    seq![
        32u8,
        9u8,
        10u8,
        34u8,
        92u8,
        39u8,
        96u8,
        64u8,
        36u8,
        62u8,
        60u8,
        61u8,
        59u8,
        124u8,
        38u8,
        123u8,
        40u8,
        0u8,
    ]
}

/// The characters that keep their meaning between double quotes, as bytes:
/// `"`, `$`, `\` and `` ` ``.
pub open spec fn double_quotes_special_chars() -> Seq<u8> {
    seq![34u8, 36u8, 92u8, 96u8]
}

impl MyFilenameCompleter {
    /// The characters that end a word of the input line.
    pub closed spec fn spec_break_chars(&self) -> Seq<u8> {
        self.break_chars@
    }

    /// The characters that keep their meaning between double quotes.
    pub closed spec fn spec_special_chars(&self) -> Seq<u8> {
        self.double_quotes_special_chars@
    }

    /// A completer with the usual break characters.
    pub fn new() -> (r: Self)
        ensures
            r.spec_break_chars() == default_break_chars(),
            r.spec_special_chars() == double_quotes_special_chars(),
    {
        let break_chars = vec![
            32u8,
            9u8,
            10u8,
            34u8,
            92u8,
            39u8,
            96u8,
            64u8,
            36u8,
            62u8,
            60u8,
            61u8,
            59u8,
            124u8,
            38u8,
            123u8,
            40u8,
            0u8,
        ];
        let special_chars = vec![34u8, 36u8, 92u8, 96u8];
        assert(break_chars@ =~= default_break_chars());
        assert(special_chars@ =~= double_quotes_special_chars());
        MyFilenameCompleter { break_chars, double_quotes_special_chars: special_chars }
    }

    /// The characters that end a word of the input line.
    pub fn break_chars(&self) -> (r: &Vec<u8>)
        ensures
            r@ == self.spec_break_chars(),
    {
        &self.break_chars
    }

    /// The characters that keep their meaning between double quotes.
    pub fn special_chars(&self) -> (r: &Vec<u8>)
        ensures
            r@ == self.spec_special_chars(),
    {
        &self.double_quotes_special_chars
    }

    /// Whether a pattern asks for every entry of its directory.
    pub fn wants_everything(&self, pattern: &str) -> (r: bool)
        ensures
            r == wants_all(pattern@),
    {
        find_text(pattern, "**").is_some()
    }

    /// The pattern to complete at position `pos` of a line, and where in
    /// the line it starts: the word before `pos`, without its escape
    /// characters. There is none where `pos` does not lie on the boundary of
    /// a character.
    pub fn pattern_at(&self, line: &str, pos: usize) -> (r: Option<(usize, String)>)
        ensures
            r is Some == is_char_boundary(line.spec_bytes(), pos as int),
            r is Some ==> ({
                let word = extracted_word(line@, pos as int, Some('\\'), self.spec_break_chars());
                let found = r->0;
                &&& found.0 == word.0
                &&& found.0 <= pos
                &&& is_unescaped(found.1@, word.1, '\\')
                &&& !word.1.contains('\\') ==> found.1@ == word.1
            }),
    {
        if !line.is_char_boundary(pos) {
            return None;
        }
        let (start, word) = extract(line, pos, Some('\\'), &self.break_chars);
        proof {
            if !word@.contains('\\') {
                lemma_unescaped_absent(word@, '\\', false);
                lemma_unescaped_absent(word@, '\\', true);
            }
        }
        Some((start, unescape(word.as_str(), Some('\\'))))
    }

    /// What replaces a pattern with a single candidate: the path of the
    /// candidate with a backslash before each break character.
    pub fn single_replacement(&self, path: String) -> (r: String)
        ensures
            r@ == escaped_text(path@, '\\', self.spec_break_chars()),
    {
        escape(path, Some('\\'), &self.break_chars, Quoting::Unquoted)
    }

    /// The directory part and the file part of a pattern.
    pub fn split_pattern(&self, pattern: &str) -> (r: (String, String))
        ensures
            r.0@ == directory_part(pattern@),
            r.1@ == file_part(pattern@),
    {
        let chars = chars_of(pattern);
        let mut at: usize = chars.len();
        assert(pattern@.take(at as int) =~= pattern@);
        while at > 0 && chars[at - 1] != '/'
            invariant
                chars@ == pattern@,
                at <= chars.len(),
                file_start(pattern@) == file_start(pattern@.take(at as int)),
            decreases at,
        {
            assert(pattern@.take(at as int).drop_last() =~= pattern@.take(at - 1));
            at -= 1;
        }
        assert(file_start(pattern@) == at);
        (
            pattern.substring_char(0, at).to_owned(),
            pattern.substring_char(at, chars.len()).to_owned(),
        )
    }

    /// The candidates that a pattern offers among the names of the entries
    /// of its directory.
    pub fn candidates(&self, pattern: &str, names: &Vec<String>) -> (r: Vec<String>)
        ensures
            texts(r@) == offered(pattern@, texts(names@)),
    {
        let ghost all = texts(names@);
        let mut out: Vec<String> = Vec::new();
        let mut i: usize = 0;
        if find_text(pattern, "**").is_some() {
            while i < names.len()
                invariant
                    i <= names.len(),
                    out.len() == i,
                    forall|j: int| 0 <= j < i ==> (#[trigger] out@[j])@ == names@[j]@,
                decreases names.len() - i,
            {
                out.push(names[i].clone());
                i += 1;
            }
            assert(texts(out@) =~= all);
            return out;
        }
        let (directory, file) = self.split_pattern(pattern);
        let ghost keep = |name: Seq<char>| index_of(name, file_part(pattern@)) is Some;
        let ghost behind = |name: Seq<char>| directory_part(pattern@) + name;
        proof {
            reveal(Seq::filter);
            assert(all.take(0).filter(keep).map_values(behind) =~= texts(out@));
        }
        while i < names.len()
            invariant
                i <= names.len(),
                all == texts(names@),
                directory@ == directory_part(pattern@),
                file@ == file_part(pattern@),
                keep == |name: Seq<char>| index_of(name, file_part(pattern@)) is Some,
                behind == |name: Seq<char>| directory_part(pattern@) + name,
                texts(out@) == all.take(i as int).filter(keep).map_values(behind),
            decreases names.len() - i,
        {
            let ghost before = texts(out@);
            proof {
                reveal(Seq::filter);
                assert(all.take(i + 1).drop_last() =~= all.take(i as int));
                assert(all.take(i + 1).last() == names@[i as int]@);
            }
            if find_text(names[i].as_str(), file.as_str()).is_some() {
                let mut candidate = directory.clone();
                candidate.append(names[i].as_str());
                out.push(candidate);
                assert(texts(out@) =~= before.push(behind(names@[i as int]@)));
                assert(all.take(i + 1).filter(keep).map_values(behind) =~= all.take(
                    i as int,
                ).filter(keep).map_values(behind).push(behind(names@[i as int]@)));
            }
            i += 1;
        }
        assert(all.take(i as int) =~= all);
        out
    }

    /// What is done with the candidates of a pattern, given the names of
    /// the entries of its directory.
    pub fn complete_filename_with_pattern(&self, pattern: &str, names: &Vec<String>) -> (r:
        Completion)
        ensures
            r@ == completion_of(pattern@, texts(names@)),
    {
        let mut found = self.candidates(pattern, names);
        if found.len() == 0 {
            Completion::Nothing
        } else if found.len() == 1 {
            let (mut path, _) = self.split_pattern(pattern);
            assert(texts(found@)[0] == found@[0]@);
            path.append(found[0].as_str());
            Completion::Single(path)
        } else {
            Completion::Choose(found)
        }
    }

    /// What replaces a pattern once the user has chosen among its
    /// candidates: the chosen names, each with a backslash before each break
    /// character and behind the directory part of the pattern, with a space
    /// between each two.
    pub fn chosen_replacement(&self, pattern: &str, chosen: &Vec<String>) -> (r: String)
        ensures
            r@ == chosen_text(
                pattern@,
                texts(chosen@).map_values(
                    |name: Seq<char>| escaped_text(name, '\\', self.spec_break_chars()),
                ),
            ),
    {
        let (directory, _) = self.split_pattern(pattern);
        let ghost breaks = self.spec_break_chars();
        let ghost escaping = |name: Seq<char>| escaped_text(name, '\\', breaks);
        let ghost behind = |name: Seq<char>| directory_part(pattern@) + name;
        let mut paths: Vec<String> = Vec::new();
        let mut i: usize = 0;
        while i < chosen.len()
            invariant
                i <= chosen.len(),
                paths.len() == i,
                breaks == self.spec_break_chars(),
                directory@ == directory_part(pattern@),
                forall|j: int|
                    0 <= j < i ==> (#[trigger] paths@[j])@ == directory_part(pattern@)
                        + escaped_text(chosen@[j]@, '\\', breaks),
            decreases chosen.len() - i,
        {
            let name = escape(chosen[i].clone(), Some('\\'), &self.break_chars, Quoting::Unquoted);
            let mut path = directory.clone();
            path.append(name.as_str());
            paths.push(path);
            i += 1;
        }
        assert(texts(paths@) =~= texts(chosen@).map_values(escaping).map_values(behind));
        assert(texts(paths@).skip(0) =~= texts(paths@));
        join_words(&paths, 0, " ")
    }
}

} // verus!
