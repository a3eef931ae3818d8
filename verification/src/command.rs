//! Commands, and the division of a stream of words into commands.

use crate::shell::Osh;
use crate::text::{same_text, texts};
use vstd::prelude::*;

verus! {

/// Where the output of a command is sent instead of the terminal.
#[derive(Debug, Clone, Copy, PartialEq, Eq, Structural)]
pub enum Redirection {
    /// The output is not redirected.
    Nowhere,
    /// The standard output goes to a file.
    Stdout,
    /// The standard error goes to a file.
    Stderr,
    /// Both go to a file.
    Both,
}

/// One command of an input line, ready to run.
#[derive(Debug, PartialEq, Eq)]
pub struct ShellCommand {
    /// The name of the program or builtin.
    pub command: String,
    /// The arguments, in order.
    pub args: Vec<String>,
    /// Where the output goes.
    pub redirection: Redirection,
    /// Whether the output feeds the next command of the line.
    pub piped: bool,
}

/// A command as the contracts speak of it.
pub struct CommandView {
    pub command: Seq<char>,
    pub args: Seq<Seq<char>>,
    pub redirection: Redirection,
    pub piped: bool,
}

impl View for ShellCommand {
    type V = CommandView;

    open spec fn view(&self) -> CommandView {
        CommandView {
            command: self.command@,
            args: texts(self.args@),
            redirection: self.redirection,
            piped: self.piped,
        }
    }
}

/// The views of a sequence of commands.
pub open spec fn commands(v: Seq<ShellCommand>) -> Seq<CommandView> {
    Seq::new(v.len(), |i: int| v[i]@)
}

/// The word that sends the output of one command to the next.
pub open spec fn pipe() -> Seq<char> {
    seq!['|']
}

/// The word that ends one command and starts another.
pub open spec fn semicolon() -> Seq<char> {
    seq![';']
}

/// Whether a word separates two commands.
pub open spec fn is_separator(word: Seq<char>) -> bool {
    word == pipe() || word == semicolon()
}

/// Whether none of `words` separates two commands.
pub open spec fn plain(words: Seq<Seq<char>>) -> bool {
    forall|i: int| 0 <= i < words.len() ==> !is_separator(#[trigger] words[i])
}

/// The command that a group of words stands for: its first word is the
/// command, the others are the arguments.
pub open spec fn descriptor(group: Seq<Seq<char>>, piped: bool) -> CommandView {
    CommandView { command: group[0], args: group.skip(1), redirection: Redirection::Nowhere, piped }
}

/// What a group adds to the commands when it is closed: its command, or
/// nothing where the group is empty.
pub open spec fn closing(group: Seq<Seq<char>>, piped: bool) -> Seq<CommandView> {
    if group.len() > 0 {
        seq![descriptor(group, piped)]
    } else {
        Seq::empty()
    }
}

/// The commands of the words `rest`, read after the words `group` of a
/// command that is not yet closed. A pipe closes the group as piped, a
/// semicolon and the end of the words close it as not piped.
pub open spec fn segments_from(group: Seq<Seq<char>>, rest: Seq<Seq<char>>) -> Seq<CommandView>
    decreases rest.len(),
{
    if rest.len() == 0 {
        closing(group, false)
    } else if is_separator(rest[0]) {
        closing(group, rest[0] == pipe()) + segments_from(Seq::empty(), rest.skip(1))
    } else {
        segments_from(group.push(rest[0]), rest.skip(1))
    }
}

/// The commands of a stream of words.
pub open spec fn segments(words: Seq<Seq<char>>) -> Seq<CommandView> {
    segments_from(Seq::empty(), words)
}

/// Words without a separator after an open group form one command with it,
/// which is not piped.
pub proof fn lemma_segments_from_plain(group: Seq<Seq<char>>, words: Seq<Seq<char>>)
    requires
        plain(words),
    ensures
        segments_from(group, words) == closing(group + words, false),
    decreases words.len(),
{
    if words.len() == 0 {
        assert(group + words =~= group);
    } else {
        assert(!is_separator(words[0]));
        lemma_segments_from_plain(group.push(words[0]), words.skip(1));
        assert(group.push(words[0]) + words.skip(1) =~= group + words);
    }
}

/// A stream of one or more words without a separator is exactly one
/// command, which is not piped: its first word with the others as its
/// arguments.
pub proof fn lemma_segments_plain(words: Seq<Seq<char>>)
    requires
        words.len() > 0,
        plain(words),
    ensures
        segments(words) == seq![descriptor(words, false)],
{
    lemma_segments_from_plain(Seq::empty(), words);
    assert(Seq::<Seq<char>>::empty() + words =~= words);
}

/// Up to its first separator a stream belongs to the open group; the
/// separator closes the group, piped if it is a pipe, and what follows is
/// read afresh.
pub proof fn lemma_segments_from_split(
    group: Seq<Seq<char>>,
    head: Seq<Seq<char>>,
    separator: Seq<char>,
    tail: Seq<Seq<char>>,
)
    requires
        plain(head),
        is_separator(separator),
    ensures
        segments_from(group, head + seq![separator] + tail) == closing(
            group + head,
            separator == pipe(),
        ) + segments(tail),
    decreases head.len(),
{
    let all = head + seq![separator] + tail;
    if head.len() == 0 {
        assert(all[0] == separator);
        assert(all.skip(1) =~= tail);
        assert(group + head =~= group);
    } else {
        assert(all[0] == head[0]);
        assert(!is_separator(head[0]));
        assert(all.skip(1) =~= head.skip(1) + seq![separator] + tail);
        assert(plain(head.skip(1))) by {
            assert forall|i: int| 0 <= i < head.skip(1).len() implies !is_separator(
                #[trigger] head.skip(1)[i],
            ) by {
                assert(head.skip(1)[i] == head[i + 1]);
            }
        }
        lemma_segments_from_split(group.push(head[0]), head.skip(1), separator, tail);
        assert(group.push(head[0]) + head.skip(1) =~= group + head);
    }
}

/// The words before the first separator of a stream form its first command,
/// which is piped if and only if that separator is a pipe; the commands of
/// the words after the separator follow. Where no word stands before the
/// separator, it adds no command.
pub proof fn lemma_segments_split(head: Seq<Seq<char>>, separator: Seq<char>, tail: Seq<Seq<char>>)
    requires
        plain(head),
        is_separator(separator),
    ensures
        segments(head + seq![separator] + tail) == closing(head, separator == pipe()) + segments(
            tail,
        ),
{
    lemma_segments_from_split(Seq::empty(), head, separator, tail);
    assert(Seq::<Seq<char>>::empty() + head =~= head);
}

/// The words of a command: its name, then its arguments.
pub open spec fn words_of(command: CommandView) -> Seq<Seq<char>> {
    seq![command.command] + command.args
}

/// The words of a sequence of commands, in order.
pub open spec fn all_words(commands: Seq<CommandView>) -> Seq<Seq<char>> {
    commands.map_values(|command: CommandView| words_of(command)).flatten()
}

/// The words of what a group adds when it is closed are the words of the group.
proof fn lemma_closing_words(group: Seq<Seq<char>>, piped: bool)
    ensures
        all_words(closing(group, piped)) == group,
{
    let each = |command: CommandView| words_of(command);
    if group.len() > 0 {
        assert(closing(group, piped).map_values(each) =~= seq![words_of(descriptor(group, piped))]);
        seq![words_of(descriptor(group, piped))].lemma_flatten_singleton();
        assert(seq![group[0]] + group.skip(1) =~= group);
    } else {
        assert(closing(group, piped).map_values(each) =~= Seq::<Seq<Seq<char>>>::empty());
        assert(all_words(closing(group, piped)) =~= group);
    }
}

/// The commands of a stream hold its words that are no separators, each
/// once and in their order, after the words of the open group.
pub proof fn lemma_segments_from_keep_words(group: Seq<Seq<char>>, rest: Seq<Seq<char>>)
    ensures
        all_words(segments_from(group, rest)) == group + rest.filter(
            |word: Seq<char>| !is_separator(word),
        ),
    decreases rest.len(),
{
    let keep = |word: Seq<char>| !is_separator(word);
    let each = |command: CommandView| words_of(command);
    if rest.len() == 0 {
        lemma_closing_words(group, false);
        reveal(Seq::filter);
        assert(group + rest.filter(keep) =~= group);
    } else {
        let tail = rest.skip(1);
        assert(rest =~= seq![rest[0]] + tail);
        Seq::filter_distributes_over_add(seq![rest[0]], tail, keep);
        assert(seq![rest[0]].filter(keep) =~= if keep(rest[0]) {
            seq![rest[0]]
        } else {
            Seq::empty()
        }) by {
            reveal(Seq::filter);
            assert(seq![rest[0]].drop_last() =~= Seq::<Seq<char>>::empty());
            assert(Seq::<Seq<char>>::empty().filter(keep) =~= Seq::<Seq<char>>::empty());
        }
        if is_separator(rest[0]) {
            let first = closing(group, rest[0] == pipe());
            let others = segments_from(Seq::empty(), tail);
            lemma_closing_words(group, rest[0] == pipe());
            lemma_segments_from_keep_words(Seq::empty(), tail);
            assert((first + others).map_values(each) =~= first.map_values(each) + others.map_values(
                each,
            ));
            vstd::seq_lib::lemma_flatten_concat(first.map_values(each), others.map_values(each));
            assert(group + (Seq::<Seq<char>>::empty() + tail.filter(keep)) =~= group + rest.filter(
                keep,
            ));
        } else {
            lemma_segments_from_keep_words(group.push(rest[0]), tail);
            assert(group.push(rest[0]) + tail.filter(keep) =~= group + rest.filter(keep));
        }
    }
}

/// Segmentation neither drops nor invents a word: the names and arguments
/// of the commands of a stream, read in order, are the words of the stream
/// that are no separators.
pub proof fn lemma_segments_keep_words(words: Seq<Seq<char>>)
    ensures
        all_words(segments(words)) == words.filter(|word: Seq<char>| !is_separator(word)),
{
    lemma_segments_from_keep_words(Seq::empty(), words);
    assert(Seq::<Seq<char>>::empty() + words.filter(|word: Seq<char>| !is_separator(word))
        =~= words.filter(|word: Seq<char>| !is_separator(word)));
}

/// Whether a command holds no separator, neither as its name nor among its
/// arguments, and redirects nothing.
pub open spec fn well_formed(c: CommandView) -> bool {
    &&& !is_separator(c.command)
    &&& plain(c.args)
    &&& c.redirection == Redirection::Nowhere
}

/// No command that comes out of a stream holds a separator.
pub proof fn lemma_segments_from_well_formed(group: Seq<Seq<char>>, rest: Seq<Seq<char>>)
    requires
        plain(group),
    ensures
        forall|k: int|
            0 <= k < segments_from(group, rest).len() ==> well_formed(
                #[trigger] segments_from(group, rest)[k],
            ),
    decreases rest.len(),
{
    assert(group.len() > 0 ==> well_formed(descriptor(group, true)) && well_formed(
        descriptor(group, false),
    )) by {
        if group.len() > 0 {
            assert(!is_separator(group[0]));
            assert forall|i: int| 0 <= i < group.skip(1).len() implies !is_separator(
                #[trigger] group.skip(1)[i],
            ) by {
                assert(group.skip(1)[i] == group[i + 1]);
            }
        }
    }
    let whole = segments_from(group, rest);
    if rest.len() == 0 {
        assert forall|k: int| 0 <= k < whole.len() implies well_formed(#[trigger] whole[k]) by {
            assert(whole[k] == descriptor(group, false));
        }
    } else if is_separator(rest[0]) {
        lemma_segments_from_well_formed(Seq::empty(), rest.skip(1));
        let first = closing(group, rest[0] == pipe());
        let others = segments_from(Seq::empty(), rest.skip(1));
        assert(whole == first + others);
        assert forall|k: int| 0 <= k < whole.len() implies well_formed(#[trigger] whole[k]) by {
            if k >= first.len() {
                assert(whole[k] == others[k - first.len()]);
            } else {
                assert(whole[k] == descriptor(group, rest[0] == pipe()));
            }
        }
    } else {
        assert forall|i: int| 0 <= i < group.push(rest[0]).len() implies !is_separator(
            #[trigger] group.push(rest[0])[i],
        ) by {
            if i < group.len() {
                assert(group.push(rest[0])[i] == group[i]);
            }
        }
        lemma_segments_from_well_formed(group.push(rest[0]), rest.skip(1));
        let others = segments_from(group.push(rest[0]), rest.skip(1));
        assert(whole == others);
        assert forall|k: int| 0 <= k < whole.len() implies well_formed(#[trigger] whole[k]) by {
            assert(whole[k] == others[k]);
        }
    }
}

/// No command of a stream holds a separator, and none redirects its output.
pub proof fn lemma_segments_well_formed(words: Seq<Seq<char>>)
    ensures
        forall|k: int| 0 <= k < segments(words).len() ==> well_formed(#[trigger] segments(words)[k]),
{
    lemma_segments_from_well_formed(Seq::empty(), words);
}

/// Where the last word is no separator, the last command is not piped.
pub proof fn lemma_segments_from_last(group: Seq<Seq<char>>, rest: Seq<Seq<char>>)
    requires
        rest.len() > 0,
        !is_separator(rest.last()),
    ensures
        segments_from(group, rest).len() > 0,
        !segments_from(group, rest).last().piped,
    decreases rest.len(),
{
    let tail = rest.skip(1);
    if tail.len() > 0 {
        assert(tail.last() == rest.last());
        if is_separator(rest[0]) {
            lemma_segments_from_last(Seq::empty(), tail);
            let first = closing(group, rest[0] == pipe());
            let others = segments_from(Seq::empty(), tail);
            assert((first + others).last() == others.last());
        } else {
            lemma_segments_from_last(group.push(rest[0]), tail);
        }
    } else {
        assert(rest[0] == rest.last());
        assert(segments_from(group.push(rest[0]), tail) == closing(group.push(rest[0]), false));
    }
}

/// A stream that does not end in a separator has at least one command, and
/// its last command is not piped.
pub proof fn lemma_segments_last(words: Seq<Seq<char>>)
    requires
        words.len() > 0,
        !is_separator(words.last()),
    ensures
        segments(words).len() > 0,
        !segments(words).last().piped,
{
    lemma_segments_from_last(Seq::empty(), words);
}

/// Closes a group of words: adds its command to `out`, unless it is empty.
fn close_group(out: &mut Vec<ShellCommand>, group: Vec<String>, piped: bool)
    ensures
        commands(final(out)@) == commands(old(out)@) + closing(texts(group@), piped),
{
    if group.len() > 0 {
        let ghost words = texts(group@);
        let mut args = group;
        let command = args.remove(0);
        assert(texts(args@) =~= words.skip(1));
        out.push(ShellCommand { command, args, redirection: Redirection::Nowhere, piped });
        assert(commands(out@) =~= commands(old(out)@) + closing(words, piped));
    } else {
        assert(commands(out@) =~= commands(old(out)@) + closing(texts(group@), piped));
    }
}

impl Osh {
    /// Divides a stream of words into commands at the separators `|` and `;`.
    pub fn build_commands(&self, words: Vec<String>) -> (r: Vec<ShellCommand>)
        ensures
            commands(r@) == segments(texts(words@)),
    {
        let ghost all = texts(words@);
        let mut out: Vec<ShellCommand> = Vec::new();
        let mut current: Vec<String> = Vec::new();
        let mut i: usize = 0;
        proof {
            reveal_strlit("|");
            reveal_strlit(";");
            assert("|"@ =~= pipe());
            assert(";"@ =~= semicolon());
            assert(all.skip(0) =~= all);
            assert(texts(current@) =~= Seq::<Seq<char>>::empty());
            assert(commands(out@) + segments(all) =~= segments(all));
        }
        while i < words.len()
            invariant
                i <= words.len(),
                all == texts(words@),
                "|"@ == pipe(),
                ";"@ == semicolon(),
                commands(out@) + segments_from(texts(current@), all.skip(i as int)) == segments(all),
            decreases words.len() - i,
        {
            let ghost rest = all.skip(i as int);
            let ghost group = texts(current@);
            let ghost done = commands(out@);
            assert(rest[0] == words@[i as int]@);
            assert(rest.skip(1) =~= all.skip(i + 1));
            let word = words[i].as_str();
            let piped = same_text(word, "|");
            if piped || same_text(word, ";") {
                close_group(&mut out, current, piped);
                current = Vec::new();
                proof {
                    assert(texts(current@) =~= Seq::<Seq<char>>::empty());
                    assert((done + closing(group, piped)) + segments_from(
                        Seq::empty(),
                        rest.skip(1),
                    ) =~= done + (closing(group, piped) + segments_from(
                        Seq::empty(),
                        rest.skip(1),
                    )));
                }
            } else {
                current.push(words[i].clone());
                assert(texts(current@) =~= group.push(rest[0]));
            }
            i += 1;
        }
        assert(all.skip(i as int).len() == 0);
        close_group(&mut out, current, false);
        out
    }
}

} // verus!
