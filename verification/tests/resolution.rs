use osh::{Alias, ConfigFile, Osh, Piece, Redirection, ShellCommand, ShellError, Table, Utils};

fn session() -> Osh {
    Osh::new(ConfigFile::new(None), &Table::new(), "/tmp")
}

fn words(items: &[&str]) -> Vec<String> {
    items.iter().map(|s| s.to_string()).collect()
}

fn command(name: &str, args: &[&str], piped: bool) -> ShellCommand {
    ShellCommand {
        command: name.to_string(),
        args: words(args),
        redirection: Redirection::Nowhere,
        piped,
    }
}

fn commands_of(osh: &mut Osh, line: &str, env: &Table) -> Vec<ShellCommand> {
    let pieces = osh.resolve(line, env).expect("the line resolves");
    assert!(Osh::wanted_directories(&pieces).is_empty());
    let run = osh.launch(&pieces, &Vec::new()).expect("the line needs no listing");
    run.commands
}

#[test]
fn alias_round_trip() {
    let mut osh = session();
    osh.aliases.insert("ll".to_string(), "ls -la".to_string());
    let found = commands_of(&mut osh, "ll /tmp", &Table::new());
    assert_eq!(found, vec![command("ls", &["-la", "/tmp"], false)]);
}

#[test]
fn alias_defined_by_builtin_is_resolved() {
    let mut osh = session();
    let env = Table::new();
    let result = osh.try_builtin(&command("alias", &["ll", "ls", "-la"], false), &env);
    assert!(result.is_builtin);
    assert!(!result.skip);
    assert_eq!(osh.lookup_aliases("ll"), Some("ls -la".to_string()));
    let found = commands_of(&mut osh, "ll /tmp", &env);
    assert_eq!(found, vec![command("ls", &["-la", "/tmp"], false)]);
}

#[test]
fn alias_non_recursion() {
    let mut osh = session();
    osh.aliases.insert("a".to_string(), "b".to_string());
    osh.aliases.insert("b".to_string(), "c".to_string());
    let found = commands_of(&mut osh, "a", &Table::new());
    assert_eq!(found, vec![command("b", &[], false)]);
}

#[test]
fn alias_text_may_hold_separators() {
    let mut osh = session();
    osh.aliases.insert("both".to_string(), "ls | wc ; date".to_string());
    let found = commands_of(&mut osh, "both -l", &Table::new());
    assert_eq!(
        found,
        vec![
            command("ls", &[], true),
            command("wc", &[], false),
            command("date", &["-l"], false),
        ]
    );
}

#[test]
fn alias_lookup_is_exact() {
    let mut osh = session();
    osh.aliases.insert("ll".to_string(), "ls -la".to_string());
    assert_eq!(osh.lookup_aliases("l"), None);
    assert_eq!(osh.lookup_aliases("lll"), None);
    assert_eq!(osh.lookup_aliases("LL"), None);
    let found = commands_of(&mut osh, "lll", &Table::new());
    assert_eq!(found, vec![command("lll", &[], false)]);
}

#[test]
fn alias_is_looked_up_after_expansion() {
    let mut osh = session();
    osh.aliases.insert("ls -la".to_string(), "echo hit".to_string());
    let mut env = Table::new();
    env.insert("X".to_string(), "ls -la".to_string());
    let found = commands_of(&mut osh, "$X", &env);
    assert_eq!(found, vec![command("echo", &["hit"], false)]);
}

#[test]
fn single_command_is_one_descriptor() {
    let mut osh = session();
    let found = commands_of(&mut osh, "echo hi", &Table::new());
    assert_eq!(found.len(), 1);
    assert!(!found[0].piped);
    assert_eq!(found, vec![command("echo", &["hi"], false)]);
}

#[test]
fn pipe_chain_shape() {
    let mut osh = session();
    let found = commands_of(&mut osh, "a | b | c", &Table::new());
    assert_eq!(found.len(), 3);
    let piped: Vec<bool> = found.iter().map(|c| c.piped).collect();
    assert_eq!(piped, vec![true, true, false]);
    assert_eq!(
        found,
        vec![command("a", &[], true), command("b", &[], true), command("c", &[], false)]
    );
}

#[test]
fn unalias_bypass() {
    let mut osh = session();
    osh.aliases.insert("ll".to_string(), "ls -la".to_string());
    let found = commands_of(&mut osh, "unalias ll", &Table::new());
    assert_eq!(found, vec![command("unalias", &["ll"], false)]);
}

#[test]
fn unalias_line_is_still_expanded() {
    let mut osh = session();
    osh.aliases.insert("ll".to_string(), "ls -la".to_string());
    let mut env = Table::new();
    env.insert("NAME".to_string(), "ll".to_string());
    let found = commands_of(&mut osh, "unalias $NAME *", &env);
    assert_eq!(found, vec![command("unalias", &["ll", "*"], false)]);
}

#[test]
fn unalias_must_be_the_first_word() {
    let mut osh = session();
    osh.aliases.insert("ll".to_string(), "ls -la".to_string());
    let found = commands_of(&mut osh, "echo unalias ll", &Table::new());
    assert_eq!(found, vec![command("echo", &["unalias", "ls", "-la"], false)]);
}

#[test]
fn quotes_group_words() {
    let mut osh = session();
    let found = commands_of(&mut osh, "echo \"a b\" 'c d' e\\ f", &Table::new());
    assert_eq!(found, vec![command("echo", &["a b", "c d", "e f"], false)]);
}

#[test]
fn unclosed_quote_is_an_error() {
    let mut osh = session();
    let outcome = osh.resolve("echo \"abc", &Table::new());
    assert_eq!(outcome, Err(ShellError::UnclosedQuote));
    assert_eq!(osh.status, 1);
}

#[test]
fn alias_with_unclosed_quote_is_an_error() {
    let mut osh = session();
    osh.aliases.insert("bad".to_string(), "echo 'x".to_string());
    let outcome = osh.resolve("bad", &Table::new());
    assert_eq!(outcome, Err(ShellError::BadAlias("bad".to_string())));
    assert_eq!(osh.status, 1);
}

#[test]
fn resolving_keeps_the_status_of_a_good_line() {
    let mut osh = session();
    osh.status = 7;
    let outcome = osh.resolve("echo hi", &Table::new());
    assert!(outcome.is_ok());
    assert_eq!(osh.status, 7);
}

#[test]
fn blank_line_has_no_commands() {
    let mut osh = session();
    let found = commands_of(&mut osh, "   ", &Table::new());
    assert!(found.is_empty());
}

#[test]
fn wildcard_becomes_a_listing() {
    let mut osh = session();
    let pieces = osh.resolve("ls *.txt src/* /*", &Table::new()).unwrap();
    assert_eq!(
        pieces,
        vec![
            Piece::Word("ls".to_string()),
            Piece::Wildcard("*.txt".to_string()),
            Piece::Wildcard("src/*".to_string()),
            Piece::Wildcard("/*".to_string()),
        ]
    );
    assert_eq!(Osh::wanted_directories(&pieces), words(&[".", "src", "/"]));
}

#[test]
fn wildcard_determinism() {
    let mut osh = session();
    let pieces = osh.resolve("*.txt", &Table::new()).unwrap();
    assert_eq!(Osh::wanted_directories(&pieces), words(&["."]));
    let orders: [[&str; 3]; 6] = [
        ["b.txt", "a.txt", "c.txt"],
        ["a.txt", "b.txt", "c.txt"],
        ["a.txt", "c.txt", "b.txt"],
        ["b.txt", "c.txt", "a.txt"],
        ["c.txt", "a.txt", "b.txt"],
        ["c.txt", "b.txt", "a.txt"],
    ];
    for order in orders.iter() {
        let filled = Osh::fill(&pieces, &vec![Some(words(order))]);
        assert_eq!(filled, Ok(words(&["a.txt", "b.txt", "c.txt"])));
    }
}

#[test]
fn wildcard_expansion_sorts_the_entries() {
    let names = words(&["b.txt", "a.txt", "c.txt"]);
    assert_eq!(
        Osh::perform_wildcard_expansion("*.txt", Some(&names)),
        Ok(Some(words(&["a.txt", "b.txt", "c.txt"])))
    );
    assert_eq!(
        Osh::perform_wildcard_expansion("dir/*", Some(&names)),
        Ok(Some(words(&["dir/a.txt", "dir/b.txt", "dir/c.txt"])))
    );
    assert_eq!(
        Osh::perform_wildcard_expansion("/*", Some(&names)),
        Ok(Some(words(&["/a.txt", "/b.txt", "/c.txt"])))
    );
    assert_eq!(Osh::perform_wildcard_expansion("*", Some(&Vec::new())), Ok(Some(Vec::new())));
}

#[test]
fn word_without_wildcard_has_no_expansion() {
    let names = words(&["a"]);
    assert_eq!(Osh::perform_wildcard_expansion("plain", Some(&names)), Ok(None));
    assert_eq!(Osh::perform_wildcard_expansion("plain", None), Ok(None));
    assert_eq!(Osh::perform_wildcard_expansion("", None), Ok(None));
}

#[test]
fn wildcard_expansion_of_an_unlistable_directory_is_an_error() {
    assert_eq!(
        Osh::perform_wildcard_expansion("/no/such/dir/*", None),
        Err(ShellError::Unlistable("/no/such/dir".to_string()))
    );
    assert_eq!(
        Osh::perform_wildcard_expansion("*.txt", None),
        Err(ShellError::Unlistable(".".to_string()))
    );
    assert_eq!(
        Osh::perform_wildcard_expansion("/*", None),
        Err(ShellError::Unlistable("/".to_string()))
    );
    assert_eq!(
        Osh::perform_wildcard_expansion("/*x", None),
        Err(ShellError::Unlistable(String::new()))
    );
}

#[test]
fn listing_takes_the_place_of_its_word() {
    let pieces = vec![
        Piece::Word("ls".to_string()),
        Piece::Wildcard("a/*".to_string()),
        Piece::Word("--".to_string()),
        Piece::Wildcard("b/*".to_string()),
    ];
    assert_eq!(Osh::wanted_directories(&pieces), words(&["a", "b"]));
    let given = vec![Some(words(&["2", "1"])), Some(Vec::new())];
    assert_eq!(Osh::fill(&pieces, &given), Ok(words(&["ls", "a/1", "a/2", "--"])));
}

#[test]
fn piece_without_wildcard_stands_for_itself() {
    let pieces = vec![
        Piece::Wildcard("plain".to_string()),
        Piece::Wildcard("d/*".to_string()),
    ];
    assert_eq!(Osh::wanted_directories(&pieces), words(&["d"]));
    let given = vec![Some(words(&["x"]))];
    assert_eq!(Osh::fill(&pieces, &given), Ok(words(&["plain", "d/x"])));
}

#[test]
fn unlistable_directory_ends_the_line() {
    let mut osh = session();
    let pieces = osh.resolve("ls nowhere/* other/*", &Table::new()).unwrap();
    let given = vec![None, None];
    assert_eq!(Osh::fill(&pieces, &given), Err(ShellError::Unlistable("nowhere".to_string())));
    let outcome = osh.launch(&pieces, &given);
    assert!(outcome.is_err());
    assert_eq!(osh.status, 1);
}

#[test]
fn second_unlistable_directory_is_named() {
    let pieces = vec![Piece::Wildcard("a/*".to_string()), Piece::Wildcard("b/*".to_string())];
    let given = vec![Some(words(&["x"])), None];
    assert_eq!(Osh::fill(&pieces, &given), Err(ShellError::Unlistable("b".to_string())));
}

#[test]
fn missing_listing_counts_as_unlistable() {
    let pieces = vec![Piece::Wildcard("a/*".to_string()), Piece::Wildcard("b/*".to_string())];
    let given = vec![Some(words(&["x"]))];
    assert_eq!(Osh::fill(&pieces, &given), Err(ShellError::Unlistable("b".to_string())));
}

#[test]
fn launch_keeps_the_status_of_a_good_line() {
    let mut osh = session();
    osh.status = 3;
    let pieces = osh.resolve("echo hi", &Table::new()).unwrap();
    let run = osh.launch(&pieces, &Vec::new()).unwrap();
    assert_eq!(osh.status, 3);
    assert_eq!(run.next, 0);
    assert!(!run.pending);
    assert!(!run.finished());
}

#[test]
fn embedded_dollar_is_kept_in_a_line() {
    let mut osh = session();
    let mut env = Table::new();
    env.insert("FOO".to_string(), "bar".to_string());
    let found = commands_of(&mut osh, "echo a$FOO $FOO", &env);
    assert_eq!(found, vec![command("echo", &["a$FOO", "bar"], false)]);
}

#[test]
fn alias_pieces_are_words() {
    assert_eq!(
        Osh::alias_pieces(words(&["ls", "*", "|"])),
        vec![
            Piece::Word("ls".to_string()),
            Piece::Word("*".to_string()),
            Piece::Word("|".to_string()),
        ]
    );
}

#[test]
fn settle_tells_wildcards_from_words() {
    assert_eq!(Osh::settle("plain".to_string()), Piece::Word("plain".to_string()));
    assert_eq!(Osh::settle("dir/*".to_string()), Piece::Wildcard("dir/*".to_string()));
    assert_eq!(Osh::settle("*.txt".to_string()), Piece::Wildcard("*.txt".to_string()));
}

#[test]
fn alias_text_is_not_expanded_into_listings() {
    let mut osh = session();
    osh.aliases.insert("all".to_string(), "ls *".to_string());
    let pieces = osh.resolve("all", &Table::new()).unwrap();
    assert_eq!(pieces, vec![Piece::Word("ls".to_string()), Piece::Word("*".to_string())]);
}
