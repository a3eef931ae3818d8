use osh::text::{
    chars_of, copy_texts, find_text, has_char, join_words, replace_char, same_text, sort_texts,
    space, text_precedes, trim_text,
};
use osh::{ConfigFile, Osh, Redirection, ShellCommand, Table, Utils};

fn words(items: &[&str]) -> Vec<String> {
    items.iter().map(|s| s.to_string()).collect()
}

fn env_with(pairs: &[(&str, &str)]) -> Table {
    let mut env = Table::new();
    for (name, value) in pairs.iter() {
        env.insert(name.to_string(), value.to_string());
    }
    env
}

fn command(name: &str, args: &[&str], piped: bool) -> ShellCommand {
    ShellCommand {
        command: name.to_string(),
        args: words(args),
        redirection: Redirection::Nowhere,
        piped,
    }
}

fn segment(items: &[&str]) -> Vec<ShellCommand> {
    let osh = Osh::new(ConfigFile::new(None), &Table::new(), "/");
    osh.build_commands(words(items))
}

#[test]
fn tokenize_splits_like_a_shell() {
    assert_eq!(osh::words::tokenize("a  b\tc"), Ok(words(&["a", "b", "c"])));
    assert_eq!(osh::words::tokenize("say 'it is' \"so so\""), Ok(words(&["say", "it is", "so so"])));
    assert_eq!(osh::words::tokenize("a # comment"), Ok(words(&["a"])));
    assert_eq!(osh::words::tokenize(""), Ok(Vec::new()));
    assert_eq!(osh::words::tokenize("'open"), Err(osh::ShellError::UnclosedQuote));
}

#[test]
fn segments_of_nothing() {
    assert_eq!(segment(&[]), Vec::new());
}

#[test]
fn segments_single_word() {
    assert_eq!(segment(&["ls"]), vec![command("ls", &[], false)]);
}

#[test]
fn segments_pipe_and_sequence() {
    assert_eq!(
        segment(&["a", "1", "|", "b", ";", "c", "2", "3"]),
        vec![command("a", &["1"], true), command("b", &[], false), command("c", &["2", "3"], false)]
    );
}

#[test]
fn segments_drop_empty_groups() {
    assert_eq!(segment(&["|"]), Vec::new());
    assert_eq!(segment(&[";", ";"]), Vec::new());
    assert_eq!(segment(&["|", "a"]), vec![command("a", &[], false)]);
    assert_eq!(
        segment(&["a", ";", ";", "b", "|", "|", "c", ";"]),
        vec![command("a", &[], false), command("b", &[], true), command("c", &[], false)]
    );
}

#[test]
fn segments_trailing_pipe_is_piped() {
    assert_eq!(segment(&["a", "|"]), vec![command("a", &[], true)]);
}

#[test]
fn segments_only_exact_separators_count() {
    assert_eq!(
        segment(&["a", "||", "b", ";;", "a|b"]),
        vec![command("a", &["||", "b", ";;", "a|b"], false)]
    );
}

#[test]
fn expansion_of_plain_word() {
    let env = env_with(&[("HOME", "/home/u")]);
    assert_eq!(Osh::perform_expansion_on_single_element("plain", &env), "plain");
    assert_eq!(Osh::perform_expansion_on_single_element("", &env), "");
}

#[test]
fn expansion_of_tilde() {
    let env = env_with(&[("HOME", "/home/u")]);
    assert_eq!(Osh::perform_expansion_on_single_element("~", &env), "/home/u");
    assert_eq!(Osh::perform_expansion_on_single_element("~/a/~b", &env), "/home/u/a//home/ub");
    assert_eq!(Osh::perform_expansion_on_single_element("~/x", &Table::new()), "~/x");
}

#[test]
fn expansion_of_variable() {
    let env = env_with(&[("HOME", "/home/u"), ("EMPTY", ""), ("A B", "spaced")]);
    assert_eq!(Osh::perform_expansion_on_single_element("$HOME", &env), "/home/u");
    assert_eq!(Osh::perform_expansion_on_single_element("$EMPTY", &env), "");
    assert_eq!(Osh::perform_expansion_on_single_element("$A B", &env), "spaced");
    assert_eq!(Osh::perform_expansion_on_single_element("$MISSING", &env), "");
    assert_eq!(Osh::perform_expansion_on_single_element("$", &env), "");
    assert_eq!(Osh::perform_expansion_on_single_element("$HOME/x", &env), "");
}

#[test]
fn expansion_of_embedded_dollar() {
    let env = env_with(&[("HOME", "/home/u"), ("b", "value"), ("FOO", "bar")]);
    assert_eq!(Osh::perform_expansion_on_single_element("a$b", &env), "a$b");
    assert_eq!(Osh::perform_expansion_on_single_element("a$FOO", &env), "a$FOO");
    assert_eq!(Osh::perform_expansion_on_single_element("~/$b", &env), "~/$b");
    assert_eq!(Osh::perform_expansion_on_single_element("a$", &Table::new()), "a$");
}

#[test]
fn entry_paths() {
    assert_eq!(Osh::entry_path("*.txt", "a.txt"), "a.txt");
    assert_eq!(Osh::entry_path("*", "a"), "a");
    assert_eq!(Osh::entry_path("a*/b", "x"), "x");
    assert_eq!(Osh::entry_path("./*", "a"), "./a");
    assert_eq!(Osh::entry_path("src/*", "main.rs"), "src/main.rs");
    assert_eq!(Osh::entry_path("/usr/lib/*.so", "libc.so"), "/usr/lib/libc.so");
    assert_eq!(Osh::entry_path("/*", "etc"), "/etc");
    assert_eq!(Osh::entry_path("src//*", "a"), "src/a");
    assert_eq!(Osh::entry_path("a/*/b/*", "x"), "a/x");
}

#[test]
fn wildcard_directories() {
    assert_eq!(Osh::wildcard_directory("plain"), None);
    assert_eq!(Osh::wildcard_directory("a/b"), None);
    assert_eq!(Osh::wildcard_directory("*"), Some(".".to_string()));
    assert_eq!(Osh::wildcard_directory("*.txt"), Some(".".to_string()));
    assert_eq!(Osh::wildcard_directory("/*"), Some("/".to_string()));
    assert_eq!(Osh::wildcard_directory("src/*"), Some("src".to_string()));
    assert_eq!(Osh::wildcard_directory("/usr/lib/*.so"), Some("/usr/lib".to_string()));
    assert_eq!(Osh::wildcard_directory("a/*/b/*"), Some("a".to_string()));
    assert_eq!(Osh::wildcard_directory("/*x"), Some(String::new()));
    assert_eq!(Osh::wildcard_directory("a*/b"), Some(".".to_string()));
}

#[test]
fn defaults_from_the_surroundings() {
    assert_eq!(Osh::default_prompt(), "$");
    assert_eq!(Osh::get_username(&Table::new()), "");
    assert_eq!(Osh::get_username(&env_with(&[("USERNAME", "me")])), "me");
    assert_eq!(Osh::get_hostname(None), "");
    assert_eq!(Osh::get_hostname(Some("  box.local\n")), "box.local");
    assert_eq!(Osh::get_hostname(Some("\n\t ")), "");
}

#[test]
fn fallback_configuration() {
    let config = ConfigFile::new(None);
    assert_eq!(config.aliases.len(), 0);
    assert_eq!(config.prompt, "$");
    assert!(!config.debug);
    assert_eq!(config.username, "");
    assert_eq!(config.hostname, "");
}

#[test]
fn loaded_configuration_is_kept() {
    let mut aliases = Table::new();
    aliases.insert("ll".to_string(), "ls -la".to_string());
    let loaded = ConfigFile {
        aliases,
        prompt: "%".to_string(),
        debug: true,
        username: "me".to_string(),
        hostname: "box".to_string(),
    };
    let config = ConfigFile::new(Some(loaded));
    assert_eq!(config.aliases.lookup("ll"), Some("ls -la".to_string()));
    assert_eq!(config.prompt, "%");
    assert!(config.debug);
    assert_eq!(config.username, "me");
    assert_eq!(config.hostname, "box");
    let copy = config.clone();
    assert_eq!(copy.aliases.lookup("ll"), Some("ls -la".to_string()));
    assert_eq!(copy.prompt, "%");
}

#[test]
fn session_takes_the_aliases_of_its_configuration() {
    let mut aliases = Table::new();
    aliases.insert("ll".to_string(), "ls -la".to_string());
    let config = ConfigFile {
        aliases,
        prompt: "$".to_string(),
        debug: false,
        username: String::new(),
        hostname: String::new(),
    };
    let osh = Osh::new(config, &env_with(&[("HOME", "/home/u")]), "/srv");
    assert_eq!(osh.aliases.lookup("ll"), Some("ls -la".to_string()));
    assert_eq!(osh.history_path, "/home/u/.history");
    assert_eq!(osh.previous_directory, "/srv");
    assert_eq!(osh.status, 0);
}

#[test]
fn history_without_home_is_under_tmp() {
    let osh = Osh::new(ConfigFile::new(None), &Table::new(), "/");
    assert_eq!(osh.history_path, "/tmp/.history");
}

#[test]
fn table_holds_one_text_per_name() {
    let mut table = Table::new();
    assert_eq!(table.len(), 0);
    assert!(!table.contains("a"));
    table.insert("b".to_string(), "2".to_string());
    table.insert("a".to_string(), "1".to_string());
    table.insert("c".to_string(), "3".to_string());
    table.insert("a".to_string(), "one".to_string());
    assert_eq!(table.len(), 3);
    assert!(table.contains("a"));
    assert_eq!(table.lookup("a"), Some("one".to_string()));
    assert_eq!(table.lookup("b"), Some("2".to_string()));
    assert_eq!(table.lookup("d"), None);
    assert_eq!(table.lookup(""), None);
    assert!(table.remove("b"));
    assert!(!table.remove("b"));
    assert_eq!(table.len(), 2);
    assert_eq!(
        table.list(),
        vec![("a".to_string(), "one".to_string()), ("c".to_string(), "3".to_string())]
    );
    let copy = table.clone();
    assert_eq!(copy.list(), table.list());
}

#[test]
fn table_lists_in_the_order_of_the_names() {
    let mut table = Table::new();
    for name in ["pear", "apple", "fig", "Zebra", "app", ""].iter() {
        table.insert(name.to_string(), name.to_uppercase());
    }
    let names: Vec<String> = table.list().into_iter().map(|pair| pair.0).collect();
    assert_eq!(names, words(&["", "Zebra", "app", "apple", "fig", "pear"]));
}

#[test]
fn text_equality_and_membership() {
    assert!(same_text("abc", "abc"));
    assert!(same_text("", ""));
    assert!(!same_text("abc", "abd"));
    assert!(!same_text("abc", "ab"));
    assert!(!same_text("ab", "abc"));
    assert!(has_char("a$b", '$'));
    assert!(!has_char("ab", '$'));
    assert!(!has_char("", 'a'));
    assert_eq!(chars_of("héllo"), vec!['h', 'é', 'l', 'l', 'o']);
    assert_eq!(copy_texts(&words(&["a", "b"])), words(&["a", "b"]));
}

#[test]
fn text_order_is_lexicographic() {
    assert!(text_precedes("", "a"));
    assert!(!text_precedes("", ""));
    assert!(!text_precedes("a", ""));
    assert!(text_precedes("a", "b"));
    assert!(text_precedes("ab", "abc"));
    assert!(!text_precedes("abc", "ab"));
    assert!(text_precedes("Z", "a"));
    assert!(text_precedes("a10", "a9"));
    assert!(!text_precedes("same", "same"));
    assert!(text_precedes("z", "é"));
}

#[test]
fn sorting_matches_the_standard_order() {
    let items = words(&["b", "a", "", "ab", "B", "é", "a", "10", "9", "z", "aa"]);
    let mut expected = items.clone();
    expected.sort();
    assert_eq!(sort_texts(&items), expected);
    assert_eq!(sort_texts(&Vec::new()), Vec::<String>::new());
}

#[test]
fn finding_text() {
    assert_eq!(find_text("a/*b/*", "/*"), Some(1));
    assert_eq!(find_text("/*", "/*"), Some(0));
    assert_eq!(find_text("abc", "/*"), None);
    assert_eq!(find_text("a/b*", "/*"), None);
    assert_eq!(find_text("abc", ""), Some(0));
    assert_eq!(find_text("", ""), Some(0));
    assert_eq!(find_text("", "a"), None);
    assert_eq!(find_text("é/*", "/*"), Some(1));
    assert_eq!(find_text("aab", "ab"), Some(1));
}

#[test]
fn replacing_characters() {
    assert_eq!(replace_char("a~b~", '~', "XY"), "aXYbXY");
    assert_eq!(replace_char("~", '~', ""), "");
    assert_eq!(replace_char("abc", '~', "X"), "abc");
    assert_eq!(replace_char("", '~', "X"), "");
    assert_eq!(replace_char("\"/a b\"", '"', ""), "/a b");
    assert_eq!(replace_char("~~", '~', "~"), "~~");
}

#[test]
fn joining_words() {
    let items = words(&["alias", "git", "status", "-s"]);
    assert_eq!(join_words(&items, 0, " "), "alias git status -s");
    assert_eq!(join_words(&items, 1, " "), "git status -s");
    assert_eq!(join_words(&items, 3, " "), "-s");
    assert_eq!(join_words(&items, 4, " "), "");
    assert_eq!(join_words(&items, 2, ", "), "status, -s");
    assert_eq!(join_words(&Vec::new(), 0, " "), "");
}

#[test]
fn trimming() {
    assert_eq!(trim_text("  a b \n"), "a b");
    assert_eq!(trim_text("a"), "a");
    assert_eq!(trim_text(""), "");
    assert_eq!(trim_text(" \t\r\n"), "");
    assert_eq!(trim_text("\u{a0}x\u{3000}"), "x");
    assert_eq!(trim_text("\u{200b}x"), "\u{200b}x");
}

#[test]
fn white_space_is_what_the_standard_library_says() {
    let mut code: u32 = 0;
    while code <= 0x3100 {
        if let Some(c) = char::from_u32(code) {
            assert_eq!(space(c), c.is_whitespace(), "U+{:04X}", code);
        }
        code += 1;
    }
    assert!(!space('\u{feff}'));
    assert!(!space('\u{10ffff}'));
}
