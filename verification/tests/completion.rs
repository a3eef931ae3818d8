use osh::{Completion, MyFilenameCompleter};

fn words(items: &[&str]) -> Vec<String> {
    items.iter().map(|s| s.to_string()).collect()
}

fn parts(pattern: &str) -> (String, String) {
    MyFilenameCompleter::new().split_pattern(pattern)
}

#[test]
fn break_characters() {
    let completer = MyFilenameCompleter::new();
    assert_eq!(completer.break_chars().as_slice(), b" \t\n\"\\'`@$><=;|&{(\0");
    assert_eq!(completer.special_chars().as_slice(), b"\"$\\`");
}

#[test]
fn pattern_is_split_at_its_last_separator() {
    assert_eq!(parts("src/ma"), ("src/".to_string(), "ma".to_string()));
    assert_eq!(parts("/usr/lib/x"), ("/usr/lib/".to_string(), "x".to_string()));
    assert_eq!(parts("plain"), (String::new(), "plain".to_string()));
    assert_eq!(parts("dir/"), ("dir/".to_string(), String::new()));
    assert_eq!(parts("/"), ("/".to_string(), String::new()));
    assert_eq!(parts(""), (String::new(), String::new()));
}

#[test]
fn candidates_hold_the_file_part() {
    let completer = MyFilenameCompleter::new();
    let names = words(&["files.txt", "main.rs", "txt-dir", "notes"]);
    assert_eq!(completer.candidates("txt", &names), words(&["files.txt", "txt-dir"]));
    assert_eq!(completer.candidates("src/txt", &names), words(&["src/files.txt", "src/txt-dir"]));
    assert_eq!(completer.candidates("zzz", &names), Vec::<String>::new());
    assert_eq!(completer.candidates("", &names), names);
    assert_eq!(completer.candidates("x", &Vec::new()), Vec::<String>::new());
}

#[test]
fn double_star_offers_every_name() {
    let completer = MyFilenameCompleter::new();
    let names = words(&["a", "b"]);
    assert_eq!(completer.candidates("**", &names), names);
    assert_eq!(completer.candidates("src/**", &names), names);
}

#[test]
fn completion_by_number_of_candidates() {
    let completer = MyFilenameCompleter::new();
    let names = words(&["files.txt", "main.rs", "txt-dir"]);
    assert_eq!(completer.complete_filename_with_pattern("zzz", &names), Completion::Nothing);
    assert_eq!(
        completer.complete_filename_with_pattern("main", &names),
        Completion::Single("main.rs".to_string())
    );
    assert_eq!(
        completer.complete_filename_with_pattern("src/main", &names),
        Completion::Single("src/src/main.rs".to_string())
    );
    assert_eq!(
        completer.complete_filename_with_pattern("txt", &names),
        Completion::Choose(words(&["files.txt", "txt-dir"]))
    );
}

#[test]
fn chosen_names_are_escaped_and_joined() {
    let completer = MyFilenameCompleter::new();
    assert_eq!(completer.chosen_replacement("src/x", &words(&["a", "b c"])), "src/a src/b\\ c");
    assert_eq!(completer.chosen_replacement("x", &words(&["a", "b"])), "a b");
    assert_eq!(completer.chosen_replacement("src/x", &words(&["a"])), "src/a");
    assert_eq!(completer.chosen_replacement("src/x", &Vec::new()), "");
}

#[test]
fn single_replacement_escapes_break_characters() {
    let completer = MyFilenameCompleter::new();
    assert_eq!(completer.single_replacement("plain.txt".to_string()), "plain.txt");
    assert_eq!(completer.single_replacement("User Information".to_string()), "User\\ Information");
    assert_eq!(completer.single_replacement("a$b|c".to_string()), "a\\$b\\|c");
    assert_eq!(completer.single_replacement("a\\b".to_string()), "a\\\\b");
    assert_eq!(completer.single_replacement("caf\u{e9} x".to_string()), "caf\u{e9}\\ x");
    assert_eq!(completer.single_replacement(String::new()), "");
}

#[test]
fn pattern_is_the_word_before_the_cursor() {
    let completer = MyFilenameCompleter::new();
    assert_eq!(completer.pattern_at("ls src/ma", 9), Some((3, "src/ma".to_string())));
    assert_eq!(completer.pattern_at("ls src/ma", 6), Some((3, "src".to_string())));
    assert_eq!(completer.pattern_at("ls", 2), Some((0, "ls".to_string())));
    assert_eq!(completer.pattern_at("ls ", 3), Some((3, String::new())));
    assert_eq!(completer.pattern_at("", 0), Some((0, String::new())));
    assert_eq!(completer.pattern_at("a|b", 3), Some((2, "b".to_string())));
}

#[test]
fn pattern_loses_its_escape_characters() {
    let completer = MyFilenameCompleter::new();
    assert_eq!(completer.pattern_at("ls my\\ file", 11), Some((3, "my file".to_string())));
}

#[test]
fn escaped_escape_character_is_kept_once() {
    let completer = MyFilenameCompleter::new();
    assert_eq!(completer.pattern_at("ls a\\\\b", 7), Some((3, "a\\b".to_string())));
}

#[test]
fn pattern_starts_before_the_cursor() {
    let completer = MyFilenameCompleter::new();
    let line = "cat one two|three";
    for pos in 0..=line.len() {
        let (start, pattern) = completer.pattern_at(line, pos).unwrap();
        assert!(start <= pos);
        assert_eq!(pattern, &line[start..pos]);
    }
}

#[test]
fn no_pattern_off_a_character_boundary() {
    let completer = MyFilenameCompleter::new();
    assert_eq!(completer.pattern_at("caf\u{e9}", 4), None);
    assert_eq!(completer.pattern_at("caf\u{e9}", 5), Some((0, "caf\u{e9}".to_string())));
    assert_eq!(completer.pattern_at("abc", 4), None);
}
