use osh::{ConfigFile, Osh, Table};

fn config(username: &str, hostname: &str, prompt: &str) -> ConfigFile {
    ConfigFile {
        aliases: Table::new(),
        prompt: prompt.to_string(),
        debug: false,
        username: username.to_string(),
        hostname: hostname.to_string(),
    }
}

#[test]
fn painted_prompt_after_success() {
    console::set_colors_enabled(true);
    assert_eq!(
        Osh::build_prompt(&config("me", "box", "$"), 0, "/tmp"),
        "\u{1b}[32mme\u{1b}[0m\u{1b}[32m@box \u{1b}[0m\u{1b}[34m\u{1b}[1m/tmp\u{1b}[0m $ "
    );
}

#[test]
fn painted_prompt_after_failure() {
    console::set_colors_enabled(true);
    assert_eq!(
        Osh::build_prompt(&config("me", "box", "$"), 1, "/tmp"),
        "\u{1b}[32mme\u{1b}[0m\u{1b}[32m@box \u{1b}[0m\u{1b}[1m/tmp\u{1b}[0m $ "
    );
}

#[test]
fn painted_prompt_without_names() {
    console::set_colors_enabled(true);
    assert_eq!(
        Osh::build_prompt(&config("", "", "#"), 0, "/"),
        "\u{1b}[34m\u{1b}[1m/\u{1b}[0m # "
    );
}
