use osh::prompt::compose_prompt;
use osh::{ConfigFile, Osh, Table};

fn config(username: &str, hostname: &str, prompt: &str) -> ConfigFile {
    ConfigFile {
        aliases: Table::new(),
        prompt: prompt.to_string(),
        debug: false,
        username: username.to_string(),
        hostname: hostname.to_string(),
    }
}

#[test]
fn prompt_parts_are_put_together() {
    assert_eq!(compose_prompt("me", "@box ", "/tmp", "$"), "me@box /tmp $ ");
    assert_eq!(compose_prompt("", "", "", ""), "  ");
}

#[test]
fn plain_prompt_with_names() {
    console::set_colors_enabled(false);
    assert_eq!(Osh::build_prompt(&config("me", "box", "$"), 0, "/tmp"), "me@box /tmp $ ");
    assert_eq!(Osh::build_prompt(&config("me", "box", "$"), 1, "/tmp"), "me@box /tmp $ ");
}

#[test]
fn plain_prompt_without_names() {
    console::set_colors_enabled(false);
    assert_eq!(Osh::build_prompt(&config("", "", ">"), 0, "/"), "/ > ");
    assert_eq!(Osh::build_prompt(&config("me", "", ">"), 0, "/"), "me/ > ");
    assert_eq!(Osh::build_prompt(&config("", "box", ">"), 0, "/"), "@box / > ");
}

#[test]
fn plain_prompt_drops_double_quotes() {
    console::set_colors_enabled(false);
    assert_eq!(Osh::build_prompt(&config("", "", "$"), 0, "/a \"b\" c"), "/a b c $ ");
}

#[test]
fn refreshed_prompt_follows_the_directory() {
    console::set_colors_enabled(false);
    let mut osh = Osh::new(config("me", "box", "$"), &Table::new(), "/tmp");
    assert_eq!(osh.prompt, "me@box /tmp $ ");
    osh.status = 1;
    osh.refresh_prompt("/var");
    assert_eq!(osh.prompt, "me@box /var $ ");
    assert_eq!(osh.status, 1);
    assert_eq!(osh.previous_directory, "/tmp");
}
