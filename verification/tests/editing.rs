use steamrunner::game_config::{ConfigCommand, ConfigOption, GameConfig};

fn opt(token: &str, replacement: &str, enabled: bool, modified: bool) -> ConfigOption {
    ConfigOption::new(&token.to_string(), &replacement.to_string(), enabled, modified)
}

fn cmd(line: &str, enabled: bool, modified: bool) -> ConfigCommand {
    ConfigCommand { command: line.to_string(), enabled, modified }
}

fn sample() -> GameConfig {
    GameConfig {
        appid: "9".to_string(),
        placeholder_launch_command: "%a% %command%".to_string(),
        launch_command_modified: false,
        placeholder_map: vec![opt("%a%", "A", false, false), opt("%b%", "B", true, false)],
        pre_launch_commands: vec![cmd("pre0", true, false), cmd("pre1", false, false)],
        post_exit_commands: vec![cmd("post0", true, false)],
    }
}

fn tokens(config: &GameConfig) -> Vec<String> {
    config.placeholder_map.iter().map(|o| o.placeholder.clone()).collect()
}

fn commands(list: &[ConfigCommand]) -> Vec<String> {
    list.iter().map(|c| c.command.clone()).collect()
}

#[test]
fn toggling_an_option_does_not_mark_it() {
    let mut config = sample();
    config.sync_option(0, opt("%a%", "A", true, false));
    assert_eq!(config.placeholder_map[0].placeholder, "%a%");
    assert_eq!(config.placeholder_map[0].replace_with, "A");
    assert!(config.placeholder_map[0].enabled);
    assert!(!config.placeholder_map[0].modified);
    assert_eq!(tokens(&config), vec!["%a%", "%b%"]);
}

#[test]
fn editing_the_text_of_an_option_marks_it() {
    let mut config = sample();
    config.sync_option(1, opt("%b%", "changed", true, false));
    assert_eq!(config.placeholder_map[1].replace_with, "changed");
    assert!(config.placeholder_map[1].modified);
    assert!(!config.placeholder_map[0].modified);

    let mut config = sample();
    config.sync_option(0, opt("%renamed%", "A", false, false));
    assert_eq!(config.placeholder_map[0].placeholder, "%renamed%");
    assert!(config.placeholder_map[0].modified);
}

#[test]
fn an_edited_option_stays_marked() {
    let mut config = sample();
    config.sync_option(0, opt("%a%", "A", false, true));
    assert!(config.placeholder_map[0].modified);
    config.sync_option(0, opt("%a%", "A", true, false));
    assert!(config.placeholder_map[0].modified);
    assert!(config.placeholder_map[0].enabled);
}

#[test]
fn an_edited_option_survives_a_merge() {
    let mut config = sample();
    config.sync_option(0, opt("%a%", "mine", true, false));
    let shared = sample();
    config.merge_with(&shared);
    assert_eq!(config.placeholder_map[0].replace_with, "mine");
    assert_eq!(tokens(&config), vec!["%a%", "%b%", "%a%"]);
    assert_eq!(config.placeholder_map[2].replace_with, "A");
}

#[test]
fn syncing_a_command_follows_the_same_rule() {
    let mut config = sample();
    config.sync_command(1, cmd("pre1", true, false), true);
    assert!(config.pre_launch_commands[1].enabled);
    assert!(!config.pre_launch_commands[1].modified);
    config.sync_command(1, cmd("other", true, false), true);
    assert_eq!(config.pre_launch_commands[1].command, "other");
    assert!(config.pre_launch_commands[1].modified);
    assert_eq!(commands(&config.pre_launch_commands), vec!["pre0", "other"]);
    assert_eq!(commands(&config.post_exit_commands), vec!["post0"]);

    config.sync_command(0, cmd("done", false, false), false);
    assert_eq!(commands(&config.post_exit_commands), vec!["done"]);
    assert!(!config.post_exit_commands[0].enabled);
    assert!(config.post_exit_commands[0].modified);
    assert_eq!(commands(&config.pre_launch_commands), vec!["pre0", "other"]);
}

#[test]
fn editing_the_template_marks_it() {
    let mut config = sample();
    config.sync_placeholder_string("new %command%".to_string());
    assert_eq!(config.placeholder_launch_command, "new %command%");
    assert!(config.launch_command_modified);
    let mut shared = sample();
    shared.placeholder_launch_command = "shared %command%".to_string();
    config.merge_with(&shared);
    assert_eq!(config.placeholder_launch_command, "new %command%");
}

#[test]
fn adding_appends_an_empty_entry() {
    let mut config = sample();
    config.add_option();
    assert_eq!(tokens(&config), vec!["%a%", "%b%", ""]);
    let added = &config.placeholder_map[2];
    assert_eq!(added.replace_with, "");
    assert!(!added.enabled && !added.modified);

    config.add_command(true);
    assert_eq!(commands(&config.pre_launch_commands), vec!["pre0", "pre1", ""]);
    assert_eq!(commands(&config.post_exit_commands), vec!["post0"]);
    config.add_command(false);
    assert_eq!(commands(&config.post_exit_commands), vec!["post0", ""]);
    assert!(!config.post_exit_commands[1].enabled);
    assert!(!config.post_exit_commands[1].modified);
}

#[test]
fn removing_takes_one_entry_out() {
    let mut config = sample();
    config.remove_option(0);
    assert_eq!(tokens(&config), vec!["%b%"]);
    config.remove_command(0, true);
    assert_eq!(commands(&config.pre_launch_commands), vec!["pre1"]);
    assert_eq!(commands(&config.post_exit_commands), vec!["post0"]);
    config.remove_command(0, false);
    assert!(config.post_exit_commands.is_empty());
    assert_eq!(commands(&config.pre_launch_commands), vec!["pre1"]);
    assert_eq!(config.appid, "9");
    assert_eq!(config.placeholder_launch_command, "%a% %command%");
}
