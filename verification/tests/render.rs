use steamrunner::game_config::{default_global_config, ConfigOption, GameConfig};
use steamrunner::text::{matches_at, replace, to_chars};

fn option(token: &str, replacement: &str, enabled: bool) -> ConfigOption {
    ConfigOption::new(&token.to_string(), &replacement.to_string(), enabled, false)
}

fn config(template: &str, options: Vec<ConfigOption>) -> GameConfig {
    GameConfig {
        appid: String::new(),
        placeholder_launch_command: template.to_string(),
        launch_command_modified: false,
        placeholder_map: options,
        pre_launch_commands: Vec::new(),
        post_exit_commands: Vec::new(),
    }
}

fn render(template: &str, options: Vec<ConfigOption>, raw: &str) -> String {
    config(template, options).get_launch_command(&raw.to_string())
}

#[test]
fn disabled_option_removes_its_token() {
    let line = render("A%x%B %command%", vec![option("%x%", "Y", false)], "Z");
    assert_eq!(line, "AB Z");
}

#[test]
fn enabled_option_puts_its_replacement_in() {
    let line = render("A%x%B %command%", vec![option("%x%", "Y", true)], "Z");
    assert_eq!(line, "AYB Z");
}

#[test]
fn new_option_holds_what_it_was_given() {
    let o = ConfigOption::new(&"%mh%".to_string(), &"mangohud ".to_string(), true, false);
    assert_eq!(o.placeholder, "%mh%");
    assert_eq!(o.replace_with, "mangohud ");
    assert!(o.enabled);
    assert!(!o.modified);
    let p = ConfigOption::new(&"a".to_string(), &"b".to_string(), false, true);
    assert!(!p.enabled);
    assert!(p.modified);
}

#[test]
fn render_leaves_no_token_and_no_marker() {
    let options = vec![
        option("%mh%", "mangohud ", true),
        option("%ov%", "obs-vkcapture ", false),
        option("%og%", "obs-glcapture ", true),
    ];
    let line = render("%mh% %ov% %og% %command%", options, "/usr/bin/game --fast");
    assert_eq!(line, "mangohud   obs-glcapture  /usr/bin/game --fast");
    assert!(!line.contains("%command%"));
    assert!(!line.contains("%mh%"));
    assert!(!line.contains("%ov%"));
    assert!(!line.contains("%og%"));
}

#[test]
fn command_stands_where_the_marker_stood() {
    let line = render("env X=1 %t% %command% --tail", vec![option("%t%", "tool", true)], "run me");
    let resolved = "env X=1 tool %command% --tail";
    let at = resolved.find("%command%").unwrap();
    assert_eq!(&line[..at], &resolved[..at]);
    assert_eq!(&line[at..at + "run me".len()], "run me");
    assert_eq!(line, "env X=1 tool run me --tail");
}

#[test]
fn template_without_marker_leaves_the_command_out() {
    let line = render("fixed %x%", vec![option("%x%", "line", true)], "ignored");
    assert_eq!(line, "fixed line");
}

#[test]
fn every_marker_is_replaced() {
    let line = render("%command% && %command%", Vec::new(), "true");
    assert_eq!(line, "true && true");
}

#[test]
fn command_is_spliced_in_verbatim() {
    let line = render("%command%", Vec::new(), "a 'b c' \"d\" $E %x%");
    assert_eq!(line, "a 'b c' \"d\" $E %x%");
}

#[test]
fn marker_in_the_command_is_not_scanned_again() {
    let line = render("[%command%]", Vec::new(), "%command%");
    assert_eq!(line, "[%command%]");
}

#[test]
fn options_apply_in_list_order() {
    let first = render(
        "%a%",
        vec![option("%a%", "%b%", true), option("%b%", "end", true)],
        "",
    );
    assert_eq!(first, "end");
    let second = render(
        "%a%",
        vec![option("%b%", "end", true), option("%a%", "%b%", true)],
        "",
    );
    assert_eq!(second, "%b%");
}

#[test]
fn replacement_is_not_scanned_for_its_own_token() {
    let line = render("x%a%y", vec![option("%a%", "<%a%>", true)], "");
    assert_eq!(line, "x<%a%>y");
}

#[test]
fn duplicate_tokens_apply_in_turn() {
    let line = render(
        "%a% %a%",
        vec![option("%a%", "one", true), option("%a%", "two", true)],
        "",
    );
    assert_eq!(line, "one one");
}

#[test]
fn empty_token_replaces_nothing() {
    let enabled = render("abc %command%", vec![option("", "X", true)], "Z");
    assert_eq!(enabled, "abc Z");
    let disabled = render("abc %command%", vec![option("", "X", false)], "Z");
    assert_eq!(disabled, "abc Z");
}

#[test]
fn removing_a_token_can_bring_one_about() {
    let line = render("%m%mh%h% %command%", vec![option("%mh%", "tool", false)], "Z");
    assert_eq!(line, "%mh% Z");
}

#[test]
fn nothing_is_trimmed() {
    let line = render("  %x%  %command%  ", vec![option("%x%", "", true)], " Z ");
    assert_eq!(line, "     Z   ");
}

#[test]
fn replace_scans_from_the_left_without_overlap() {
    assert_eq!(replace("aaaa", "aa", "b"), "bb");
    assert_eq!(replace("aaa", "aa", "b"), "ba");
    assert_eq!(replace("abab", "ab", "ba"), "baba");
    assert_eq!(replace("%a%a%", "%a%", "-"), "-a%");
}

#[test]
fn replace_without_occurrence_changes_nothing() {
    assert_eq!(replace("hello", "xyz", "!"), "hello");
    assert_eq!(replace("", "a", "b"), "");
    assert_eq!(replace("ab", "abc", "x"), "ab");
    assert_eq!(replace("hello", "", "!"), "hello");
}

#[test]
fn replace_handles_text_beyond_ascii() {
    assert_eq!(replace("grüße %x% ☃", "%x%", "naïve"), "grüße naïve ☃");
    assert_eq!(replace("☃☃☃", "☃", "ab"), "ababab");
    assert_eq!(replace("añb", "ñ", ""), "ab");
}

#[test]
fn replace_agrees_with_the_standard_library() {
    let texts = ["", "a", "%a%%a%", "xx%command%yy%command%", "aXbXc", "XXXX", "no match"];
    let patterns = ["a", "%a%", "%command%", "X", "XX", "XXX"];
    let inserts = ["", "-", "X", "%a%", "longer text"];
    for text in texts {
        for pattern in patterns {
            for insert in inserts {
                assert_eq!(replace(text, pattern, insert), text.replace(pattern, insert));
            }
        }
    }
}

#[test]
fn to_chars_lists_the_characters() {
    assert_eq!(to_chars("a☃b"), vec!['a', '☃', 'b']);
    assert_eq!(to_chars(""), Vec::<char>::new());
}

#[test]
fn matches_at_finds_the_pattern_in_place() {
    let text = to_chars("x%a%y");
    let pattern = to_chars("%a%");
    assert!(matches_at(&text, &pattern, 1));
    assert!(!matches_at(&text, &pattern, 0));
    assert!(!matches_at(&text, &pattern, 2));
    assert!(!matches_at(&text, &pattern, 3));
    assert!(!matches_at(&text, &pattern, 100));
    assert!(matches_at(&text, &Vec::new(), 5));
    assert!(!matches_at(&text, &Vec::new(), 6));
}

#[test]
fn default_global_config_resolves_to_the_bare_command() {
    let global = default_global_config();
    assert_eq!(global.appid, "");
    assert_eq!(global.placeholder_launch_command, "%mh% %ov% %og% %command%");
    assert!(!global.launch_command_modified);
    assert_eq!(global.placeholder_map.len(), 3);
    assert_eq!(global.placeholder_map[0].placeholder, "%mh%");
    assert_eq!(global.placeholder_map[0].replace_with, "mangohud ");
    assert_eq!(global.placeholder_map[1].placeholder, "%ov%");
    assert_eq!(global.placeholder_map[1].replace_with, "obs-vkcapture ");
    assert_eq!(global.placeholder_map[2].placeholder, "%og%");
    assert_eq!(global.placeholder_map[2].replace_with, "obs-glcapture ");
    for o in &global.placeholder_map {
        assert!(!o.enabled);
        assert!(!o.modified);
    }
    assert!(global.pre_launch_commands.is_empty());
    assert!(global.post_exit_commands.is_empty());
    assert_eq!(global.get_launch_command(&"game".to_string()), "   game");
}

#[test]
fn option_whose_token_is_the_marker_takes_it_first() {
    let line = render("run %command%", vec![option("%command%", "x", true)], "game");
    assert_eq!(line, "run x");
    let line = render("run %command%", vec![option("%command%", "x", false)], "game");
    assert_eq!(line, "run ");
}

#[test]
fn option_can_put_a_marker_in() {
    let line = render("%a% %command%", vec![option("%a%", "%command%", true)], "game");
    assert_eq!(line, "game game");
}
