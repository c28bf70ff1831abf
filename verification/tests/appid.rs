use steamrunner::appid::appid_from_command;

#[test]
fn appid_is_read_from_the_clients_command() {
    let command = "/home/u/.steam/reaper SteamLaunch AppId=620 -- /games/portal2.sh -game portal2";
    assert_eq!(appid_from_command(command), Some("620".to_string()));
}

#[test]
fn appid_ends_with_the_command() {
    assert_eq!(appid_from_command("AppId=1234"), Some("1234".to_string()));
    assert_eq!(appid_from_command("x AppId=1234"), Some("1234".to_string()));
}

#[test]
fn appid_is_what_stands_behind_the_last_equals_sign() {
    assert_eq!(appid_from_command("a AppId=x=77 b"), Some("77".to_string()));
    assert_eq!(appid_from_command("a=b AppId=5 c=d"), Some("5".to_string()));
}

#[test]
fn appid_may_be_empty() {
    assert_eq!(appid_from_command("AppId= rest"), Some(String::new()));
    assert_eq!(appid_from_command("AppId="), Some(String::new()));
}

#[test]
fn first_key_counts() {
    assert_eq!(appid_from_command("AppId=1 AppId=2"), Some("1".to_string()));
    assert_eq!(appid_from_command("xAppId=3 AppId=4"), Some("3".to_string()));
}

#[test]
fn command_without_key_names_no_game() {
    assert_eq!(appid_from_command(""), None);
    assert_eq!(appid_from_command("/usr/bin/game --fast"), None);
    assert_eq!(appid_from_command("appid=12"), None);
    assert_eq!(appid_from_command("AppId 12"), None);
    assert_eq!(appid_from_command("AppId"), None);
}

#[test]
fn appid_is_found_behind_text_beyond_ascii() {
    assert_eq!(appid_from_command("/spiele/größe AppId=99 --x"), Some("99".to_string()));
}
