use steamrunner::game_config::{ConfigCommand, ConfigOption, GameConfig};
use steamrunner::launch::{Action, Decision, Event, Launcher, Stage};

fn command(line: &str, enabled: bool) -> ConfigCommand {
    ConfigCommand { command: line.to_string(), enabled, modified: false }
}

fn game(pre: Vec<ConfigCommand>, post: Vec<ConfigCommand>) -> GameConfig {
    GameConfig {
        appid: "7".to_string(),
        placeholder_launch_command: "%w% %command%".to_string(),
        launch_command_modified: false,
        placeholder_map: vec![ConfigOption::new(
            &"%w%".to_string(),
            &"wrap".to_string(),
            true,
            false,
        )],
        pre_launch_commands: pre,
        post_exit_commands: post,
    }
}

fn spawned(decision: &Decision) -> Option<(String, bool)> {
    match &decision.action {
        Action::Spawn { command, capture_output } => Some((command.clone(), *capture_output)),
        _ => None,
    }
}

fn run_to_end(
    config: &GameConfig,
    log_output: bool,
    outcomes: &[Event],
) -> (Vec<(String, bool)>, Launcher) {
    let raw = "game.exe".to_string();
    let mut launcher = Launcher::new(log_output);
    let mut seen = Vec::new();
    let mut decision = launcher.step(config, &raw, Event::EditorClosed { cancelled: false });
    let mut next = 0;
    while let Some(run) = spawned(&decision) {
        seen.push(run);
        let outcome = if next < outcomes.len() { outcomes[next] } else { Event::Exited };
        next += 1;
        decision = launcher.step(config, &raw, outcome);
    }
    assert!(matches!(decision.action, Action::Stop));
    (seen, launcher)
}

fn lines(runs: &[(String, bool)]) -> Vec<String> {
    runs.iter().map(|r| r.0.clone()).collect()
}

#[test]
fn launcher_starts_idle() {
    let launcher = Launcher::new(false);
    assert_eq!(launcher.stage(), Stage::Idle);
    assert!(!launcher.launch_failed());
}

#[test]
fn failed_pre_launch_command_does_not_stop_the_launch() {
    let config = game(
        vec![command("first", true), command("second", true)],
        vec![command("after", true)],
    );
    let raw = "game.exe".to_string();
    let mut launcher = Launcher::new(false);

    let d = launcher.step(&config, &raw, Event::EditorClosed { cancelled: false });
    assert_eq!(spawned(&d), Some(("first".to_string(), false)));
    assert_eq!(d.report, None);
    assert_eq!(launcher.stage(), Stage::RunningPreLaunch);

    let d = launcher.step(&config, &raw, Event::SpawnFailed);
    assert_eq!(d.report, Some(Stage::RunningPreLaunch));
    assert_eq!(spawned(&d), Some(("second".to_string(), false)));
    assert_eq!(launcher.stage(), Stage::RunningPreLaunch);

    let d = launcher.step(&config, &raw, Event::SpawnFailed);
    assert_eq!(d.report, Some(Stage::RunningPreLaunch));
    assert_eq!(spawned(&d), Some(("wrap game.exe".to_string(), false)));
    assert_eq!(launcher.stage(), Stage::RunningMain);
    assert!(!launcher.launch_failed());

    let d = launcher.step(&config, &raw, Event::Exited);
    assert_eq!(d.report, None);
    assert_eq!(spawned(&d), Some(("after".to_string(), false)));
    assert_eq!(launcher.stage(), Stage::RunningPostExit);

    let d = launcher.step(&config, &raw, Event::Exited);
    assert_eq!(d.report, None);
    assert!(matches!(d.action, Action::Stop));
    assert_eq!(launcher.stage(), Stage::Done);
    assert!(!launcher.launch_failed());
}

#[test]
fn cancelled_launch_spawns_nothing() {
    let config = game(vec![command("first", true)], vec![command("after", true)]);
    let raw = "game.exe".to_string();
    let mut launcher = Launcher::new(true);
    let d = launcher.step(&config, &raw, Event::EditorClosed { cancelled: true });
    assert!(matches!(d.action, Action::Stop));
    assert_eq!(d.report, None);
    assert_eq!(launcher.stage(), Stage::Cancelled);
    let later = [
        Event::Exited,
        Event::SpawnFailed,
        Event::EditorClosed { cancelled: false },
        Event::EditorClosed { cancelled: true },
        Event::Exited,
    ];
    for event in later {
        let d = launcher.step(&config, &raw, event);
        assert!(matches!(d.action, Action::Stop));
        assert_eq!(d.report, None);
        assert_eq!(launcher.stage(), Stage::Cancelled);
    }
    assert!(!launcher.launch_failed());
}

#[test]
fn launch_runs_enabled_commands_in_order() {
    let config = game(
        vec![command("a", true), command("skipped", false), command("b", true)],
        vec![command("off", false), command("c", true), command("d", true)],
    );
    let (runs, launcher) = run_to_end(&config, false, &[]);
    assert_eq!(lines(&runs), vec!["a", "b", "wrap game.exe", "c", "d"]);
    assert_eq!(launcher.stage(), Stage::Done);
    assert!(!launcher.launch_failed());
}

#[test]
fn launch_runs_the_same_commands_whatever_fails() {
    let config = game(
        vec![command("a", true), command("b", true)],
        vec![command("c", true), command("d", true)],
    );
    let all_fail = [Event::SpawnFailed; 5];
    let (runs, launcher) = run_to_end(&config, false, &all_fail);
    assert_eq!(lines(&runs), vec!["a", "b", "wrap game.exe", "c", "d"]);
    assert_eq!(launcher.stage(), Stage::Done);
    assert!(launcher.launch_failed());

    let some_fail = [Event::Exited, Event::SpawnFailed, Event::Exited, Event::SpawnFailed];
    let (runs, launcher) = run_to_end(&config, false, &some_fail);
    assert_eq!(lines(&runs), vec!["a", "b", "wrap game.exe", "c", "d"]);
    assert!(!launcher.launch_failed());
}

#[test]
fn failed_game_is_reported_and_post_exit_commands_run() {
    let config = game(Vec::new(), vec![command("after", true)]);
    let raw = "game.exe".to_string();
    let mut launcher = Launcher::new(false);
    let d = launcher.step(&config, &raw, Event::EditorClosed { cancelled: false });
    assert_eq!(spawned(&d), Some(("wrap game.exe".to_string(), false)));
    assert_eq!(launcher.stage(), Stage::RunningMain);
    let d = launcher.step(&config, &raw, Event::SpawnFailed);
    assert_eq!(d.report, Some(Stage::RunningMain));
    assert_eq!(spawned(&d), Some(("after".to_string(), false)));
    assert_eq!(launcher.stage(), Stage::RunningPostExit);
    assert!(launcher.launch_failed());
    let d = launcher.step(&config, &raw, Event::SpawnFailed);
    assert_eq!(d.report, Some(Stage::RunningPostExit));
    assert!(matches!(d.action, Action::Stop));
    assert_eq!(launcher.stage(), Stage::Done);
    assert!(launcher.launch_failed());
}

#[test]
fn launch_without_commands_runs_the_game_only() {
    let config = game(Vec::new(), Vec::new());
    let (runs, launcher) = run_to_end(&config, false, &[]);
    assert_eq!(lines(&runs), vec!["wrap game.exe"]);
    assert_eq!(launcher.stage(), Stage::Done);
}

#[test]
fn launch_with_disabled_commands_only_runs_the_game_only() {
    let config = game(
        vec![command("a", false), command("b", false)],
        vec![command("c", false)],
    );
    let (runs, _) = run_to_end(&config, false, &[]);
    assert_eq!(lines(&runs), vec!["wrap game.exe"]);
}

#[test]
fn only_the_game_is_logged() {
    let config = game(vec![command("a", true)], vec![command("c", true)]);
    let (runs, _) = run_to_end(&config, true, &[]);
    assert_eq!(
        runs,
        vec![
            ("a".to_string(), false),
            ("wrap game.exe".to_string(), true),
            ("c".to_string(), false),
        ]
    );
    let (runs, _) = run_to_end(&config, false, &[]);
    assert_eq!(
        runs,
        vec![
            ("a".to_string(), false),
            ("wrap game.exe".to_string(), false),
            ("c".to_string(), false),
        ]
    );
}

#[test]
fn events_that_are_not_awaited_change_nothing() {
    let config = game(vec![command("a", true)], Vec::new());
    let raw = "game.exe".to_string();
    let mut launcher = Launcher::new(false);
    for event in [Event::Exited, Event::SpawnFailed] {
        let d = launcher.step(&config, &raw, event);
        assert!(matches!(d.action, Action::Wait));
        assert_eq!(d.report, None);
        assert_eq!(launcher.stage(), Stage::Idle);
    }
    let d = launcher.step(&config, &raw, Event::EditorClosed { cancelled: false });
    assert_eq!(spawned(&d), Some(("a".to_string(), false)));
    for cancelled in [false, true] {
        let d = launcher.step(&config, &raw, Event::EditorClosed { cancelled });
        assert!(matches!(d.action, Action::Wait));
        assert_eq!(d.report, None);
        assert_eq!(launcher.stage(), Stage::RunningPreLaunch);
    }
    let d = launcher.step(&config, &raw, Event::Exited);
    assert_eq!(spawned(&d), Some(("wrap game.exe".to_string(), false)));
    let d = launcher.step(&config, &raw, Event::EditorClosed { cancelled: true });
    assert!(matches!(d.action, Action::Wait));
    assert_eq!(launcher.stage(), Stage::RunningMain);
}

#[test]
fn done_launch_stays_done() {
    let config = game(Vec::new(), Vec::new());
    let (_, mut launcher) = run_to_end(&config, false, &[]);
    let raw = "game.exe".to_string();
    for event in [Event::Exited, Event::SpawnFailed, Event::EditorClosed { cancelled: false }] {
        let d = launcher.step(&config, &raw, event);
        assert!(matches!(d.action, Action::Stop));
        assert_eq!(d.report, None);
        assert_eq!(launcher.stage(), Stage::Done);
    }
}

#[test]
fn game_command_is_rendered_when_the_game_starts() {
    let mut config = game(vec![command("a", true)], Vec::new());
    let raw = "game.exe".to_string();
    let mut launcher = Launcher::new(false);
    let d = launcher.step(&config, &raw, Event::EditorClosed { cancelled: false });
    assert_eq!(spawned(&d), Some(("a".to_string(), false)));
    config.placeholder_launch_command = "late %command%".to_string();
    let d = launcher.step(&config, &raw, Event::Exited);
    assert_eq!(spawned(&d), Some(("late game.exe".to_string(), false)));
}
