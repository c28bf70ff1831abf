//! The order in which the commands of a launch are run.
//!
//! A launch runs the enabled pre-launch commands, then the game, then the
//! enabled post-exit commands, each to its end before the next is started. A
//! command that cannot be started is reported and the launch goes on. The
//! launcher itself starts nothing: it is told what became of the command it
//! handed out last and answers with the next one.

use vstd::prelude::*;

use crate::game_config::commands_view;
use crate::game_config::CommandModel;
use crate::game_config::ConfigCommand;
use crate::game_config::ConfigModel;
use crate::game_config::GameConfig;
use crate::rendering::render;

verus! {

/// Where a launch stands.
#[derive(Clone, Copy, Debug, PartialEq, Eq, Structural)]
pub enum Stage {
    /// The editor is still open; nothing has been run.
    Idle,
    /// A pre-launch command is running.
    RunningPreLaunch,
    /// The game is running.
    RunningMain,
    /// A post-exit command is running.
    RunningPostExit,
    /// Everything has been run.
    Done,
    /// The user has called the launch off; nothing was run.
    Cancelled,
}

/// What the launcher is told.
#[derive(Clone, Copy, Debug, PartialEq, Eq, Structural)]
pub enum Event {
    /// The editor has been closed, or was never opened.
    EditorClosed { cancelled: bool },
    /// The command handed out last was started and has exited.
    Exited,
    /// The command handed out last could not be started.
    SpawnFailed,
}

/// What is to be done next.
#[derive(Debug)]
pub enum Action {
    /// Run this command line with the shell and wait until it exits.
    Spawn {
        command: String,
        /// Whether its output goes to the game's log files.
        capture_output: bool,
    },
    /// The event was not awaited: go on waiting.
    Wait,
    /// Nothing is left to run.
    Stop,
}

/// The launcher's answer to an event.
#[derive(Debug)]
pub struct Decision {
    /// The stage whose command could not be started, to be shown to the user.
    pub report: Option<Stage>,
    pub action: Action,
}

/// The state of one launch.
#[derive(Debug)]
pub struct Launcher {
    stage: Stage,
    position: usize,
    launch_failed: bool,
    log_output: bool,
}

/// What an [`Action`] stands for.
pub enum ActionModel {
    Spawn { command: Seq<char>, capture_output: bool },
    Wait,
    Stop,
}

/// What a [`Decision`] stands for.
pub struct DecisionModel {
    pub report: Option<Stage>,
    pub action: ActionModel,
}

/// What a [`Launcher`] stands for.
pub struct LauncherModel {
    pub stage: Stage,
    /// The index, in the list of the running stage, of the command handed
    /// out last.
    pub position: int,
    /// Whether the game could not be started.
    pub launch_failed: bool,
    /// Whether the game's output is to be logged.
    pub log_output: bool,
}

impl View for Action {
    type V = ActionModel;

    open spec fn view(&self) -> ActionModel {
        match *self {
            Action::Spawn { command, capture_output } => ActionModel::Spawn {
                command: command@,
                capture_output,
            },
            Action::Wait => ActionModel::Wait,
            Action::Stop => ActionModel::Stop,
        }
    }
}

impl View for Decision {
    type V = DecisionModel;

    open spec fn view(&self) -> DecisionModel {
        DecisionModel { report: self.report, action: self.action@ }
    }
}

impl View for Launcher {
    type V = LauncherModel;

    closed spec fn view(&self) -> LauncherModel {
        LauncherModel {
            stage: self.stage,
            position: self.position as int,
            launch_failed: self.launch_failed,
            log_output: self.log_output,
        }
    }
}

/// The launcher before anything has happened.
pub open spec fn idle(log_output: bool) -> LauncherModel {
    LauncherModel { stage: Stage::Idle, position: 0, launch_failed: false, log_output }
}

/// The index of the first enabled command at or behind `from`; the length of
/// `commands` where there is none.
pub open spec fn next_enabled(commands: Seq<CommandModel>, from: int) -> int
    decreases commands.len() - from,
{
    if from >= commands.len() {
        commands.len() as int
    } else if commands[from].enabled {
        from
    } else {
        next_enabled(commands, from + 1)
    }
}

/// The launch goes on with the post-exit commands at or behind `from`, and
/// is done where there is none.
pub open spec fn enter_post_exit(s: LauncherModel, c: ConfigModel, from: int) -> (
    LauncherModel,
    ActionModel,
) {
    let j = next_enabled(c.post_exit, from);
    if j < c.post_exit.len() {
        (
            LauncherModel { stage: Stage::RunningPostExit, position: j, ..s },
            ActionModel::Spawn { command: c.post_exit[j].command, capture_output: false },
        )
    } else {
        (LauncherModel { stage: Stage::Done, position: 0, ..s }, ActionModel::Stop)
    }
}

/// The launch goes on with the pre-launch commands at or behind `from`, and
/// with the game where there is none.
pub open spec fn enter_pre_launch(s: LauncherModel, c: ConfigModel, raw: Seq<char>, from: int) -> (
    LauncherModel,
    ActionModel,
) {
    let j = next_enabled(c.pre_launch, from);
    if j < c.pre_launch.len() {
        (
            LauncherModel { stage: Stage::RunningPreLaunch, position: j, ..s },
            ActionModel::Spawn { command: c.pre_launch[j].command, capture_output: false },
        )
    } else {
        (
            LauncherModel { stage: Stage::RunningMain, position: 0, ..s },
            ActionModel::Spawn { command: render(c, raw), capture_output: s.log_output },
        )
    }
}

/// The stage whose command the event says could not be started.
pub open spec fn failure(s: LauncherModel, e: Event) -> Option<Stage> {
    if e == Event::SpawnFailed {
        Some(s.stage)
    } else {
        None
    }
}

/// The state after event `e` in state `s`, and the answer to it, for the
/// configuration `c` and the command `raw` handed to the launcher.
pub open spec fn transition(s: LauncherModel, c: ConfigModel, raw: Seq<char>, e: Event) -> (
    LauncherModel,
    DecisionModel,
) {
    match s.stage {
        Stage::Idle => match e {
            Event::EditorClosed { cancelled } => if cancelled {
                (
                    LauncherModel { stage: Stage::Cancelled, ..s },
                    DecisionModel { report: None, action: ActionModel::Stop },
                )
            } else {
                let (next, action) = enter_pre_launch(s, c, raw, 0);
                (next, DecisionModel { report: None, action })
            },
            _ => (s, DecisionModel { report: None, action: ActionModel::Wait }),
        },
        Stage::RunningPreLaunch => match e {
            Event::EditorClosed { .. } => (
                s,
                DecisionModel { report: None, action: ActionModel::Wait },
            ),
            _ => {
                let (next, action) = enter_pre_launch(s, c, raw, s.position + 1);
                (next, DecisionModel { report: failure(s, e), action })
            },
        },
        Stage::RunningMain => match e {
            Event::EditorClosed { .. } => (
                s,
                DecisionModel { report: None, action: ActionModel::Wait },
            ),
            _ => {
                let failed = LauncherModel {
                    launch_failed: s.launch_failed || e == Event::SpawnFailed,
                    ..s
                };
                let (next, action) = enter_post_exit(failed, c, 0);
                (next, DecisionModel { report: failure(s, e), action })
            },
        },
        Stage::RunningPostExit => match e {
            Event::EditorClosed { .. } => (
                s,
                DecisionModel { report: None, action: ActionModel::Wait },
            ),
            _ => {
                let (next, action) = enter_post_exit(s, c, s.position + 1);
                (next, DecisionModel { report: failure(s, e), action })
            },
        },
        Stage::Done => (s, DecisionModel { report: None, action: ActionModel::Stop }),
        Stage::Cancelled => (s, DecisionModel { report: None, action: ActionModel::Stop }),
    }
}

/// The index of the first enabled command at or behind `from`; the length of
/// the list where there is none.
fn find_enabled(commands: &Vec<ConfigCommand>, from: usize) -> (j: usize)
    ensures
        j == next_enabled(commands_view(commands@), from as int),
        j <= commands.len(),
{
    let mut j = from;
    while j < commands.len() && !commands[j].enabled
        invariant
            from <= j,
            next_enabled(commands_view(commands@), from as int) == next_enabled(
                commands_view(commands@),
                j as int,
            ),
        decreases commands.len() - j,
    {
        j += 1;
    }
    if j < commands.len() {
        j
    } else {
        commands.len()
    }
}

impl Launcher {
    /// A launcher that waits for the editor. `log_output` says whether the
    /// game's output is to go to its log files.
    pub fn new(log_output: bool) -> (l: Launcher)
        ensures
            l@ == idle(log_output),
    {
        Launcher { stage: Stage::Idle, position: 0, launch_failed: false, log_output }
    }

    /// Where the launch stands.
    pub fn stage(&self) -> (s: Stage)
        ensures
            s == self@.stage,
    {
        self.stage
    }

    /// Whether the game could not be started.
    pub fn launch_failed(&self) -> (b: bool)
        ensures
            b == self@.launch_failed,
    {
        self.launch_failed
    }

    fn start_post_exit(&mut self, config: &GameConfig, from: usize) -> (action: Action)
        ensures
            (final(self)@, action@) == enter_post_exit(old(self)@, config@, from as int),
    {
        let j = find_enabled(&config.post_exit_commands, from);
        if j < config.post_exit_commands.len() {
            self.stage = Stage::RunningPostExit;
            self.position = j;
            Action::Spawn {
                command: config.post_exit_commands[j].command.clone(),
                capture_output: false,
            }
        } else {
            self.stage = Stage::Done;
            self.position = 0;
            Action::Stop
        }
    }

    fn start_pre_launch(
        &mut self,
        config: &GameConfig,
        raw_command: &String,
        from: usize,
    ) -> (action: Action)
        ensures
            (final(self)@, action@) == enter_pre_launch(
                old(self)@,
                config@,
                raw_command@,
                from as int,
            ),
    {
        let j = find_enabled(&config.pre_launch_commands, from);
        if j < config.pre_launch_commands.len() {
            self.stage = Stage::RunningPreLaunch;
            self.position = j;
            Action::Spawn {
                command: config.pre_launch_commands[j].command.clone(),
                capture_output: false,
            }
        } else {
            self.stage = Stage::RunningMain;
            self.position = 0;
            Action::Spawn {
                command: config.get_launch_command(raw_command),
                capture_output: self.log_output,
            }
        }
    }

    /// Takes in what has happened and says what is to be done next, for the
    /// game's configuration and the command that was handed to the launcher.
    pub fn step(&mut self, config: &GameConfig, raw_command: &String, event: Event) -> (d: Decision)
        ensures
            (final(self)@, d@) == transition(old(self)@, config@, raw_command@, event),
    {
        let failed = match event {
            Event::SpawnFailed => true,
            _ => false,
        };
        let report = if failed {
            Some(self.stage)
        } else {
            None
        };
        match self.stage {
            Stage::Idle => match event {
                Event::EditorClosed { cancelled } => {
                    if cancelled {
                        self.stage = Stage::Cancelled;
                        Decision { report: None, action: Action::Stop }
                    } else {
                        let action = self.start_pre_launch(config, raw_command, 0);
                        Decision { report: None, action }
                    }
                },
                _ => Decision { report: None, action: Action::Wait },
            },
            Stage::RunningPreLaunch => match event {
                Event::EditorClosed { .. } => Decision { report: None, action: Action::Wait },
                _ => {
                    let from = if self.position < config.pre_launch_commands.len() {
                        self.position + 1
                    } else {
                        config.pre_launch_commands.len()
                    };
                    let action = self.start_pre_launch(config, raw_command, from);
                    Decision { report, action }
                },
            },
            Stage::RunningMain => match event {
                Event::EditorClosed { .. } => Decision { report: None, action: Action::Wait },
                _ => {
                    if failed {
                        self.launch_failed = true;
                    }
                    let action = self.start_post_exit(config, 0);
                    Decision { report, action }
                },
            },
            Stage::RunningPostExit => match event {
                Event::EditorClosed { .. } => Decision { report: None, action: Action::Wait },
                _ => {
                    let from = if self.position < config.post_exit_commands.len() {
                        self.position + 1
                    } else {
                        config.post_exit_commands.len()
                    };
                    let action = self.start_post_exit(config, from);
                    Decision { report, action }
                },
            },
            Stage::Done => Decision { report: None, action: Action::Stop },
            Stage::Cancelled => Decision { report: None, action: Action::Stop },
        }
    }
}

/// The state after the events `events`, one after the other, from state `s`.
pub open spec fn state_after(
    s: LauncherModel,
    c: ConfigModel,
    raw: Seq<char>,
    events: Seq<Event>,
) -> LauncherModel
    decreases events.len(),
{
    if events.len() == 0 {
        s
    } else {
        transition(state_after(s, c, raw, events.drop_last()), c, raw, events.last()).0
    }
}

/// The answer to the last of the events `events`, which came one after the
/// other from state `s`.
pub open spec fn last_answer(
    s: LauncherModel,
    c: ConfigModel,
    raw: Seq<char>,
    events: Seq<Event>,
) -> DecisionModel
    recommends
        events.len() > 0,
{
    transition(state_after(s, c, raw, events.drop_last()), c, raw, events.last()).1
}

/// One action for each enabled command at or behind `from`, in order.
pub open spec fn spawns_from(commands: Seq<CommandModel>, from: int) -> Seq<ActionModel>
    decreases commands.len() - from,
{
    if from >= commands.len() {
        Seq::empty()
    } else if commands[from].enabled {
        seq![ActionModel::Spawn { command: commands[from].command, capture_output: false }]
            + spawns_from(commands, from + 1)
    } else {
        spawns_from(commands, from + 1)
    }
}

/// Everything that a launch runs, in order: the enabled pre-launch commands,
/// the game, the enabled post-exit commands.
pub open spec fn launch_plan(c: ConfigModel, raw: Seq<char>, log_output: bool) -> Seq<ActionModel> {
    spawns_from(c.pre_launch, 0) + seq![
        ActionModel::Spawn { command: render(c, raw), capture_output: log_output },
    ] + spawns_from(c.post_exit, 0)
}

/// What is still to be run once the command handed out last has ended.
pub open spec fn still_to_run(s: LauncherModel, c: ConfigModel, raw: Seq<char>) -> Seq<
    ActionModel,
> {
    match s.stage {
        Stage::Idle => launch_plan(c, raw, s.log_output),
        Stage::RunningPreLaunch => spawns_from(c.pre_launch, s.position + 1) + seq![
            ActionModel::Spawn { command: render(c, raw), capture_output: s.log_output },
        ] + spawns_from(c.post_exit, 0),
        Stage::RunningMain => spawns_from(c.post_exit, 0),
        Stage::RunningPostExit => spawns_from(c.post_exit, s.position + 1),
        Stage::Done => Seq::empty(),
        Stage::Cancelled => Seq::empty(),
    }
}

/// Whether the event tells what became of a command.
pub open spec fn is_outcome(e: Event) -> bool {
    e == Event::Exited || e == Event::SpawnFailed
}

/// The enabled commands behind `from` begin with the next enabled one.
proof fn lemma_spawns_from_next(commands: Seq<CommandModel>, from: int)
    requires
        0 <= from,
    ensures
        ({
            let j = next_enabled(commands, from);
            &&& from <= j || j == commands.len()
            &&& j <= commands.len()
            &&& j < commands.len() ==> commands[j].enabled && spawns_from(commands, from) == seq![
                ActionModel::Spawn { command: commands[j].command, capture_output: false },
            ] + spawns_from(commands, j + 1)
            &&& j >= commands.len() ==> spawns_from(commands, from) == Seq::<ActionModel>::empty()
        }),
    decreases commands.len() - from,
{
    if from < commands.len() && !commands[from].enabled {
        lemma_spawns_from_next(commands, from + 1);
    }
}

/// In a running launch, the answer to an outcome is the first of what is
/// still to be run, and the rest is still to be run afterwards; where
/// nothing is left, the launch is done.
proof fn lemma_step_takes_next(s: LauncherModel, c: ConfigModel, raw: Seq<char>, e: Event)
    requires
        s.stage == Stage::RunningPreLaunch || s.stage == Stage::RunningMain || s.stage
            == Stage::RunningPostExit,
        0 <= s.position,
        is_outcome(e),
    ensures
        ({
            let (next, d) = transition(s, c, raw, e);
            let todo = still_to_run(s, c, raw);
            &&& next.log_output == s.log_output
            &&& 0 <= next.position
            &&& todo.len() > 0 ==> d.action == todo[0] && still_to_run(next, c, raw) == todo.skip(1)
                && next.stage != Stage::Idle && next.stage != Stage::Done && next.stage
                != Stage::Cancelled
            &&& todo.len() == 0 ==> d.action == ActionModel::Stop && next.stage == Stage::Done
        }),
{
    let (next, d) = transition(s, c, raw, e);
    let todo = still_to_run(s, c, raw);
    let main = seq![ActionModel::Spawn { command: render(c, raw), capture_output: s.log_output }];
    match s.stage {
        Stage::RunningPreLaunch => {
            lemma_spawns_from_next(c.pre_launch, s.position + 1);
            let j = next_enabled(c.pre_launch, s.position + 1);
            if j < c.pre_launch.len() {
                let first = seq![
                    ActionModel::Spawn { command: c.pre_launch[j].command, capture_output: false },
                ];
                let rest = spawns_from(c.pre_launch, j + 1) + main + spawns_from(c.post_exit, 0);
                assert(todo =~= first + rest);
                assert(todo.skip(1) =~= rest);
            } else {
                assert(todo =~= main + spawns_from(c.post_exit, 0));
                assert(todo.skip(1) =~= spawns_from(c.post_exit, 0));
            }
        },
        Stage::RunningMain => {
            lemma_spawns_from_next(c.post_exit, 0);
            let j = next_enabled(c.post_exit, 0);
            if j < c.post_exit.len() {
                assert(todo.skip(1) =~= spawns_from(c.post_exit, j + 1));
            }
        },
        _ => {
            lemma_spawns_from_next(c.post_exit, s.position + 1);
            let j = next_enabled(c.post_exit, s.position + 1);
            if j < c.post_exit.len() {
                assert(todo.skip(1) =~= spawns_from(c.post_exit, j + 1));
            }
        },
    }
}

/// After the editor has been closed without cancelling and `outcomes` have
/// come in, the launch has handed out the plan up to its entry number
/// `outcomes.len()`, and what is behind that entry is still to be run.
proof fn lemma_launch_progress(
    c: ConfigModel,
    raw: Seq<char>,
    log_output: bool,
    outcomes: Seq<Event>,
)
    requires
        forall|k: int| 0 <= k < outcomes.len() ==> is_outcome(#[trigger] outcomes[k]),
    ensures
        ({
            let events = seq![Event::EditorClosed { cancelled: false }] + outcomes;
            let plan = launch_plan(c, raw, log_output);
            let n = outcomes.len() as int;
            let s = state_after(idle(log_output), c, raw, events);
            &&& s.log_output == log_output
            &&& 0 <= s.position
            &&& n < plan.len() ==> last_answer(idle(log_output), c, raw, events).action == plan[n]
                && still_to_run(s, c, raw) == plan.skip(n + 1) && s.stage != Stage::Idle && s.stage
                != Stage::Done && s.stage != Stage::Cancelled
            &&& n >= plan.len() ==> last_answer(idle(log_output), c, raw, events).action
                == ActionModel::Stop && s.stage == Stage::Done
        }),
    decreases outcomes.len(),
{
    let start = Event::EditorClosed { cancelled: false };
    let events = seq![start] + outcomes;
    let plan = launch_plan(c, raw, log_output);
    let main = seq![ActionModel::Spawn { command: render(c, raw), capture_output: log_output }];
    if outcomes.len() == 0 {
        assert(events.drop_last() =~= Seq::<Event>::empty());
        assert(events.last() == start);
        lemma_spawns_from_next(c.pre_launch, 0);
        let j = next_enabled(c.pre_launch, 0);
        if j < c.pre_launch.len() {
            let first = seq![
                ActionModel::Spawn { command: c.pre_launch[j].command, capture_output: false },
            ];
            let rest = spawns_from(c.pre_launch, j + 1) + main + spawns_from(c.post_exit, 0);
            assert(plan =~= first + rest);
            assert(plan.skip(1) =~= rest);
        } else {
            assert(plan =~= main + spawns_from(c.post_exit, 0));
            assert(plan.skip(1) =~= spawns_from(c.post_exit, 0));
        }
    } else {
        let before = outcomes.drop_last();
        lemma_launch_progress(c, raw, log_output, before);
        assert(events.drop_last() =~= seq![start] + before);
        assert(events.last() == outcomes.last());
        let s = state_after(idle(log_output), c, raw, events.drop_last());
        let n = before.len() as int;
        if n < plan.len() {
            lemma_step_takes_next(s, c, raw, outcomes.last());
            if n + 1 < plan.len() {
                assert(plan.skip(n + 1)[0] == plan[n + 1]);
                assert(plan.skip(n + 1).skip(1) =~= plan.skip(n + 2));
            }
        }
    }
}

/// A launch that is not called off runs its plan, whatever becomes of the
/// commands: the answer to the editor's closing is the first entry of the
/// plan, the answer to each outcome is the next entry, and once the plan is
/// through the answer is to stop and the launch is done.
pub proof fn lemma_launch_follows_plan(
    c: ConfigModel,
    raw: Seq<char>,
    log_output: bool,
    outcomes: Seq<Event>,
)
    requires
        forall|k: int| 0 <= k < outcomes.len() ==> is_outcome(#[trigger] outcomes[k]),
    ensures
        ({
            let events = seq![Event::EditorClosed { cancelled: false }] + outcomes;
            let plan = launch_plan(c, raw, log_output);
            let n = outcomes.len() as int;
            &&& n < plan.len() ==> last_answer(idle(log_output), c, raw, events).action == plan[n]
            &&& n >= plan.len() ==> last_answer(idle(log_output), c, raw, events).action
                == ActionModel::Stop
            &&& n >= plan.len() ==> state_after(idle(log_output), c, raw, events).stage
                == Stage::Done
        }),
{
    lemma_launch_progress(c, raw, log_output, outcomes);
}

/// A command that cannot be started changes nothing in what is run next:
/// the action is the one that follows when the command has exited, and so is
/// the state, but for the note that the game could not be started.
pub proof fn lemma_failure_keeps_course(s: LauncherModel, c: ConfigModel, raw: Seq<char>)
    ensures
        transition(s, c, raw, Event::SpawnFailed).1.action == transition(
            s,
            c,
            raw,
            Event::Exited,
        ).1.action,
        transition(s, c, raw, Event::SpawnFailed).0 == (LauncherModel {
            launch_failed: s.launch_failed || s.stage == Stage::RunningMain,
            ..transition(s, c, raw, Event::Exited).0
        }),
{
}

/// How far a launch has come: each stage counts more than the one before
/// it, and both ways of ending count most.
pub open spec fn progress(stage: Stage) -> int {
    match stage {
        Stage::Idle => 0,
        Stage::RunningPreLaunch => 1,
        Stage::RunningMain => 2,
        Stage::RunningPostExit => 3,
        Stage::Done => 4,
        Stage::Cancelled => 4,
    }
}

/// A launch never goes back: whatever comes in, the stage afterwards is the
/// same or a later one, and a launch that has ended stays as it is.
pub proof fn lemma_launch_never_goes_back(
    s: LauncherModel,
    c: ConfigModel,
    raw: Seq<char>,
    e: Event,
)
    ensures
        progress(s.stage) <= progress(transition(s, c, raw, e).0.stage),
        s.stage == Stage::Done || s.stage == Stage::Cancelled ==> transition(s, c, raw, e).0 == s,
{
}

/// A launch is called off by the editor alone, and only while nothing has
/// been run: no event leads a launch that has begun to run its commands, or
/// is done, to the cancelled stage.
pub proof fn lemma_cancelled_from_idle_only(
    s: LauncherModel,
    c: ConfigModel,
    raw: Seq<char>,
    e: Event,
)
    requires
        transition(s, c, raw, e).0.stage == Stage::Cancelled,
    ensures
        s.stage == Stage::Cancelled || (s.stage == Stage::Idle && e == Event::EditorClosed {
            cancelled: true,
        }),
{
}

/// Once the editor has signalled cancellation nothing is ever run: the
/// launch is cancelled and stays so, and every answer is to stop.
pub proof fn lemma_cancelled_launch_runs_nothing(
    c: ConfigModel,
    raw: Seq<char>,
    log_output: bool,
    later: Seq<Event>,
)
    ensures
        ({
            let events = seq![Event::EditorClosed { cancelled: true }] + later;
            &&& state_after(idle(log_output), c, raw, events).stage == Stage::Cancelled
            &&& last_answer(idle(log_output), c, raw, events) == DecisionModel {
                report: None,
                action: ActionModel::Stop,
            }
        }),
    decreases later.len(),
{
    let cancel = Event::EditorClosed { cancelled: true };
    let events = seq![cancel] + later;
    if later.len() == 0 {
        assert(events.drop_last() =~= Seq::<Event>::empty());
        assert(events.last() == cancel);
    } else {
        lemma_cancelled_launch_runs_nothing(c, raw, log_output, later.drop_last());
        assert(events.drop_last() =~= seq![cancel] + later.drop_last());
        assert(events.last() == later.last());
    }
}

/// Before the editor has been closed nothing is run: to whatever comes
/// while the launcher is idle, but the closing of the editor, the answer is
/// to wait.
pub proof fn lemma_idle_until_editor_closes(
    c: ConfigModel,
    raw: Seq<char>,
    log_output: bool,
    events: Seq<Event>,
)
    requires
        events.len() > 0,
        forall|k: int| 0 <= k < events.len() ==> is_outcome(#[trigger] events[k]),
    ensures
        state_after(idle(log_output), c, raw, events) == idle(log_output),
        last_answer(idle(log_output), c, raw, events) == (DecisionModel {
            report: None,
            action: ActionModel::Wait,
        }),
    decreases events.len(),
{
    if events.len() > 1 {
        lemma_idle_until_editor_closes(c, raw, log_output, events.drop_last());
    } else {
        assert(events.drop_last() =~= Seq::<Event>::empty());
    }
}

} // verus!
