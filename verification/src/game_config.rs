//! The configuration of a launch: placeholder options, auxiliary commands,
//! and the launch-command template they apply to.
//!
//! One configuration is shared by all games; every game has one of its own,
//! which takes over from the shared one whatever the user has not edited.

use vstd::prelude::*;
use vstd::string::StringExecFns;

use crate::merging::adopt;
use crate::merging::adopt_all;
use crate::merging::adoptable;
use crate::merging::lemma_first_adoptable_is;
use crate::merging::merge;
use crate::rendering::apply_options;
use crate::rendering::render;
use crate::text::replace;

verus! {

/// One substitution rule.
#[derive(Debug)]
pub struct ConfigOption {
    /// The token looked for in the launch-command template.
    pub placeholder: String,
    /// The text put in its place while the option is enabled.
    pub replace_with: String,
    /// A disabled option removes its token and puts nothing in its place.
    pub enabled: bool,
    /// Set once the user has edited the option; a merge then leaves it alone.
    pub modified: bool,
}

/// One shell command run before the launch or after the game has exited.
#[derive(Debug)]
pub struct ConfigCommand {
    /// The command line, handed to the shell as it is.
    pub command: String,
    pub enabled: bool,
    /// Set once the user has edited the command.
    pub modified: bool,
}

/// All settings of one game, or the ones shared by all games.
#[derive(Debug)]
pub struct GameConfig {
    /// Names the game; empty in the shared configuration.
    pub appid: String,
    /// The launch-command template.
    pub placeholder_launch_command: String,
    /// Set once the user has edited the template.
    pub launch_command_modified: bool,
    /// The options, in the order in which they are applied.
    pub placeholder_map: Vec<ConfigOption>,
    pub pre_launch_commands: Vec<ConfigCommand>,
    pub post_exit_commands: Vec<ConfigCommand>,
}

/// What a [`ConfigOption`] stands for.
pub struct OptionModel {
    pub token: Seq<char>,
    pub replacement: Seq<char>,
    pub enabled: bool,
    pub modified: bool,
}

/// What a [`ConfigCommand`] stands for.
pub struct CommandModel {
    pub command: Seq<char>,
    pub enabled: bool,
    pub modified: bool,
}

/// What a [`GameConfig`] stands for.
pub struct ConfigModel {
    pub subject: Seq<char>,
    pub launch_template: Seq<char>,
    pub template_modified: bool,
    pub options: Seq<OptionModel>,
    pub pre_launch: Seq<CommandModel>,
    pub post_exit: Seq<CommandModel>,
}

impl View for ConfigOption {
    type V = OptionModel;

    open spec fn view(&self) -> OptionModel {
        OptionModel {
            token: self.placeholder@,
            replacement: self.replace_with@,
            enabled: self.enabled,
            modified: self.modified,
        }
    }
}

impl View for ConfigCommand {
    type V = CommandModel;

    open spec fn view(&self) -> CommandModel {
        CommandModel { command: self.command@, enabled: self.enabled, modified: self.modified }
    }
}

/// The models of a list of options, in the same order.
pub open spec fn options_view(options: Seq<ConfigOption>) -> Seq<OptionModel> {
    Seq::new(options.len(), |i: int| options[i]@)
}

/// The models of a list of commands, in the same order.
pub open spec fn commands_view(commands: Seq<ConfigCommand>) -> Seq<CommandModel> {
    Seq::new(commands.len(), |i: int| commands[i]@)
}

impl View for GameConfig {
    type V = ConfigModel;

    open spec fn view(&self) -> ConfigModel {
        ConfigModel {
            subject: self.appid@,
            launch_template: self.placeholder_launch_command@,
            template_modified: self.launch_command_modified,
            options: options_view(self.placeholder_map@),
            pre_launch: commands_view(self.pre_launch_commands@),
            post_exit: commands_view(self.post_exit_commands@),
        }
    }
}

/// The entry that an edit leaves in the place of `stored`: what the editor
/// handed over, marked as edited where the editor marked it, where `stored`
/// was marked, or where its text is not that of `stored`.
pub open spec fn edited_option(stored: OptionModel, edit: OptionModel) -> OptionModel {
    OptionModel {
        modified: stored.modified || edit.modified || edit.token != stored.token
            || edit.replacement != stored.replacement,
        ..edit
    }
}

/// The command that an edit leaves in the place of `stored`, marked as
/// edited where the editor marked it, where `stored` was marked, or where its
/// text is not that of `stored`.
pub open spec fn edited_command(stored: CommandModel, edit: CommandModel) -> CommandModel {
    CommandModel {
        modified: stored.modified || edit.modified || edit.command != stored.command,
        ..edit
    }
}

/// The pre-launch commands of `c`, or its post-exit commands.
pub open spec fn commands_of(c: ConfigModel, pre_launch: bool) -> Seq<CommandModel> {
    if pre_launch {
        c.pre_launch
    } else {
        c.post_exit
    }
}

/// `c` with `commands` as its pre-launch commands, or as its post-exit
/// commands.
pub open spec fn with_commands(
    c: ConfigModel,
    pre_launch: bool,
    commands: Seq<CommandModel>,
) -> ConfigModel {
    if pre_launch {
        ConfigModel { pre_launch: commands, ..c }
    } else {
        ConfigModel { post_exit: commands, ..c }
    }
}

/// An option with nothing in it.
pub open spec fn empty_option() -> OptionModel {
    OptionModel { token: Seq::empty(), replacement: Seq::empty(), enabled: false, modified: false }
}

/// A command with nothing in it.
pub open spec fn empty_command() -> CommandModel {
    CommandModel { command: Seq::empty(), enabled: false, modified: false }
}

/// A configuration with nothing in it.
pub open spec fn empty_config() -> ConfigModel {
    ConfigModel {
        subject: Seq::empty(),
        launch_template: Seq::empty(),
        template_modified: false,
        options: Seq::empty(),
        pre_launch: Seq::empty(),
        post_exit: Seq::empty(),
    }
}

/// The shared configuration of a first run: three options for overlay and
/// capture tools, all disabled, in front of the command.
pub open spec fn default_global() -> ConfigModel {
    ConfigModel {
        subject: Seq::empty(),
        launch_template: "%mh% %ov% %og% %command%"@,
        template_modified: false,
        options: seq![
            OptionModel {
                token: "%mh%"@,
                replacement: "mangohud "@,
                enabled: false,
                modified: false,
            },
            OptionModel {
                token: "%ov%"@,
                replacement: "obs-vkcapture "@,
                enabled: false,
                modified: false,
            },
            OptionModel {
                token: "%og%"@,
                replacement: "obs-glcapture "@,
                enabled: false,
                modified: false,
            },
        ],
        pre_launch: Seq::empty(),
        post_exit: Seq::empty(),
    }
}

impl Default for ConfigOption {
    fn default() -> (o: Self)
        ensures
            o@ == empty_option(),
    {
        ConfigOption {
            placeholder: String::new(),
            replace_with: String::new(),
            enabled: false,
            modified: false,
        }
    }
}

impl Default for ConfigCommand {
    fn default() -> (c: Self)
        ensures
            c@ == empty_command(),
    {
        ConfigCommand { command: String::new(), enabled: false, modified: false }
    }
}

impl Default for GameConfig {
    fn default() -> (c: Self)
        ensures
            c@ == empty_config(),
    {
        let c = GameConfig {
            appid: String::new(),
            placeholder_launch_command: String::new(),
            launch_command_modified: false,
            placeholder_map: Vec::new(),
            pre_launch_commands: Vec::new(),
            post_exit_commands: Vec::new(),
        };
        assert(c@.options =~= Seq::<OptionModel>::empty());
        assert(c@.pre_launch =~= Seq::<CommandModel>::empty());
        assert(c@.post_exit =~= Seq::<CommandModel>::empty());
        c
    }
}

/// The shared configuration that a first run starts with.
pub fn default_global_config() -> (c: GameConfig)
    ensures
        c@ == default_global(),
{
    let mut options: Vec<ConfigOption> = Vec::new();
    options.push(
        ConfigOption::new(&String::from_str("%mh%"), &String::from_str("mangohud "), false, false),
    );
    options.push(
        ConfigOption::new(
            &String::from_str("%ov%"),
            &String::from_str("obs-vkcapture "),
            false,
            false,
        ),
    );
    options.push(
        ConfigOption::new(
            &String::from_str("%og%"),
            &String::from_str("obs-glcapture "),
            false,
            false,
        ),
    );
    let c = GameConfig {
        appid: String::new(),
        placeholder_launch_command: String::from_str("%mh% %ov% %og% %command%"),
        launch_command_modified: false,
        placeholder_map: options,
        pre_launch_commands: Vec::new(),
        post_exit_commands: Vec::new(),
    };
    assert(c@.options =~= default_global().options);
    assert(c@.pre_launch =~= Seq::<CommandModel>::empty());
    assert(c@.post_exit =~= Seq::<CommandModel>::empty());
    c
}

/// The configuration that a game starts with when it has none of its own:
/// the shared one under the game's name.
pub fn create_new_game_config(global_config: &GameConfig, appid: &String) -> (c: GameConfig)
    ensures
        c@ == (ConfigModel { subject: appid@, ..global_config@ }),
{
    let mut c = global_config.clone();
    c.appid = appid.clone();
    c
}

impl ConfigOption {
    pub fn new(placeholder: &String, replace_with: &String, enabled: bool, modified: bool) -> (o:
        Self)
        ensures
            o@ == (OptionModel {
                token: placeholder@,
                replacement: replace_with@,
                enabled,
                modified,
            }),
    {
        Self {
            placeholder: placeholder.clone(),
            replace_with: replace_with.clone(),
            enabled,
            modified,
        }
    }
}

impl Clone for ConfigOption {
    fn clone(&self) -> (o: Self)
        ensures
            o == *self,
    {
        ConfigOption {
            placeholder: self.placeholder.clone(),
            replace_with: self.replace_with.clone(),
            enabled: self.enabled,
            modified: self.modified,
        }
    }
}

impl Clone for ConfigCommand {
    fn clone(&self) -> (c: Self)
        ensures
            c == *self,
    {
        ConfigCommand {
            command: self.command.clone(),
            enabled: self.enabled,
            modified: self.modified,
        }
    }
}

impl Clone for GameConfig {
    fn clone(&self) -> (c: Self)
        ensures
            c@ == self@,
    {
        let c = GameConfig {
            appid: self.appid.clone(),
            placeholder_launch_command: self.placeholder_launch_command.clone(),
            launch_command_modified: self.launch_command_modified,
            placeholder_map: self.placeholder_map.clone(),
            pre_launch_commands: self.pre_launch_commands.clone(),
            post_exit_commands: self.post_exit_commands.clone(),
        };
        assert(options_view(c.placeholder_map@) =~= options_view(self.placeholder_map@));
        assert(commands_view(c.pre_launch_commands@) =~= commands_view(self.pre_launch_commands@));
        assert(commands_view(c.post_exit_commands@) =~= commands_view(self.post_exit_commands@));
        c
    }
}

impl GameConfig {
    /// The command line that launches the game with this configuration, for
    /// the command that was handed to the launcher.
    pub fn get_launch_command(&self, command: &String) -> (line: String)
        ensures
            line@ == render(self@, command@),
    {
        let mut launch_command = self.placeholder_launch_command.clone();
        let mut i: usize = 0;
        assert(options_view(self.placeholder_map@).take(0) =~= Seq::<OptionModel>::empty());
        while i < self.placeholder_map.len()
            invariant
                i <= self.placeholder_map.len(),
                launch_command@ == apply_options(
                    self.placeholder_launch_command@,
                    options_view(self.placeholder_map@).take(i as int),
                ),
            decreases self.placeholder_map.len() - i,
        {
            let item = &self.placeholder_map[i];
            proof {
                reveal_strlit("");
                let done = options_view(self.placeholder_map@).take(i as int);
                let next = options_view(self.placeholder_map@).take(i + 1);
                assert(next.drop_last() =~= done);
                assert(next.last() == item@);
                assert(""@ =~= Seq::<char>::empty());
            }
            if item.enabled {
                launch_command = replace(
                    launch_command.as_str(),
                    item.placeholder.as_str(),
                    item.replace_with.as_str(),
                );
            } else {
                launch_command = replace(launch_command.as_str(), item.placeholder.as_str(), "");
            }
            i += 1;
        }
        assert(options_view(self.placeholder_map@).take(i as int) =~= options_view(
            self.placeholder_map@,
        ));
        replace(launch_command.as_str(), "%command%", command.as_str())
    }

    /// Merges the shared configuration into this one. What the user has
    /// edited here is kept; every shared option ends up in the list.
    pub fn merge_with(&mut self, config: &GameConfig)
        ensures
            final(self)@ == merge(old(self)@, config@),
    {
        let mut k: usize = 0;
        assert(options_view(config.placeholder_map@).take(0) =~= Seq::<OptionModel>::empty());
        while k < config.placeholder_map.len()
            invariant
                k <= config.placeholder_map.len(),
                self.appid == old(self).appid,
                self.placeholder_launch_command == old(self).placeholder_launch_command,
                self.launch_command_modified == old(self).launch_command_modified,
                self.pre_launch_commands == old(self).pre_launch_commands,
                self.post_exit_commands == old(self).post_exit_commands,
                options_view(self.placeholder_map@) == adopt_all(
                    options_view(old(self).placeholder_map@),
                    options_view(config.placeholder_map@).take(k as int),
                ),
            decreases config.placeholder_map.len() - k,
        {
            let config_opt = &config.placeholder_map[k];
            let ghost before = options_view(self.placeholder_map@);
            let mut j: usize = 0;
            while j < self.placeholder_map.len() && !(!self.placeholder_map[j].modified
                && self.placeholder_map[j].placeholder == config_opt.placeholder)
                invariant
                    j <= self.placeholder_map.len(),
                    before == options_view(self.placeholder_map@),
                    forall|t: int|
                        0 <= t < j ==> !adoptable(#[trigger] before[t], config_opt@.token),
                decreases self.placeholder_map.len() - j,
            {
                j += 1;
            }
            proof {
                lemma_first_adoptable_is(before, config_opt@.token, j as int);
                let done = options_view(config.placeholder_map@).take(k as int);
                let next = options_view(config.placeholder_map@).take(k + 1);
                assert(next.drop_last() =~= done);
                assert(next.last() == config_opt@);
            }
            if j < self.placeholder_map.len() {
                let adopted = ConfigOption {
                    placeholder: config_opt.placeholder.clone(),
                    replace_with: config_opt.replace_with.clone(),
                    enabled: self.placeholder_map[j].enabled,
                    modified: self.placeholder_map[j].modified,
                };
                self.placeholder_map.set(j, adopted);
            } else {
                self.placeholder_map.push(config_opt.clone());
            }
            assert(options_view(self.placeholder_map@) =~= adopt(before, config_opt@));
            k += 1;
        }
        assert(options_view(config.placeholder_map@).take(k as int) =~= options_view(
            config.placeholder_map@,
        ));
        if !self.launch_command_modified {
            self.placeholder_launch_command = config.placeholder_launch_command.clone();
        }
    }
    /// Puts what the editor holds of the option at `index` in its place. An
    /// option whose text has changed is marked as edited.
    pub fn sync_option(&mut self, index: usize, option: ConfigOption)
        requires
            index < old(self).placeholder_map.len(),
        ensures
            final(self)@ == (ConfigModel {
                options: old(self)@.options.update(
                    index as int,
                    edited_option(old(self)@.options[index as int], option@),
                ),
                ..old(self)@
            }),
    {
        let entry = &self.placeholder_map[index];
        let modified = entry.modified || option.modified || option.placeholder != entry.placeholder
            || option.replace_with != entry.replace_with;
        let edited = ConfigOption {
            placeholder: option.placeholder,
            replace_with: option.replace_with,
            enabled: option.enabled,
            modified,
        };
        self.placeholder_map.set(index, edited);
        assert(self@.options =~= old(self)@.options.update(
            index as int,
            edited_option(old(self)@.options[index as int], option@),
        ));
    }

    /// Puts what the editor holds of the command at `index` in its place, in
    /// the pre-launch or the post-exit list. A command whose text has changed
    /// is marked as edited.
    pub fn sync_command(&mut self, index: usize, command: ConfigCommand, is_pre_launch: bool)
        requires
            index < commands_of(old(self)@, is_pre_launch).len(),
        ensures
            final(self)@ == with_commands(
                old(self)@,
                is_pre_launch,
                commands_of(old(self)@, is_pre_launch).update(
                    index as int,
                    edited_command(commands_of(old(self)@, is_pre_launch)[index as int], command@),
                ),
            ),
    {
        if is_pre_launch {
            let entry = &self.pre_launch_commands[index];
            let modified = entry.modified || command.modified || command.command != entry.command;
            let edited = ConfigCommand {
                command: command.command,
                enabled: command.enabled,
                modified,
            };
            self.pre_launch_commands.set(index, edited);
            assert(self@.pre_launch =~= old(self)@.pre_launch.update(
                index as int,
                edited_command(old(self)@.pre_launch[index as int], command@),
            ));
        } else {
            let entry = &self.post_exit_commands[index];
            let modified = entry.modified || command.modified || command.command != entry.command;
            let edited = ConfigCommand {
                command: command.command,
                enabled: command.enabled,
                modified,
            };
            self.post_exit_commands.set(index, edited);
            assert(self@.post_exit =~= old(self)@.post_exit.update(
                index as int,
                edited_command(old(self)@.post_exit[index as int], command@),
            ));
        }
    }

    /// Takes the template from the editor and marks it as edited.
    pub fn sync_placeholder_string(&mut self, text: String)
        ensures
            final(self)@ == (ConfigModel {
                launch_template: text@,
                template_modified: true,
                ..old(self)@
            }),
    {
        self.placeholder_launch_command = text;
        self.launch_command_modified = true;
    }

    /// Appends an empty option.
    pub fn add_option(&mut self)
        ensures
            final(self)@ == (ConfigModel {
                options: old(self)@.options.push(empty_option()),
                ..old(self)@
            }),
    {
        self.placeholder_map.push(ConfigOption::default());
        assert(self@.options =~= old(self)@.options.push(empty_option()));
    }

    /// Appends an empty command to the pre-launch or the post-exit list.
    pub fn add_command(&mut self, is_pre_launch: bool)
        ensures
            final(self)@ == with_commands(
                old(self)@,
                is_pre_launch,
                commands_of(old(self)@, is_pre_launch).push(empty_command()),
            ),
    {
        if is_pre_launch {
            self.pre_launch_commands.push(ConfigCommand::default());
            assert(self@.pre_launch =~= old(self)@.pre_launch.push(empty_command()));
        } else {
            self.post_exit_commands.push(ConfigCommand::default());
            assert(self@.post_exit =~= old(self)@.post_exit.push(empty_command()));
        }
    }

    /// Takes the option at `index` out of the list.
    pub fn remove_option(&mut self, index: usize)
        requires
            index < old(self).placeholder_map.len(),
        ensures
            final(self)@ == (ConfigModel {
                options: old(self)@.options.remove(index as int),
                ..old(self)@
            }),
    {
        self.placeholder_map.remove(index);
        assert(self@.options =~= old(self)@.options.remove(index as int));
    }

    /// Takes the command at `index` out of the pre-launch or the post-exit
    /// list.
    pub fn remove_command(&mut self, index: usize, is_pre_launch: bool)
        requires
            index < commands_of(old(self)@, is_pre_launch).len(),
        ensures
            final(self)@ == with_commands(
                old(self)@,
                is_pre_launch,
                commands_of(old(self)@, is_pre_launch).remove(index as int),
            ),
    {
        if is_pre_launch {
            self.pre_launch_commands.remove(index);
            assert(self@.pre_launch =~= old(self)@.pre_launch.remove(index as int));
        } else {
            self.post_exit_commands.remove(index);
            assert(self@.post_exit =~= old(self)@.post_exit.remove(index as int));
        }
    }
}

} // verus!
