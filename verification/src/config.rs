//! Tool configurations: their defaults, and how a tool's own configuration
//! overrides the global one.
use crate::environment::{Entry, EnvironmentVariable};
use crate::path::file_name_range;
use crate::text::{characters, same_text, slice_text};
use vstd::prelude::*;

verus! {

/// Configuration for a specific tool. Tools are matched by the basename of the
/// first argument of the command. If no tool matches, the global configuration
/// is used.
#[derive(Debug)]
pub struct ToolConfig {
    /// Whether to enable network access.
    pub network: Option<bool>,
    /// Whether to inherit the environment variables of the host.
    pub inherit_env: Option<bool>,
    /// Paths to mount as read-write, each at its own place.
    pub mount: Vec<String>,
    /// Environment variables to set for the tool.
    pub env: Vec<EnvironmentVariable>,
}

/// The configuration: one for all tools, and those of single tools by name.
#[derive(Debug)]
pub struct Config {
    /// Global configuration for all tools.
    pub global: ToolConfig,
    /// Per-tool configuration.
    pub tools: Vec<(String, ToolConfig)>,
}

/// The mathematical content of a [`ToolConfig`].
#[verifier::ext_equal]
pub struct Tool {
    pub network: Option<bool>,
    pub inherit_env: Option<bool>,
    pub mount: Seq<Seq<char>>,
    pub env: Seq<Entry>,
}

/// The mathematical content of a [`Config`].
#[verifier::ext_equal]
pub struct Configuration {
    pub global: Tool,
    pub tools: Seq<(Seq<char>, Tool)>,
}

/// What the entries of a vector mean.
pub open spec fn env_view(env: Seq<EnvironmentVariable>) -> Seq<Entry> {
    env.map_values(|variable: EnvironmentVariable| variable@)
}

/// What the strings of a vector hold.
pub open spec fn texts_view(texts: Seq<String>) -> Seq<Seq<char>> {
    texts.map_values(|text: String| text@)
}

impl View for ToolConfig {
    type V = Tool;

    open spec fn view(&self) -> Tool {
        Tool {
            network: self.network,
            inherit_env: self.inherit_env,
            mount: texts_view(self.mount@),
            env: env_view(self.env@),
        }
    }
}

/// What the named tools of a vector mean.
pub open spec fn tools_view(tools: Seq<(String, ToolConfig)>) -> Seq<(Seq<char>, Tool)> {
    tools.map_values(|named: (String, ToolConfig)| (named.0@, named.1@))
}

impl View for Config {
    type V = Configuration;

    open spec fn view(&self) -> Configuration {
        Configuration { global: self.global@, tools: tools_view(self.tools@) }
    }
}

impl Tool {
    /// A configuration that says nothing.
    pub open spec fn unset() -> Tool {
        Tool { network: None, inherit_env: None, mount: Seq::empty(), env: Seq::empty() }
    }

    /// The configuration with the network and the host's environment enabled
    /// where it does not speak of them.
    pub open spec fn with_defaults(self) -> Tool {
        Tool {
            network: either(self.network, Some(true)),
            inherit_env: either(self.inherit_env, Some(true)),
            ..self
        }
    }

    /// Whether both switches are set.
    pub open spec fn settled(self) -> bool {
        self.network is Some && self.inherit_env is Some
    }

    /// Whether every entry is valid and no key occurs twice.
    pub open spec fn proper_env(self) -> bool {
        &&& forall|i: int| 0 <= i < self.env.len() ==> (#[trigger] self.env[i]).valid()
        &&& distinct_keys(self.env)
    }
}

impl Configuration {
    /// What applies where there is no configuration file.
    pub open spec fn standard() -> Configuration {
        Configuration { global: Tool::unset().with_defaults(), tools: Seq::empty() }
    }

    /// Whether the global configuration decides about network and environment,
    /// all environments are proper, and no tool occurs twice.
    pub open spec fn well_formed(self) -> bool {
        &&& self.global.settled()
        &&& self.global.proper_env()
        &&& forall|i: int| 0 <= i < self.tools.len() ==> (#[trigger] self.tools[i]).1.proper_env()
        &&& distinct_tools(self.tools)
    }
}

/// Whether no tool occurs twice.
pub open spec fn distinct_tools(tools: Seq<(Seq<char>, Tool)>) -> bool {
    forall|i: int, j: int|
        0 <= i < j < tools.len() ==> (#[trigger] tools[i]).0 != (#[trigger] tools[j]).0
}

/// The first of two options that holds a value.
pub open spec fn either(first: Option<bool>, second: Option<bool>) -> Option<bool> {
    if first is Some {
        first
    } else {
        second
    }
}

impl Default for ToolConfig {
    fn default() -> (r: ToolConfig)
        ensures
            r@ == Tool::unset(),
    {
        ToolConfig { network: None, inherit_env: None, mount: Vec::new(), env: Vec::new() }
    }
}

impl Default for Config {
    fn default() -> (r: Config)
        ensures
            r@ == Configuration::standard(),
    {
        Config { global: apply_defaults(ToolConfig::default()), tools: Vec::new() }
    }
}

/// The first of two options that holds a value.
fn choose_option(first: Option<bool>, second: Option<bool>) -> (r: Option<bool>)
    ensures
        r == either(first, second),
{
    match first {
        Some(b) => Some(b),
        None => second,
    }
}

/// Enables the network and the host's environment where they are unspecified.
pub fn apply_defaults(tool: ToolConfig) -> (r: ToolConfig)
    ensures
        r@ == tool@.with_defaults(),
{
    ToolConfig {
        network: choose_option(tool.network, Some(true)),
        inherit_env: choose_option(tool.inherit_env, Some(true)),
        mount: tool.mount,
        env: tool.env,
    }
}

/// The first position at or behind `from` of an entry with the given key, or the
/// number of entries.
pub open spec fn position(env: Seq<Entry>, key: Seq<char>, from: int) -> int
    decreases env.len() - from,
{
    if from >= env.len() {
        env.len() as int
    } else if env[from].key == key {
        from
    } else {
        position(env, key, from + 1)
    }
}

/// The first entry with the given key.
pub open spec fn lookup(env: Seq<Entry>, key: Seq<char>) -> Option<Entry> {
    let i = position(env, key, 0);
    if i < env.len() {
        Some(env[i])
    } else {
        None
    }
}

/// The last entry with the given key.
pub open spec fn latest(env: Seq<Entry>, key: Seq<char>) -> Option<Entry>
    decreases env.len(),
{
    if env.len() == 0 {
        None
    } else if env.last().key == key {
        Some(env.last())
    } else {
        latest(env.drop_last(), key)
    }
}

/// Whether no key occurs twice.
pub open spec fn distinct_keys(env: Seq<Entry>) -> bool {
    forall|i: int, j: int| 0 <= i < j < env.len() ==> (#[trigger] env[i]).key != (#[trigger] env[j]).key
}

/// The entries with `entry` in place of the first one with its key, or at the end.
pub open spec fn upserted(env: Seq<Entry>, entry: Entry) -> Seq<Entry> {
    let i = position(env, entry.key, 0);
    if i < env.len() {
        env.update(i, entry)
    } else {
        env.push(entry)
    }
}

/// The global entries with those of the tool put in one by one.
pub open spec fn merged_env(global: Seq<Entry>, tool: Seq<Entry>) -> Seq<Entry>
    decreases tool.len(),
{
    if tool.len() == 0 {
        global
    } else {
        upserted(merged_env(global, tool.drop_last()), tool.last())
    }
}

/// The configuration of a tool on top of the global one: its switches come
/// first, its mounts are added, its environment entries override.
pub open spec fn merged(global: Tool, tool: Tool) -> Tool {
    Tool {
        network: either(tool.network, global.network),
        inherit_env: either(tool.inherit_env, global.inherit_env),
        mount: global.mount + tool.mount,
        env: merged_env(global.env, tool.env),
    }
}

/// The position of the first variable with the given key, or the number of
/// variables.
pub(crate) fn find_variable(env: &Vec<EnvironmentVariable>, key: &String) -> (i: usize)
    ensures
        i == position(env_view(env@), key@, 0),
        i <= env@.len(),
{
    let mut i: usize = 0;
    while i < env.len() && env[i].key != *key
        invariant
            i <= env@.len(),
            position(env_view(env@), key@, 0) == position(env_view(env@), key@, i as int),
        decreases env@.len() - i,
    {
        i = i + 1;
    }
    i
}

/// Puts the variable in place of the first one with its key, or at the end.
fn upsert(env: &mut Vec<EnvironmentVariable>, variable: EnvironmentVariable)
    ensures
        env_view(final(env)@) == upserted(env_view(old(env)@), variable@),
{
    let i: usize = find_variable(env, &variable.key);
    if i < env.len() {
        env.set(i, variable);
    } else {
        env.push(variable);
    }
}

/// Merges the configuration of a tool into the global one.
pub fn merge_configs(global: ToolConfig, tool: ToolConfig) -> (r: ToolConfig)
    ensures
        r@ == merged(global@, tool@),
{
    let network: Option<bool> = choose_option(tool.network, global.network);
    let inherit_env: Option<bool> = choose_option(tool.inherit_env, global.inherit_env);
    let ghost global_view = global@;
    let ghost tool_view = tool@;
    let mut mount: Vec<String> = global.mount;
    let mut tool_mount: Vec<String> = tool.mount;
    mount.append(&mut tool_mount);
    let mut env: Vec<EnvironmentVariable> = global.env;
    let tool_env: Vec<EnvironmentVariable> = tool.env;
    let ghost entries = env_view(tool_env@);
    for variable in it: tool_env
        invariant
            it.seq() == tool_env@,
            entries == env_view(tool_env@),
            entries == tool_view.env,
            env_view(env@) == merged_env(global_view.env, entries.take(it.index() as int)),
    {
        proof {
            let n = it.index() as int;
            assert(entries.take(n + 1).drop_last() == entries.take(n));
            assert(entries.take(n + 1).last() == variable@);
        }
        upsert(&mut env, variable);
    }
    assert(entries.take(entries.len() as int) == entries);
    ToolConfig { network, inherit_env, mount, env }
}

/// Why the name of the tool cannot be told from the command.
#[derive(Clone, Copy, Debug, PartialEq, Eq, Structural)]
pub enum ToolNameError {
    /// The command is empty.
    NoCommand,
    /// The first argument has no file name.
    InvalidCommand,
}

impl ToolNameError {
    /// The message shown for the error.
    pub open spec fn text(self) -> Seq<char> {
        match self {
            ToolNameError::NoCommand => "No command specified"@,
            ToolNameError::InvalidCommand => "Failed to get tool name from command"@,
        }
    }

    /// The message shown for the error.
    pub fn message(self) -> (r: String)
        ensures
            r@ == self.text(),
    {
        match self {
            ToolNameError::NoCommand => "No command specified".to_owned(),
            ToolNameError::InvalidCommand => "Failed to get tool name from command".to_owned(),
        }
    }
}

/// The name of the tool that a command runs: the file name of its first argument.
pub open spec fn named_tool(command: Seq<Seq<char>>) -> Result<Seq<char>, ToolNameError> {
    if command.len() == 0 {
        Err(ToolNameError::NoCommand)
    } else {
        match crate::path::file_name(command[0]) {
            Some(name) => Ok(name),
            None => Err(ToolNameError::InvalidCommand),
        }
    }
}

/// The name of the tool that `command` runs.
pub fn tool_name(command: &[String]) -> (r: Result<String, ToolNameError>)
    ensures
        match r {
            Ok(name) => named_tool(texts_view(command@)) == Ok::<Seq<char>, ToolNameError>(name@),
            Err(error) => named_tool(texts_view(command@)) == Err::<Seq<char>, ToolNameError>(
                error,
            ),
        },
{
    if command.len() == 0 {
        return Err(ToolNameError::NoCommand);
    }
    let first: &str = command[0].as_str();
    let chars: Vec<char> = characters(first);
    match file_name_range(chars.as_slice()) {
        Some((from, to)) => Ok(slice_text(first, from, to)),
        None => Err(ToolNameError::InvalidCommand),
    }
}

/// The first position at or behind `from` of a tool with the given name, or the
/// number of tools.
pub open spec fn tool_position(tools: Seq<(Seq<char>, Tool)>, name: Seq<char>, from: int) -> int
    decreases tools.len() - from,
{
    if from >= tools.len() {
        tools.len() as int
    } else if tools[from].0 == name {
        from
    } else {
        tool_position(tools, name, from + 1)
    }
}

/// What applies to the tool of the given name: its own configuration merged into
/// the global one, or the global one alone.
pub open spec fn selected(config: Configuration, name: Seq<char>) -> Tool {
    let i = tool_position(config.tools, name, 0);
    if i < config.tools.len() {
        merged(config.global, config.tools[i].1)
    } else {
        config.global
    }
}

/// What applies to the tool called `name`.
pub fn select_tool(config: Config, name: &str) -> (r: ToolConfig)
    ensures
        r@ == selected(config@, name@),
{
    let ghost view = config@;
    let mut tools: Vec<(String, ToolConfig)> = config.tools;
    let global: ToolConfig = config.global;
    let mut i: usize = 0;
    while i < tools.len() && !same_text(tools[i].0.as_str(), name)
        invariant
            i <= tools@.len(),
            tools_view(tools@) == view.tools,
            tool_position(view.tools, name@, 0) == tool_position(view.tools, name@, i as int),
        decreases tools@.len() - i,
    {
        i = i + 1;
    }
    if i < tools.len() {
        let named: (String, ToolConfig) = tools.swap_remove(i);
        merge_configs(global, named.1)
    } else {
        global
    }
}

/// What `position` finds is the first entry with the key.
pub proof fn lemma_position(env: Seq<Entry>, key: Seq<char>, from: int)
    requires
        0 <= from <= env.len(),
    ensures
        from <= position(env, key, from) <= env.len(),
        forall|k: int| from <= k < position(env, key, from) ==> (#[trigger] env[k]).key != key,
        position(env, key, from) < env.len() ==> env[position(env, key, from)].key == key,
    decreases env.len() - from,
{
    if from < env.len() && env[from].key != key {
        lemma_position(env, key, from + 1);
    }
}

proof fn lemma_position_unique(env: Seq<Entry>, key: Seq<char>, from: int, at: int)
    requires
        0 <= from <= at <= env.len(),
        forall|k: int| from <= k < at ==> (#[trigger] env[k]).key != key,
        at == env.len() || env[at].key == key,
    ensures
        position(env, key, from) == at,
    decreases at - from,
{
    if from < at {
        lemma_position_unique(env, key, from + 1, at);
    }
}

proof fn lemma_upserted_lookup(env: Seq<Entry>, entry: Entry, key: Seq<char>)
    ensures
        lookup(upserted(env, entry), key) == if entry.key == key {
            Some(entry)
        } else {
            lookup(env, key)
        },
{
    let after = upserted(env, entry);
    let at = position(env, entry.key, 0);
    lemma_position(env, entry.key, 0);
    lemma_position(env, key, 0);
    if entry.key == key {
        assert forall|k: int| 0 <= k < at implies (#[trigger] after[k]).key != key by {
            assert(after[k] == env[k]);
        }
        lemma_position_unique(after, key, 0, at);
    } else {
        let i = position(env, key, 0);
        let j = if i < env.len() { i } else { after.len() as int };
        assert forall|k: int| 0 <= k < j implies (#[trigger] after[k]).key != key by {
            if k != at && k < env.len() {
                assert(after[k] == env[k]);
            }
        }
        lemma_position_unique(after, key, 0, j);
    }
}

/// A merged environment answers every key as the tool's own entries do, and as
/// the global ones do where the tool has none.
pub proof fn tool_entries_override(global: Seq<Entry>, tool: Seq<Entry>, key: Seq<char>)
    ensures
        lookup(merged_env(global, tool), key) == match latest(tool, key) {
            Some(entry) => Some(entry),
            None => lookup(global, key),
        },
    decreases tool.len(),
{
    if tool.len() > 0 {
        tool_entries_override(global, tool.drop_last(), key);
        lemma_upserted_lookup(merged_env(global, tool.drop_last()), tool.last(), key);
    }
}

/// Merging keeps the keys of the global entries, each at its place.
pub proof fn merging_keeps_global_keys(global: Seq<Entry>, tool: Seq<Entry>)
    ensures
        merged_env(global, tool).len() >= global.len(),
        forall|i: int|
            0 <= i < global.len() ==> (#[trigger] merged_env(global, tool)[i]).key == global[i].key,
    decreases tool.len(),
{
    if tool.len() > 0 {
        let before = merged_env(global, tool.drop_last());
        merging_keeps_global_keys(global, tool.drop_last());
        lemma_position(before, tool.last().key, 0);
        assert forall|i: int| 0 <= i < global.len() implies (#[trigger] merged_env(
            global,
            tool,
        )[i]).key == global[i].key by {
            assert(before[i].key == global[i].key);
        }
    }
}

/// Merging keeps keys distinct and entries valid.
pub proof fn merging_keeps_proper_env(global: Tool, tool: Tool)
    requires
        global.proper_env(),
        tool.proper_env(),
    ensures
        merged(global, tool).proper_env(),
    decreases tool.env.len(),
{
    if tool.env.len() > 0 {
        let rest = Tool { env: tool.env.drop_last(), ..tool };
        assert(rest.proper_env()) by {
            assert forall|i: int| 0 <= i < rest.env.len() implies (#[trigger] rest.env[i]).valid() by {
                assert(rest.env[i] == tool.env[i]);
            }
            assert forall|i: int, j: int| 0 <= i < j < rest.env.len() implies (
            #[trigger] rest.env[i]).key != (#[trigger] rest.env[j]).key by {
                assert(rest.env[i] == tool.env[i] && rest.env[j] == tool.env[j]);
            }
        }
        merging_keeps_proper_env(global, rest);
        let before = merged(global, rest).env;
        let entry = tool.env.last();
        let after = merged(global, tool).env;
        assert(after == upserted(before, entry));
        lemma_position(before, entry.key, 0);
        let at = position(before, entry.key, 0);
        assert(entry.valid()) by {
            assert(tool.env[tool.env.len() - 1].valid());
        }
        assert forall|i: int| 0 <= i < after.len() implies (#[trigger] after[i]).valid() by {
            if i != at {
                assert(after[i] == before[i]);
            }
        }
        assert forall|i: int, j: int| 0 <= i < j < after.len() implies (#[trigger] after[i]).key
            != (#[trigger] after[j]).key by {
            if i < before.len() {
                assert(after[i].key == before[i].key);
            }
            if j < before.len() {
                assert(after[j].key == before[j].key);
            } else {
                assert(before[i].key != entry.key);
            }
        }
    }
}

/// A tool that says nothing runs under the global configuration.
pub proof fn unset_tool_changes_nothing(global: Tool)
    ensures
        merged(global, Tool::unset()) == global,
{
    assert(merged(global, Tool::unset()) =~= global);
}

proof fn lemma_tool_position(tools: Seq<(Seq<char>, Tool)>, name: Seq<char>, from: int)
    requires
        0 <= from <= tools.len(),
    ensures
        from <= tool_position(tools, name, from) <= tools.len(),
        forall|k: int|
            from <= k < tool_position(tools, name, from) ==> (#[trigger] tools[k]).0 != name,
        tool_position(tools, name, from) < tools.len() ==> tools[tool_position(
            tools,
            name,
            from,
        )].0 == name,
    decreases tools.len() - from,
{
    if from < tools.len() && tools[from].0 != name {
        lemma_tool_position(tools, name, from + 1);
    }
}

/// Whatever tool is run, a well-formed configuration decides about its network
/// and its environment, and gives it a proper environment.
pub proof fn selection_is_settled(config: Configuration, name: Seq<char>)
    requires
        config.well_formed(),
    ensures
        selected(config, name).settled(),
        selected(config, name).proper_env(),
{
    let i = tool_position(config.tools, name, 0);
    lemma_tool_position(config.tools, name, 0);
    if i < config.tools.len() {
        assert(config.tools[i].1.proper_env());
        merging_keeps_proper_env(config.global, config.tools[i].1);
    }
}

/// A tool runs under its own configuration, merged into the global one, wherever
/// it stands among the tools.
pub proof fn tools_are_selected_by_name(config: Configuration, i: int)
    requires
        config.well_formed(),
        0 <= i < config.tools.len(),
    ensures
        selected(config, config.tools[i].0) == merged(config.global, config.tools[i].1),
{
    lemma_tool_position(config.tools, config.tools[i].0, 0);
}

/// A tool that the configuration does not name runs under the global one.
pub proof fn other_tools_run_under_the_global_configuration(
    config: Configuration,
    name: Seq<char>,
)
    requires
        forall|i: int| 0 <= i < config.tools.len() ==> (#[trigger] config.tools[i]).0 != name,
    ensures
        selected(config, name) == config.global,
{
    lemma_tool_position(config.tools, name, 0);
}

/// The standard configuration is well-formed, enables the network and inherits
/// the environment.
pub proof fn standard_is_well_formed()
    ensures
        Configuration::standard().well_formed(),
        Configuration::standard().global.network == Some(true),
        Configuration::standard().global.inherit_env == Some(true),
{
}

/// A tool shows all that its fields hold, item by item.
pub proof fn tools_show_what_they_hold(tool: ToolConfig)
    ensures
        tool@.network == tool.network,
        tool@.inherit_env == tool.inherit_env,
        tool@.mount.len() == tool.mount@.len(),
        forall|i: int| 0 <= i < tool.mount@.len() ==> #[trigger] tool@.mount[i] == tool.mount@[i]@,
        tool@.env.len() == tool.env@.len(),
        forall|i: int| 0 <= i < tool.env@.len() ==> #[trigger] tool@.env[i] == tool.env@[i]@,
{
}

/// A configuration shows all that its fields hold, tool by tool.
pub proof fn configurations_show_what_they_hold(config: Config)
    ensures
        config@.global == config.global@,
        config@.tools.len() == config.tools@.len(),
        forall|i: int|
            0 <= i < config.tools@.len() ==> {
                &&& (#[trigger] config@.tools[i]).0 == config.tools@[i].0@
                &&& config@.tools[i].1 == config.tools@[i].1@
            },
{
}

/// Texts are shown one by one.
pub proof fn texts_are_shown_one_by_one(texts: Seq<String>)
    ensures
        texts_view(texts).len() == texts.len(),
        forall|i: int| 0 <= i < texts.len() ==> #[trigger] texts_view(texts)[i] == texts[i]@,
{
}

/// Defaults fill in the switches that are unset, and touch nothing else.
pub proof fn defaults_fill_what_is_unset(tool: Tool)
    ensures
        tool.network is Some ==> tool.with_defaults().network == tool.network,
        tool.network is None ==> tool.with_defaults().network == Some(true),
        tool.inherit_env is Some ==> tool.with_defaults().inherit_env == tool.inherit_env,
        tool.inherit_env is None ==> tool.with_defaults().inherit_env == Some(true),
        tool.with_defaults().mount == tool.mount,
        tool.with_defaults().env == tool.env,
{
}

/// Without a configuration file the network is enabled, the environment is
/// inherited, and nothing is mounted, set or said of single tools.
pub proof fn nothing_else_is_standard()
    ensures
        Tool::unset().network is None,
        Tool::unset().inherit_env is None,
        Tool::unset().mount.len() == 0,
        Tool::unset().env.len() == 0,
        Configuration::standard().global.network == Some(true),
        Configuration::standard().global.inherit_env == Some(true),
        Configuration::standard().global.mount.len() == 0,
        Configuration::standard().global.env.len() == 0,
        Configuration::standard().tools.len() == 0,
{
}

/// What well-formed means: both global switches are set, every entry anywhere has a
/// non-empty key without `=` and holds no NUL, and neither a key of an environment
/// nor the name of a tool occurs twice.
pub proof fn well_formed_configurations_are_settled_and_distinct(config: Configuration)
    requires
        config.well_formed(),
    ensures
        config.global.network is Some,
        config.global.inherit_env is Some,
        forall|i: int|
            0 <= i < config.global.env.len() ==> {
                &&& (#[trigger] config.global.env[i]).key.len() > 0
                &&& !config.global.env[i].key.contains('=')
                &&& !config.global.env[i].key.contains('\0')
                &&& config.global.env[i].value matches Some(value) ==> !value.contains('\0')
            },
        forall|i: int, j: int|
            0 <= i < j < config.global.env.len() ==> (#[trigger] config.global.env[i]).key != (
            #[trigger] config.global.env[j]).key,
        forall|t: int, i: int|
            0 <= t < config.tools.len() && 0 <= i < config.tools[t].1.env.len() ==> {
                &&& (#[trigger] config.tools[t].1.env[i]).key.len() > 0
                &&& !config.tools[t].1.env[i].key.contains('=')
                &&& !config.tools[t].1.env[i].key.contains('\0')
                &&& config.tools[t].1.env[i].value matches Some(value) ==> !value.contains('\0')
            },
        forall|t: int, i: int, j: int|
            0 <= t < config.tools.len() && 0 <= i < j < config.tools[t].1.env.len() ==> (
            #[trigger] config.tools[t].1.env[i]).key != (#[trigger] config.tools[t].1.env[j]).key,
        forall|t: int, u: int|
            0 <= t < u < config.tools.len() ==> (#[trigger] config.tools[t]).0 != (
            #[trigger] config.tools[u]).0,
{
    assert forall|t: int, i: int|
        0 <= t < config.tools.len() && 0 <= i < config.tools[t].1.env.len() implies {
        &&& (#[trigger] config.tools[t].1.env[i]).key.len() > 0
        &&& !config.tools[t].1.env[i].key.contains('=')
        &&& !config.tools[t].1.env[i].key.contains('\0')
        &&& config.tools[t].1.env[i].value matches Some(value) ==> !value.contains('\0')
    } by {
        assert(config.tools[t].1.proper_env());
        assert(config.tools[t].1.env[i].valid());
    }
    assert forall|t: int, i: int, j: int|
        0 <= t < config.tools.len() && 0 <= i < j < config.tools[t].1.env.len() implies (
    #[trigger] config.tools[t].1.env[i]).key != (#[trigger] config.tools[t].1.env[j]).key by {
        assert(config.tools[t].1.proper_env());
    }
    assert forall|i: int| 0 <= i < config.global.env.len() implies {
        &&& (#[trigger] config.global.env[i]).key.len() > 0
        &&& !config.global.env[i].key.contains('=')
        &&& !config.global.env[i].key.contains('\0')
        &&& config.global.env[i].value matches Some(value) ==> !value.contains('\0')
    } by {
        assert(config.global.env[i].valid());
    }
}

/// A switch that a tool sets is the one that applies, whatever the global one says.
/// One that it leaves unset is the global one.
pub proof fn switches_of_a_tool_override(global: Tool, tool: Tool)
    ensures
        tool.network is Some ==> merged(global, tool).network == tool.network,
        tool.network is None ==> merged(global, tool).network == global.network,
        tool.inherit_env is Some ==> merged(global, tool).inherit_env == tool.inherit_env,
        tool.inherit_env is None ==> merged(global, tool).inherit_env == global.inherit_env,
{
}

/// The mounts of a tool are added behind the global ones, and none is lost.
pub proof fn mounts_of_a_tool_are_added(global: Tool, tool: Tool)
    ensures
        merged(global, tool).mount.len() == global.mount.len() + tool.mount.len(),
        forall|i: int|
            0 <= i < global.mount.len() ==> #[trigger] merged(global, tool).mount[i]
                == global.mount[i],
        forall|i: int|
            0 <= i < tool.mount.len() ==> merged(global, tool).mount[global.mount.len() + i]
                == #[trigger] tool.mount[i],
{
}

/// Merging tools merges their environments.
pub proof fn environments_of_tools_are_merged(global: Tool, tool: Tool)
    ensures
        merged(global, tool).env == merged_env(global.env, tool.env),
{
}

/// A global entry whose key the tool does not have stays as it is, at its place.
pub proof fn other_global_entries_stay(global: Seq<Entry>, tool: Seq<Entry>, i: int)
    requires
        0 <= i < global.len(),
        forall|j: int| 0 <= j < tool.len() ==> (#[trigger] tool[j]).key != global[i].key,
    ensures
        merged_env(global, tool).len() >= global.len(),
        merged_env(global, tool)[i] == global[i],
    decreases tool.len(),
{
    if tool.len() > 0 {
        let rest = tool.drop_last();
        assert forall|j: int| 0 <= j < rest.len() implies (#[trigger] rest[j]).key
            != global[i].key by {
            assert(rest[j] == tool[j]);
        }
        other_global_entries_stay(global, rest, i);
        assert(tool[tool.len() - 1].key != global[i].key);
        lemma_position(merged_env(global, rest), tool.last().key, 0);
    }
}

/// The last entry that a tool has for a key is in the merged environment, at the
/// place of the first global entry with that key where there is one.
pub proof fn last_entry_of_a_tool_applies(global: Seq<Entry>, tool: Seq<Entry>, j: int)
    requires
        0 <= j < tool.len(),
        forall|k: int| j < k < tool.len() ==> (#[trigger] tool[k]).key != tool[j].key,
    ensures
        merged_env(global, tool).contains(tool[j]),
        forall|i: int|
            #![trigger global[i]]
            0 <= i < global.len() && global[i].key == tool[j].key && (forall|k: int|
                0 <= k < i ==> (#[trigger] global[k]).key != tool[j].key) ==> merged_env(
                global,
                tool,
            )[i] == tool[j],
    decreases tool.len(),
{
    let rest = tool.drop_last();
    let before = merged_env(global, rest);
    let entry = tool.last();
    let after = merged_env(global, tool);
    let at = position(before, entry.key, 0);
    lemma_position(before, entry.key, 0);
    merging_keeps_global_keys(global, rest);
    if j == tool.len() - 1 {
        if at < before.len() {
            assert(after[at] == entry);
        } else {
            assert(after[after.len() - 1] == entry);
        }
        assert forall|i: int|
            #![trigger global[i]]
            0 <= i < global.len() && global[i].key == tool[j].key && (forall|k: int|
                0 <= k < i ==> (#[trigger] global[k]).key != tool[j].key) implies after[i]
            == tool[j] by {
            assert(before[i].key == global[i].key);
            assert forall|k: int| 0 <= k < i implies (#[trigger] before[k]).key != entry.key by {
                assert(before[k].key == global[k].key);
            }
            lemma_position_unique(before, entry.key, 0, i);
        }
    } else {
        assert forall|k: int| j < k < rest.len() implies (#[trigger] rest[k]).key
            != rest[j].key by {
            assert(rest[k] == tool[k]);
        }
        last_entry_of_a_tool_applies(global, rest, j);
        assert(tool[tool.len() - 1].key != tool[j].key);
        let p = before.index_of(tool[j]);
        assert(before[p] == tool[j]);
        assert(after[p] == tool[j]);
        assert forall|i: int|
            #![trigger global[i]]
            0 <= i < global.len() && global[i].key == tool[j].key && (forall|k: int|
                0 <= k < i ==> (#[trigger] global[k]).key != tool[j].key) implies after[i]
            == tool[j] by {
            assert(before[i] == tool[j]);
        }
    }
}

/// Every entry of a merged environment is a global one or one of the tool.
pub proof fn merged_entries_come_from_somewhere(global: Seq<Entry>, tool: Seq<Entry>, i: int)
    requires
        0 <= i < merged_env(global, tool).len(),
    ensures
        global.contains(merged_env(global, tool)[i]) || tool.contains(merged_env(global, tool)[i]),
    decreases tool.len(),
{
    let after = merged_env(global, tool);
    if tool.len() == 0 {
        assert(global[i] == after[i]);
    } else {
        let rest = tool.drop_last();
        let before = merged_env(global, rest);
        lemma_position(before, tool.last().key, 0);
        assert(tool[tool.len() - 1] == tool.last());
        if i < before.len() && after[i] == before[i] {
            merged_entries_come_from_somewhere(global, rest, i);
            if rest.contains(before[i]) {
                let k = rest.index_of(before[i]);
                assert(tool[k] == before[i]);
            }
        }
    }
}

/// Whether an entry with the key occurs.
pub open spec fn has_key(env: Seq<Entry>, key: Seq<char>) -> bool {
    exists|i: int| 0 <= i < env.len() && (#[trigger] env[i]).key == key
}

proof fn lemma_merged_keys(global: Seq<Entry>, tool: Seq<Entry>, key: Seq<char>)
    ensures
        has_key(merged_env(global, tool), key) <==> has_key(global, key) || has_key(tool, key),
    decreases tool.len(),
{
    if tool.len() > 0 {
        let rest = tool.drop_last();
        let before = merged_env(global, rest);
        let after = merged_env(global, tool);
        let entry = tool.last();
        let at = position(before, entry.key, 0);
        lemma_merged_keys(global, rest, key);
        lemma_position(before, entry.key, 0);
        if has_key(before, key) {
            let i = choose|i: int| 0 <= i < before.len() && (#[trigger] before[i]).key == key;
            assert(after[i].key == key);
        }
        if has_key(rest, key) {
            let i = choose|i: int| 0 <= i < rest.len() && (#[trigger] rest[i]).key == key;
            assert(tool[i].key == key);
        }
        if entry.key == key {
            assert(tool[tool.len() - 1].key == key);
            assert(after[at] == entry);
        }
        if has_key(after, key) && entry.key != key {
            let i = choose|i: int| 0 <= i < after.len() && (#[trigger] after[i]).key == key;
            assert(before[i].key == key);
        }
        if has_key(tool, key) && entry.key != key {
            let i = choose|i: int| 0 <= i < tool.len() && (#[trigger] tool[i]).key == key;
            assert(rest[i].key == key);
        }
    }
}

/// Entries of a tool for keys that are new stand behind the global ones, each once,
/// in the order of the tool.
pub proof fn new_entries_come_last_in_order(global: Seq<Entry>, tool: Seq<Entry>)
    requires
        forall|i: int, j: int|
            0 <= i < j < tool.len() ==> (#[trigger] tool[i]).key != (#[trigger] tool[j]).key,
    ensures
        merged_env(global, tool).len() >= global.len(),
        merged_env(global, tool).skip(global.len() as int) == tool.filter(
            |entry: Entry|
                forall|i: int| 0 <= i < global.len() ==> (#[trigger] global[i]).key != entry.key,
        ),
    decreases tool.len(),
{
    let new = |entry: Entry|
        forall|i: int| 0 <= i < global.len() ==> (#[trigger] global[i]).key != entry.key;
    reveal(Seq::filter);
    let after = merged_env(global, tool);
    let n = global.len() as int;
    if tool.len() == 0 {
        assert(after.skip(n) =~= tool.filter(new));
    } else {
        let rest = tool.drop_last();
        let before = merged_env(global, rest);
        let entry = tool.last();
        let at = position(before, entry.key, 0);
        assert forall|i: int, j: int| 0 <= i < j < rest.len() implies (#[trigger] rest[i]).key != (
        #[trigger] rest[j]).key by {
            assert(rest[i] == tool[i] && rest[j] == tool[j]);
        }
        new_entries_come_last_in_order(global, rest);
        merging_keeps_global_keys(global, rest);
        lemma_position(before, entry.key, 0);
        lemma_merged_keys(global, rest, entry.key);
        assert(!has_key(rest, entry.key)) by {
            if has_key(rest, entry.key) {
                let i = choose|i: int| 0 <= i < rest.len() && (#[trigger] rest[i]).key == entry.key;
                assert(tool[i].key != tool[tool.len() - 1].key);
            }
        }
        if new(entry) {
            assert(!has_key(global, entry.key));
            assert(at == before.len()) by {
                if at < before.len() {
                    assert(has_key(before, entry.key));
                }
            }
            assert(after.skip(n) =~= before.skip(n).push(entry));
        } else {
            let i = choose|i: int| 0 <= i < global.len() && (#[trigger] global[i]).key == entry.key;
            assert(before[i].key == entry.key);
            assert(at <= i);
            assert(after.skip(n) =~= before.skip(n));
        }
    }
}

/// The first tool of a name is the one that is selected, merged into the global
/// configuration. Where no tool has the name, the global one applies as it is.
pub proof fn first_tool_of_a_name_is_selected(config: Configuration, name: Seq<char>, i: int)
    requires
        0 <= i <= config.tools.len(),
        forall|k: int| 0 <= k < i ==> (#[trigger] config.tools[k]).0 != name,
        i < config.tools.len() ==> config.tools[i].0 == name,
    ensures
        i < config.tools.len() ==> selected(config, name) == merged(
            config.global,
            config.tools[i].1,
        ),
        i == config.tools.len() ==> selected(config, name) == config.global,
{
    lemma_tool_position(config.tools, name, 0);
    let at = tool_position(config.tools, name, 0);
    if at < i {
        assert(config.tools[at].0 == name);
    }
}

/// A command is named by what stands behind the last slash of its first word,
/// however many words follow.
pub proof fn commands_are_named_by_their_basename(
    directory: Seq<char>,
    name: Seq<char>,
    rest: Seq<Seq<char>>,
)
    requires
        directory.len() == 0 || directory.last() == '/',
        name.len() > 0,
        !name.contains('/'),
        name != seq!['.'],
        name != seq!['.', '.'],
    ensures
        named_tool(seq![directory + name] + rest) == Ok::<Seq<char>, ToolNameError>(name),
{
    let command = seq![directory + name] + rest;
    assert(command[0] == directory + name);
    crate::path::names_stand_behind_the_last_slash(directory, name);
}

/// Only the empty command is none. Any other has the file name of its first word,
/// or is invalid where that has none.
pub proof fn only_the_empty_command_is_none(command: Seq<Seq<char>>)
    ensures
        command.len() == 0 <==> named_tool(command) == Err::<Seq<char>, ToolNameError>(
            ToolNameError::NoCommand,
        ),
        command.len() > 0 ==> match crate::path::file_name(command[0]) {
            Some(name) => named_tool(command) == Ok::<Seq<char>, ToolNameError>(name),
            None => named_tool(command) == Err::<Seq<char>, ToolNameError>(
                ToolNameError::InvalidCommand,
            ),
        },
{
}

/// The messages for commands without a tool.
pub proof fn messages_for_unnamed_tools()
    ensures
        ToolNameError::NoCommand.text() == "No command specified"@,
        ToolNameError::InvalidCommand.text() == "Failed to get tool name from command"@,
{
}

} // verus!
