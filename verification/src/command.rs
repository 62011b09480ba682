//! The arguments and the environment that the sandbox is started with.
use crate::config::{Tool, ToolConfig};
use crate::environment::{Entry, EnvironmentVariable, EnvironmentVariableValue};
use crate::mount::{has_byte, MountState, Mounting, Observation};
use vstd::prelude::*;

verus! {

/// What becomes of an environment variable in the sandbox.
#[derive(Debug)]
pub struct Assignment {
    pub key: String,
    /// The value that the variable is set to. Without one, it is unset.
    pub value: Option<Vec<u8>>,
}

/// The mathematical content of an [`Assignment`].
pub struct Binding {
    pub key: Seq<char>,
    pub value: Option<Seq<u8>>,
}

impl View for Assignment {
    type V = Binding;

    open spec fn view(&self) -> Binding {
        Binding { key: self.key@, value: bytes_option(self.value) }
    }
}

/// What optional bytes hold.
pub open spec fn bytes_option(bytes: Option<Vec<u8>>) -> Option<Seq<u8>> {
    match bytes {
        Some(bytes) => Some(bytes@),
        None => None,
    }
}

/// What an entry of the configuration becomes, given the value of its variable in
/// the host environment.
pub open spec fn assigned(entry: Entry, host: Option<Seq<u8>>) -> Binding {
    Binding {
        key: entry.key,
        value: match entry.value {
            Some(value) => Some(vstd::utf8::encode_utf8(value)),
            None => host,
        },
    }
}

/// Settles a variable, given its value in the host environment.
pub fn assign(variable: EnvironmentVariable, host: Option<Vec<u8>>) -> (r: Assignment)
    ensures
        r@ == assigned(variable@, bytes_option(host)),
{
    match variable.value {
        EnvironmentVariableValue::Inherit => Assignment { key: variable.key, value: host },
        EnvironmentVariableValue::Literal(value) => Assignment {
            key: variable.key,
            value: Some(value.as_str().as_bytes_vec()),
        },
    }
}

/// Why the sandbox cannot be started.
#[derive(Clone, Copy, Debug, PartialEq, Eq, Structural)]
pub enum ArgumentError {
    /// An argument or an environment string holds a NUL byte.
    NulByte,
}

impl ArgumentError {
    /// The message shown for the error.
    pub open spec fn text(self) -> Seq<char> {
        "Argument contains a NUL byte"@
    }

    /// The message shown for the error.
    pub fn message(self) -> (r: String)
        ensures
            r@ == self.text(),
    {
        "Argument contains a NUL byte".to_owned()
    }
}

/// The strings of bytes that a vector holds.
pub open spec fn strings_view(strings: Seq<Vec<u8>>) -> Seq<Seq<u8>> {
    strings.map_values(|string: Vec<u8>| string@)
}

/// What the assignments of a vector mean.
pub open spec fn bindings_view(env: Seq<Assignment>) -> Seq<Binding> {
    env.map_values(|assignment: Assignment| assignment@)
}

/// The encodings of strings.
pub open spec fn encoded(texts: Seq<Seq<char>>) -> Seq<Seq<u8>> {
    texts.map_values(|text: Seq<char>| vstd::utf8::encode_utf8(text))
}

/// The decimal digits of a number.
pub open spec fn decimal(n: nat) -> Seq<u8>
    decreases n,
{
    if n < 10 {
        seq![(0x30 + n) as u8]
    } else {
        decimal(n / 10).push((0x30 + n % 10) as u8)
    }
}

/// The first arguments: new namespaces for everything, the network of the host
/// where it is enabled, the file system of the host read-only, and a new `/proc`
/// and `/dev`.
pub open spec fn base_options(network: bool) -> Seq<Seq<u8>> {
    encoded(seq!["bwrap"@, "--unshare-all"@]) + (if network {
        encoded(seq!["--share-net"@])
    } else {
        Seq::empty()
    }) + encoded(
        seq!["--ro-bind"@, "/"@, "/"@, "--proc"@, "/proc"@, "--dev"@, "/dev"@],
    )
}

/// The arguments that mount each path at its own place as read-write.
pub open spec fn mount_options(mounts: Seq<Seq<u8>>) -> Seq<Seq<u8>>
    decreases mounts.len(),
{
    if mounts.len() == 0 {
        Seq::empty()
    } else {
        mount_options(mounts.drop_last()) + seq![
            vstd::utf8::encode_utf8("--bind"@),
            mounts.last(),
            mounts.last(),
        ]
    }
}

/// The arguments for one environment variable.
pub open spec fn binding_options(binding: Binding) -> Seq<Seq<u8>> {
    match binding.value {
        Some(value) => seq![vstd::utf8::encode_utf8("--setenv"@), vstd::utf8::encode_utf8(binding.key), value],
        None => seq![vstd::utf8::encode_utf8("--unsetenv"@), vstd::utf8::encode_utf8(binding.key)],
    }
}

/// The arguments for all environment variables, in their order.
pub open spec fn bindings_options(env: Seq<Binding>) -> Seq<Seq<u8>>
    decreases env.len(),
{
    if env.len() == 0 {
        Seq::empty()
    } else {
        bindings_options(env.drop_last()) + binding_options(env.last())
    }
}

/// The arguments for the environment: it is emptied first where the host's is not
/// inherited.
pub open spec fn environment_options(inherit_env: bool, env: Seq<Binding>) -> Seq<Seq<u8>> {
    (if inherit_env {
        Seq::empty()
    } else {
        encoded(seq!["--clearenv"@])
    }) + bindings_options(env)
}

/// All arguments before the command.
pub open spec fn options(
    network: bool,
    inherit_env: bool,
    mounts: Seq<Seq<u8>>,
    env: Seq<Binding>,
    filter: u32,
) -> Seq<Seq<u8>> {
    base_options(network) + mount_options(mounts) + environment_options(inherit_env, env) + seq![
        vstd::utf8::encode_utf8("--seccomp"@),
        decimal(filter as nat),
    ]
}

/// The arguments that `bwrap` is run with: the options, and behind `--` the
/// command as it was given.
pub open spec fn arguments(
    tool: Tool,
    mounts: Seq<Seq<u8>>,
    env: Seq<Binding>,
    filter: u32,
    command: Seq<Seq<char>>,
) -> Seq<Seq<u8>> {
    options(tool.network == Some(true), tool.inherit_env == Some(true), mounts, env, filter)
        + encoded(seq!["--"@]) + encoded(command)
}

/// Whether one of the strings holds a NUL byte.
pub open spec fn any_nul(strings: Seq<Seq<u8>>) -> bool {
    exists|i: int| 0 <= i < strings.len() && (#[trigger] strings[i]).contains(0u8)
}

/// Appends a string.
fn push_text(strings: &mut Vec<Vec<u8>>, text: &str)
    ensures
        strings_view(final(strings)@) == strings_view(old(strings)@).push(vstd::utf8::encode_utf8(text@)),
{
    let ghost before = strings_view(strings@);
    let bytes: Vec<u8> = text.as_bytes_vec();
    strings.push(bytes);
    assert(strings_view(strings@) =~= before.push(vstd::utf8::encode_utf8(text@)));
}

/// Appends a copy of a string of bytes.
fn push_bytes(strings: &mut Vec<Vec<u8>>, bytes: &Vec<u8>)
    ensures
        strings_view(final(strings)@) == strings_view(old(strings)@).push(bytes@),
{
    let ghost before = strings_view(strings@);
    strings.push(vstd::slice::slice_to_vec(bytes.as_slice()));
    assert(strings_view(strings@) =~= before.push(bytes@));
}

/// The decimal digits of a number.
fn decimal_digits(n: u32) -> (r: Vec<u8>)
    ensures
        r@ == decimal(n as nat),
    decreases n,
{
    let mut digits: Vec<u8> = if n < 10 {
        Vec::new()
    } else {
        decimal_digits(n / 10)
    };
    digits.push(0x30 + (n % 10) as u8);
    digits
}

/// Whether one of the strings holds a NUL byte.
fn has_nul(strings: &Vec<Vec<u8>>) -> (b: bool)
    ensures
        b == any_nul(strings_view(strings@)),
{
    let ghost view = strings_view(strings@);
    let mut i: usize = 0;
    while i < strings.len()
        invariant
            i <= strings@.len(),
            view == strings_view(strings@),
            forall|k: int| 0 <= k < i ==> !(#[trigger] view[k]).contains(0u8),
        decreases strings@.len() - i,
    {
        if has_byte(strings[i].as_slice(), 0) {
            assert(view[i as int].contains(0u8));
            return true;
        }
        i = i + 1;
    }
    false
}

/// Appends the first arguments.
fn push_base_options(arguments: &mut Vec<Vec<u8>>, network: bool)
    ensures
        strings_view(final(arguments)@) == strings_view(old(arguments)@) + base_options(network),
{
    let ghost before = strings_view(arguments@);
    push_text(arguments, "bwrap");
    push_text(arguments, "--unshare-all");
    if network {
        push_text(arguments, "--share-net");
    }
    // The root of the file system is always mounted read-only.
    push_text(arguments, "--ro-bind");
    push_text(arguments, "/");
    push_text(arguments, "/");
    // New proc and dev file systems avoid leaking information about the host.
    push_text(arguments, "--proc");
    push_text(arguments, "/proc");
    push_text(arguments, "--dev");
    push_text(arguments, "/dev");
    assert(strings_view(arguments@) =~= before + base_options(network));
}

/// Appends the arguments for the mounts.
fn push_mount_options(arguments: &mut Vec<Vec<u8>>, mounts: &Vec<Vec<u8>>)
    ensures
        strings_view(final(arguments)@) == strings_view(old(arguments)@) + mount_options(
            strings_view(mounts@),
        ),
{
    let ghost before = strings_view(arguments@);
    let ghost view = strings_view(mounts@);
    let mut i: usize = 0;
    while i < mounts.len()
        invariant
            i <= mounts@.len(),
            view == strings_view(mounts@),
            strings_view(arguments@) == before + mount_options(view.take(i as int)),
        decreases mounts@.len() - i,
    {
        push_text(arguments, "--bind");
        push_bytes(arguments, &mounts[i]);
        push_bytes(arguments, &mounts[i]);
        proof {
            assert(view.take(i + 1).drop_last() =~= view.take(i as int));
            assert(strings_view(arguments@) =~= before + mount_options(view.take(i + 1)));
        }
        i = i + 1;
    }
    assert(view.take(mounts@.len() as int) =~= view);
}

/// Appends the arguments for the environment.
fn push_environment_options(
    arguments: &mut Vec<Vec<u8>>,
    inherit_env: bool,
    env: &Vec<Assignment>,
)
    ensures
        strings_view(final(arguments)@) == strings_view(old(arguments)@) + environment_options(
            inherit_env,
            bindings_view(env@),
        ),
{
    let ghost initial = strings_view(arguments@);
    if !inherit_env {
        push_text(arguments, "--clearenv");
    }
    let ghost before = strings_view(arguments@);
    let ghost view = bindings_view(env@);
    let mut i: usize = 0;
    while i < env.len()
        invariant
            i <= env@.len(),
            view == bindings_view(env@),
            strings_view(arguments@) == before + bindings_options(view.take(i as int)),
        decreases env@.len() - i,
    {
        let ghost so_far = strings_view(arguments@);
        match &env[i].value {
            Some(value) => {
                push_text(arguments, "--setenv");
                push_text(arguments, env[i].key.as_str());
                push_bytes(arguments, value);
            },
            None => {
                push_text(arguments, "--unsetenv");
                push_text(arguments, env[i].key.as_str());
            },
        }
        proof {
            assert(view.take(i + 1).drop_last() =~= view.take(i as int));
            assert(view.take(i + 1).last() == env@[i as int]@);
            assert(strings_view(arguments@) =~= so_far + binding_options(env@[i as int]@));
            assert(strings_view(arguments@) =~= before + bindings_options(view.take(i + 1)));
        }
        i = i + 1;
    }
    assert(view.take(env@.len() as int) =~= view);
    assert(strings_view(arguments@) =~= initial + environment_options(inherit_env, view));
}

/// Makes the arguments that run `command` in a sandbox under the configuration
/// `tool`, with the given paths writable, the given environment, and the seccomp
/// filter that is read from the file descriptor `filter`.
pub fn sandbox_arguments(
    tool: &ToolConfig,
    mounts: &Vec<Vec<u8>>,
    env: &Vec<Assignment>,
    filter: u32,
    command: &Vec<String>,
) -> (r: Result<Vec<Vec<u8>>, ArgumentError>)
    requires
        tool@.settled(),
    ensures
        ({
            let wanted = arguments(
                tool@,
                strings_view(mounts@),
                bindings_view(env@),
                filter,
                crate::config::texts_view(command@),
            );
            match r {
                Ok(arguments) => !any_nul(wanted) && strings_view(arguments@) == wanted,
                Err(error) => any_nul(wanted) && error == ArgumentError::NulByte,
            }
        }),
{
    let network: bool = tool.network.unwrap();
    let inherit_env: bool = tool.inherit_env.unwrap();
    let mut arguments: Vec<Vec<u8>> = Vec::new();
    push_base_options(&mut arguments, network);
    push_mount_options(&mut arguments, mounts);
    push_environment_options(&mut arguments, inherit_env, env);
    push_text(&mut arguments, "--seccomp");
    push_bytes(&mut arguments, &decimal_digits(filter));
    push_text(&mut arguments, "--");
    let ghost before = strings_view(arguments@);
    let ghost view = crate::config::texts_view(command@);
    proof {
        assert(before =~= options(
            network,
            inherit_env,
            strings_view(mounts@),
            bindings_view(env@),
            filter,
        ) + encoded(seq!["--"@]));
    }
    let mut i: usize = 0;
    while i < command.len()
        invariant
            i <= command@.len(),
            view == crate::config::texts_view(command@),
            strings_view(arguments@) == before + encoded(view.take(i as int)),
        decreases command@.len() - i,
    {
        push_text(&mut arguments, command[i].as_str());
        assert(strings_view(arguments@) =~= before + encoded(view.take(i + 1)));
        i = i + 1;
    }
    assert(view.take(command@.len() as int) =~= view);
    if has_nul(&arguments) {
        Err(ArgumentError::NulByte)
    } else {
        Ok(arguments)
    }
}

/// What the values of variables in the host environment are.
pub open spec fn hosts_view(hosts: Seq<Option<Vec<u8>>>) -> Seq<Option<Seq<u8>>> {
    hosts.map_values(|host: Option<Vec<u8>>| bytes_option(host))
}

/// What the entries of a configuration become, given the value of the variable of
/// each in the host environment.
pub open spec fn settled_bindings(env: Seq<Entry>, hosts: Seq<Option<Seq<u8>>>) -> Seq<Binding> {
    Seq::new(env.len(), |i: int| assigned(env[i], hosts[i]))
}

/// Settles the variables of a configuration, given the value of each in the host
/// environment.
pub fn settle_environment(env: Vec<EnvironmentVariable>, host: Vec<Option<Vec<u8>>>) -> (r: Vec<
    Assignment,
>)
    requires
        env@.len() == host@.len(),
    ensures
        bindings_view(r@) == settled_bindings(crate::config::env_view(env@), hosts_view(host@)),
{
    let ghost wanted = settled_bindings(crate::config::env_view(env@), hosts_view(host@));
    let mut assignments: Vec<Assignment> = Vec::new();
    assert(bindings_view(assignments@) =~= wanted.take(0));
    let mut k: usize = 0;
    for variable in it: env
        invariant
            it.seq() == env@,
            env@.len() == host@.len(),
            k == it.index(),
            k <= host.len(),
            wanted == settled_bindings(crate::config::env_view(env@), hosts_view(host@)),
            bindings_view(assignments@) == wanted.take(k as int),
    {
        assert(k < host.len());
        let value: Option<Vec<u8>> = match &host[k] {
            Some(bytes) => Some(vstd::slice::slice_to_vec(bytes.as_slice())),
            None => None,
        };
        let ghost before = bindings_view(assignments@);
        let assignment: Assignment = assign(variable, value);
        assert(assignment@ == wanted[k as int]);
        assignments.push(assignment);
        proof {
            assert(bindings_view(assignments@) =~= before.push(wanted[k as int]));
            assert(wanted.take(k + 1) =~= wanted.take(k as int).push(wanted[k as int]));
        }
        k = k + 1;
    }
    assert(wanted.take(wanted.len() as int) =~= wanted);
    assignments
}

/// What the states of a vector mean.
pub open spec fn states_view(states: Seq<MountState>) -> Seq<Mounting> {
    states.map_values(|state: MountState| state@)
}

/// The paths that are mounted, in their order.
pub open spec fn bound_paths(states: Seq<Mounting>) -> Seq<Seq<u8>>
    decreases states.len(),
{
    if states.len() == 0 {
        Seq::empty()
    } else {
        match states.last() {
            Mounting::Bind(path) => bound_paths(states.drop_last()).push(path),
            _ => bound_paths(states.drop_last()),
        }
    }
}

/// Whether every path is either mounted or left out.
pub open spec fn all_decided(states: Seq<Mounting>) -> bool {
    forall|i: int| 0 <= i < states.len() ==> #[trigger] states[i] is Bind || states[i] is Skip
}

/// The paths that are mounted as read-write, in their order.
pub fn writable_paths(states: Vec<MountState>) -> (r: Vec<Vec<u8>>)
    ensures
        strings_view(r@) == bound_paths(states_view(states@)),
{
    let ghost view = states_view(states@);
    let mut paths: Vec<Vec<u8>> = Vec::new();
    assert(strings_view(paths@) =~= bound_paths(view.take(0)));
    for state in it: states
        invariant
            it.seq() == states@,
            view == states_view(states@),
            strings_view(paths@) == bound_paths(view.take(it.index() as int)),
    {
        proof {
            let n = it.index() as int;
            assert(view.take(n + 1).drop_last() =~= view.take(n));
            assert(view.take(n + 1).last() == state@);
        }
        match state {
            MountState::Bind(path) => {
                let ghost before = strings_view(paths@);
                paths.push(path);
                assert(strings_view(paths@) =~= before.push(path@));
            },
            _ => {},
        }
    }
    assert(view.take(view.len() as int) =~= view);
    paths
}

/// The arguments that run `command` as `tool` says, given what became of its mount
/// paths and the values of its variables in the host environment.
pub open spec fn run_arguments(
    tool: Tool,
    states: Seq<Mounting>,
    hosts: Seq<Option<Seq<u8>>>,
    filter: u32,
    command: Seq<Seq<char>>,
) -> Seq<Seq<u8>> {
    arguments(tool, bound_paths(states), settled_bindings(tool.env, hosts), filter, command)
}

/// Makes the arguments that run `command` in a sandbox as `tool` says. `states`
/// says what became of each of its mount paths, and `host` holds the value of each
/// of its variables in the host environment.
pub fn tool_arguments(
    tool: ToolConfig,
    states: Vec<MountState>,
    host: Vec<Option<Vec<u8>>>,
    filter: u32,
    command: &Vec<String>,
) -> (r: Result<Vec<Vec<u8>>, ArgumentError>)
    requires
        tool@.settled(),
        tool@.env.len() == host@.len(),
        tool@.mount.len() == states@.len(),
        all_decided(states_view(states@)),
    ensures
        ({
            let wanted = run_arguments(
                tool@,
                states_view(states@),
                hosts_view(host@),
                filter,
                crate::config::texts_view(command@),
            );
            match r {
                Ok(arguments) => !any_nul(wanted) && strings_view(arguments@) == wanted,
                Err(error) => any_nul(wanted) && error == ArgumentError::NulByte,
            }
        }),
{
    let mounts: Vec<Vec<u8>> = writable_paths(states);
    let switches: ToolConfig = ToolConfig {
        network: tool.network,
        inherit_env: tool.inherit_env,
        mount: tool.mount,
        env: Vec::new(),
    };
    let env: Vec<Assignment> = settle_environment(tool.env, host);
    sandbox_arguments(&switches, &mounts, &env, filter, command)
}

/// An environment variable as a program gets it.
pub open spec fn environment_string(key: Seq<u8>, value: Seq<u8>) -> Seq<u8> {
    key.push(0x3d) + value
}

/// The pairs of a vector.
pub open spec fn pairs_view(pairs: Seq<(Vec<u8>, Vec<u8>)>) -> Seq<(Seq<u8>, Seq<u8>)> {
    pairs.map_values(|pair: (Vec<u8>, Vec<u8>)| (pair.0@, pair.1@))
}

/// Environment variables as a program gets them.
pub open spec fn environment_strings(variables: Seq<(Seq<u8>, Seq<u8>)>) -> Seq<Seq<u8>> {
    variables.map_values(
        |variable: (Seq<u8>, Seq<u8>)| environment_string(variable.0, variable.1),
    )
}

/// Makes the environment that the sandbox is started in from the variables of the
/// host, whatever bytes they hold.
pub fn host_environment(variables: &Vec<(Vec<u8>, Vec<u8>)>) -> (r: Result<
    Vec<Vec<u8>>,
    ArgumentError,
>)
    ensures
        ({
            let wanted = environment_strings(pairs_view(variables@));
            match r {
                Ok(strings) => !any_nul(wanted) && strings_view(strings@) == wanted,
                Err(error) => any_nul(wanted) && error == ArgumentError::NulByte,
            }
        }),
{
    let ghost view = environment_strings(pairs_view(variables@));
    let mut strings: Vec<Vec<u8>> = Vec::new();
    assert(strings_view(strings@) =~= view.take(0));
    let mut i: usize = 0;
    while i < variables.len()
        invariant
            i <= variables@.len(),
            view == environment_strings(pairs_view(variables@)),
            strings_view(strings@) == view.take(i as int),
        decreases variables@.len() - i,
    {
        let mut string: Vec<u8> = vstd::slice::slice_to_vec(variables[i].0.as_slice());
        string.push(0x3d);
        let mut value: Vec<u8> = vstd::slice::slice_to_vec(variables[i].1.as_slice());
        string.append(&mut value);
        let ghost before = strings_view(strings@);
        assert(string@ =~= view[i as int]);
        strings.push(string);
        proof {
            assert(strings_view(strings@) =~= before.push(view[i as int]));
            assert(view.take(i + 1) =~= view.take(i as int).push(view[i as int]));
        }
        i = i + 1;
    }
    assert(view.take(variables@.len() as int) =~= view);
    if has_nul(&strings) {
        Err(ArgumentError::NulByte)
    } else {
        Ok(strings)
    }
}

/// The command stands at the end, as it was given, behind a `--`.
pub proof fn command_comes_last(
    tool: Tool,
    mounts: Seq<Seq<u8>>,
    env: Seq<Binding>,
    filter: u32,
    command: Seq<Seq<char>>,
)
    ensures
        ({
            let all = arguments(tool, mounts, env, filter, command);
            let start = all.len() - command.len();
            &&& start > 0
            &&& all[start - 1] == vstd::utf8::encode_utf8("--"@)
            &&& all.skip(start) == encoded(command)
        }),
{
    let all = arguments(tool, mounts, env, filter, command);
    assert(all.skip(all.len() - command.len()) =~= encoded(command));
}

/// The network of the host is shared exactly where the configuration enables it.
pub proof fn network_is_shared_where_enabled(
    tool: Tool,
    mounts: Seq<Seq<u8>>,
    env: Seq<Binding>,
    filter: u32,
    command: Seq<Seq<char>>,
)
    ensures
        ({
            let all = arguments(tool, mounts, env, filter, command);
            &&& all[1] == vstd::utf8::encode_utf8("--unshare-all"@)
            &&& all[2] == vstd::utf8::encode_utf8("--share-net"@) <==> tool.network == Some(true)
        }),
{
    reveal_strlit("--share-net");
    reveal_strlit("--ro-bind");
    vstd::utf8::encode_utf8_decode_utf8("--share-net"@);
    vstd::utf8::encode_utf8_decode_utf8("--ro-bind"@);
    assert("--share-net"@.len() != "--ro-bind"@.len());
}

/// The whole file system is mounted read-only, before any path is made writable.
pub proof fn root_is_read_only(
    tool: Tool,
    mounts: Seq<Seq<u8>>,
    env: Seq<Binding>,
    filter: u32,
    command: Seq<Seq<char>>,
)
    ensures
        ({
            let all = arguments(tool, mounts, env, filter, command);
            let base = base_options(tool.network == Some(true));
            let k = base.len() - 7;
            &&& all.subrange(k, k + 3) == encoded(seq!["--ro-bind"@, "/"@, "/"@])
            &&& all.subrange(
                base.len() as int,
                (base.len() + mount_options(mounts).len()) as int,
            ) == mount_options(mounts)
        }),
{
    let all = arguments(tool, mounts, env, filter, command);
    let base = base_options(tool.network == Some(true));
    let k = base.len() - 7;
    assert(all.subrange(k, k + 3) =~= encoded(seq!["--ro-bind"@, "/"@, "/"@]));
    assert(all.subrange(base.len() as int, (base.len() + mount_options(mounts).len()) as int)
        =~= mount_options(mounts));
}

/// Every writable path is mounted at its own place.
pub proof fn mounts_are_identity_mounts(mounts: Seq<Seq<u8>>, i: int)
    requires
        0 <= i < mounts.len(),
    ensures
        mount_options(mounts).len() == 3 * mounts.len(),
        mount_options(mounts).subrange(3 * i, 3 * i + 3) == seq![
            vstd::utf8::encode_utf8("--bind"@),
            mounts[i],
            mounts[i],
        ],
    decreases mounts.len(),
{
    let rest = mounts.drop_last();
    let all = mount_options(mounts);
    let before = mount_options(rest);
    let last = seq![vstd::utf8::encode_utf8("--bind"@), mounts.last(), mounts.last()];
    assert(before.len() == 3 * rest.len()) by {
        if rest.len() > 0 {
            mounts_are_identity_mounts(rest, 0);
        } else {
            assert(before == Seq::<Seq<u8>>::empty());
        }
    }
    assert(last.len() == 3);
    assert(all == before + last);
    if i < mounts.len() - 1 {
        mounts_are_identity_mounts(rest, i);
        assert(rest[i] == mounts[i]);
        assert(all.subrange(3 * i, 3 * i + 3) =~= before.subrange(3 * i, 3 * i + 3));
    } else {
        assert(all.subrange(3 * i, 3 * i + 3) =~= last);
    }
}

/// Where the environment of the host is not inherited, it is emptied before any
/// variable is set.
pub proof fn environment_is_emptied_first(
    tool: Tool,
    mounts: Seq<Seq<u8>>,
    env: Seq<Binding>,
    filter: u32,
    command: Seq<Seq<char>>,
)
    requires
        tool.inherit_env == Some(false),
    ensures
        ({
            let all = arguments(tool, mounts, env, filter, command);
            let k = base_options(tool.network == Some(true)).len() as int + mount_options(
                mounts,
            ).len();
            &&& all[k] == vstd::utf8::encode_utf8("--clearenv"@)
            &&& all.subrange(k + 1, k + 1 + bindings_options(env).len()) == bindings_options(env)
        }),
{
    let all = arguments(tool, mounts, env, filter, command);
    let k = base_options(tool.network == Some(true)).len() as int + mount_options(mounts).len();
    assert(all.subrange(k + 1, k + 1 + bindings_options(env).len()) =~= bindings_options(env));
}

/// Where the environment of the host is inherited, it is not emptied: the
/// variables of the configuration are set on top of it.
pub proof fn environment_is_kept_where_inherited(
    tool: Tool,
    mounts: Seq<Seq<u8>>,
    env: Seq<Binding>,
    filter: u32,
    command: Seq<Seq<char>>,
)
    requires
        tool.inherit_env == Some(true),
    ensures
        ({
            let all = arguments(tool, mounts, env, filter, command);
            let k = base_options(tool.network == Some(true)).len() as int + mount_options(
                mounts,
            ).len();
            let end = k + bindings_options(env).len();
            &&& all.subrange(k, end) == bindings_options(env)
            &&& all[end] == vstd::utf8::encode_utf8("--seccomp"@)
        }),
{
    let all = arguments(tool, mounts, env, filter, command);
    let k = base_options(tool.network == Some(true)).len() as int + mount_options(mounts).len();
    assert(all.subrange(k, k + bindings_options(env).len()) =~= bindings_options(env));
}

/// The sandbox is always given the seccomp filter, directly before the command.
pub proof fn filter_is_handed_over(
    tool: Tool,
    mounts: Seq<Seq<u8>>,
    env: Seq<Binding>,
    filter: u32,
    command: Seq<Seq<char>>,
)
    ensures
        ({
            let all = arguments(tool, mounts, env, filter, command);
            let start = all.len() - command.len();
            &&& start > 2
            &&& all[start - 3] == vstd::utf8::encode_utf8("--seccomp"@)
            &&& all[start - 2] == decimal(filter as nat)
        }),
{
}

proof fn lemma_bindings_options_at(env: Seq<Binding>, i: int)
    requires
        0 <= i < env.len(),
    ensures
        ({
            let start = bindings_options(env.take(i)).len() as int;
            let end = start + binding_options(env[i]).len();
            &&& end <= bindings_options(env).len()
            &&& bindings_options(env).subrange(start, end) == binding_options(env[i])
        }),
    decreases env.len(),
{
    let rest = env.drop_last();
    let start = bindings_options(env.take(i)).len() as int;
    let end = start + binding_options(env[i]).len();
    if i < rest.len() {
        lemma_bindings_options_at(rest, i);
        assert(rest.take(i) =~= env.take(i));
        assert(bindings_options(env).subrange(start, end) =~= bindings_options(rest).subrange(
            start,
            end,
        ));
    } else {
        assert(env.take(i) =~= rest);
        assert(bindings_options(env).subrange(start, end) =~= binding_options(env[i]));
    }
}

/// Every variable of the configuration reaches the sandbox: its arguments stand
/// among the options, behind those of the variables before it.
pub proof fn configured_variables_reach_the_sandbox(
    tool: Tool,
    states: Seq<Mounting>,
    hosts: Seq<Option<Seq<u8>>>,
    filter: u32,
    command: Seq<Seq<char>>,
    i: int,
)
    requires
        0 <= i < tool.env.len(),
        tool.env.len() == hosts.len(),
    ensures
        ({
            let all = run_arguments(tool, states, hosts, filter, command);
            let wanted = binding_options(assigned(tool.env[i], hosts[i]));
            let start = base_options(tool.network == Some(true)).len() as int + mount_options(
                bound_paths(states),
            ).len() + (if tool.inherit_env == Some(true) {
                0int
            } else {
                1int
            }) + bindings_options(settled_bindings(tool.env, hosts).take(i)).len();
            &&& start + wanted.len() < all.len() - command.len()
            &&& all.subrange(start, start + wanted.len()) == wanted
        }),
{
    let env = settled_bindings(tool.env, hosts);
    let all = run_arguments(tool, states, hosts, filter, command);
    let own = bindings_options(env);
    let wanted = binding_options(env[i]);
    let first = bindings_options(env.take(i)).len() as int;
    let base = base_options(tool.network == Some(true)).len() as int + mount_options(
        bound_paths(states),
    ).len() + (if tool.inherit_env == Some(true) {
        0int
    } else {
        1int
    });
    lemma_bindings_options_at(env, i);
    assert forall|k: int| 0 <= k < own.len() implies all[base + k] == #[trigger] own[k] by {}
    assert(all.subrange(base + first, base + first + wanted.len()) =~= own.subrange(
        first,
        first + wanted.len(),
    ));
}

/// Every path that is mounted stands among the writable paths, behind those
/// before it.
pub proof fn bound_paths_are_writable(states: Seq<Mounting>, i: int, path: Seq<u8>)
    requires
        0 <= i < states.len(),
        states[i] == Mounting::Bind(path),
    ensures
        ({
            let k = bound_paths(states.take(i)).len() as int;
            k < bound_paths(states).len() && bound_paths(states)[k] == path
        }),
    decreases states.len(),
{
    let rest = states.drop_last();
    if i < rest.len() {
        bound_paths_are_writable(rest, i, path);
        assert(rest.take(i) =~= states.take(i));
    } else {
        assert(states.take(i) =~= rest);
    }
}

/// The place that a mount path of the configuration leads to, given what came of
/// its handling, unless nothing stands there.
pub open spec fn destination(
    path: Seq<char>,
    home: Option<Seq<char>>,
    config: Option<Seq<u8>>,
    current: Seq<u8>,
    events: Seq<Observation>,
) -> Option<Seq<u8>> {
    match crate::mount::resolved(path, home, config, current) {
        Ok(start) => match crate::mount::mount_run(start, events) {
            Mounting::Bind(place) => Some(place),
            _ => None,
        },
        Err(_) => None,
    }
}

/// The places that the mount paths of a configuration lead to, in their order.
pub open spec fn destinations(
    paths: Seq<Seq<char>>,
    homes: Seq<Option<Seq<char>>>,
    config: Option<Seq<u8>>,
    current: Seq<u8>,
    events: Seq<Seq<Observation>>,
) -> Seq<Seq<u8>>
    decreases paths.len(),
{
    if paths.len() == 0 {
        Seq::empty()
    } else {
        let n = paths.len() - 1;
        let before = destinations(paths.drop_last(), homes, config, current, events);
        match destination(paths[n], homes[n], config, current, events[n]) {
            Some(place) => before.push(place),
            None => before,
        }
    }
}

/// Whether each state is what a mount path of the configuration came to.
pub open spec fn came_to(
    paths: Seq<Seq<char>>,
    homes: Seq<Option<Seq<char>>>,
    config: Option<Seq<u8>>,
    current: Seq<u8>,
    events: Seq<Seq<Observation>>,
    states: Seq<Mounting>,
) -> bool {
    &&& states.len() == paths.len()
    &&& forall|i: int|
        0 <= i < paths.len() ==> (crate::mount::resolved(paths[i], homes[i], config, current)
            matches Ok(start) && #[trigger] states[i] == crate::mount::mount_run(start, events[i]))
}

proof fn lemma_bound_paths_are_destinations(
    paths: Seq<Seq<char>>,
    homes: Seq<Option<Seq<char>>>,
    config: Option<Seq<u8>>,
    current: Seq<u8>,
    events: Seq<Seq<Observation>>,
    states: Seq<Mounting>,
)
    requires
        came_to(paths, homes, config, current, events, states),
    ensures
        bound_paths(states) == destinations(paths, homes, config, current, events),
    decreases paths.len(),
{
    if paths.len() > 0 {
        let rest = states.drop_last();
        let earlier = paths.drop_last();
        assert forall|i: int| 0 <= i < earlier.len() implies (crate::mount::resolved(
            earlier[i],
            homes[i],
            config,
            current,
        ) matches Ok(start) && #[trigger] rest[i] == crate::mount::mount_run(start, events[i])) by {
            assert(rest[i] == states[i]);
        }
        lemma_bound_paths_are_destinations(earlier, homes, config, current, events, rest);
        assert(states.last() == states[paths.len() - 1]);
    }
}

/// The configured mounts reach the sandbox: where the states are what the mount
/// paths of the tool came to, the writable paths are the places that these lead
/// to, in their order, each mounted at its own place.
pub proof fn configured_mounts_reach_the_sandbox(
    tool: Tool,
    homes: Seq<Option<Seq<char>>>,
    config: Option<Seq<u8>>,
    current: Seq<u8>,
    events: Seq<Seq<Observation>>,
    states: Seq<Mounting>,
    hosts: Seq<Option<Seq<u8>>>,
    filter: u32,
    command: Seq<Seq<char>>,
)
    requires
        came_to(tool.mount, homes, config, current, events, states),
    ensures
        ({
            let places = destinations(tool.mount, homes, config, current, events);
            let all = run_arguments(tool, states, hosts, filter, command);
            let base = base_options(tool.network == Some(true)).len() as int;
            &&& bound_paths(states) == places
            &&& all.subrange(base, base + mount_options(places).len()) == mount_options(places)
        }),
{
    lemma_bound_paths_are_destinations(tool.mount, homes, config, current, events, states);
    root_is_read_only(
        tool,
        bound_paths(states),
        settled_bindings(tool.env, hosts),
        filter,
        command,
    );
}

/// Where a mount path leads: an absolute one to itself and a relative one to its
/// canonical place, if something stands there, and otherwise nowhere.
pub proof fn destinations_are_where_paths_lead(
    path: Seq<char>,
    home: Option<Seq<char>>,
    config: Option<Seq<u8>>,
    current: Seq<u8>,
    canonical: Seq<u8>,
)
    ensures
        crate::mount::resolved(path, home, config, current) matches Ok(Mounting::Probe(place)) ==> {
            &&& place == vstd::utf8::encode_utf8(crate::mount::expanded(path, home))
            &&& destination(path, home, config, current, seq![Observation::Exists(true)]) == Some(
                place,
            )
            &&& destination(path, home, config, current, seq![Observation::Exists(false)]) is None
        },
        crate::mount::resolved(path, home, config, current) matches Ok(Mounting::Canonicalize(_))
            ==> {
            &&& destination(
                path,
                home,
                config,
                current,
                seq![Observation::Canonical(canonical), Observation::Exists(true)],
            ) == Some(canonical)
            &&& destination(path, home, config, current, seq![Observation::NotFound]) is None
        },
{
    reveal_with_fuel(crate::mount::mount_run, 3);
    let both = seq![Observation::Canonical(canonical), Observation::Exists(true)];
    assert(both.drop_last() =~= seq![Observation::Canonical(canonical)]);
    assert(seq![Observation::Canonical(canonical)].drop_last() =~= Seq::<Observation>::empty());
    assert(seq![Observation::Exists(true)].drop_last() =~= Seq::<Observation>::empty());
    assert(seq![Observation::Exists(false)].drop_last() =~= Seq::<Observation>::empty());
    assert(seq![Observation::NotFound].drop_last() =~= Seq::<Observation>::empty());
}

/// Nothing else is writable: every writable path is one that is mounted.
pub proof fn only_bound_paths_are_writable(states: Seq<Mounting>, k: int)
    requires
        0 <= k < bound_paths(states).len(),
    ensures
        states.contains(Mounting::Bind(bound_paths(states)[k])),
    decreases states.len(),
{
    if states.len() > 0 {
        let rest = states.drop_last();
        if k < bound_paths(rest).len() {
            only_bound_paths_are_writable(rest, k);
            let i = rest.index_of(Mounting::Bind(bound_paths(rest)[k]));
            assert(states[i] == rest[i]);
        } else {
            assert(states[states.len() - 1] == states.last());
        }
    }
}

proof fn lemma_decimal_digits(n: nat)
    ensures
        forall|i: int| 0 <= i < decimal(n).len() ==> 0x30 <= #[trigger] decimal(n)[i] <= 0x39,
    decreases n,
{
    let digits = decimal(n);
    if n >= 10 {
        let rest = decimal(n / 10);
        lemma_decimal_digits(n / 10);
        assert forall|i: int| 0 <= i < digits.len() implies 0x30 <= #[trigger] digits[i]
            <= 0x39 by {
            if i < rest.len() {
                assert(digits[i] == rest[i]);
            }
        }
    }
}

proof fn lemma_fixed_options_without_nul()
    ensures
        !any_nul(base_options(true)),
        !any_nul(base_options(false)),
        !any_nul(encoded(seq!["--clearenv"@])),
        !any_nul(encoded(seq!["--"@])),
        !vstd::utf8::encode_utf8("--bind"@).contains(0u8),
        !vstd::utf8::encode_utf8("--setenv"@).contains(0u8),
        !vstd::utf8::encode_utf8("--unsetenv"@).contains(0u8),
        !vstd::utf8::encode_utf8("--seccomp"@).contains(0u8),
{
    reveal_strlit("bwrap");
    reveal_strlit("--unshare-all");
    reveal_strlit("--share-net");
    reveal_strlit("--ro-bind");
    reveal_strlit("/");
    reveal_strlit("--proc");
    reveal_strlit("/proc");
    reveal_strlit("--dev");
    reveal_strlit("/dev");
    reveal_strlit("--clearenv");
    reveal_strlit("--");
    reveal_strlit("--bind");
    reveal_strlit("--setenv");
    reveal_strlit("--unsetenv");
    reveal_strlit("--seccomp");
    crate::text::lemma_encoded_ascii("bwrap"@, '\0');
    crate::text::lemma_encoded_ascii("--unshare-all"@, '\0');
    crate::text::lemma_encoded_ascii("--share-net"@, '\0');
    crate::text::lemma_encoded_ascii("--ro-bind"@, '\0');
    crate::text::lemma_encoded_ascii("/"@, '\0');
    crate::text::lemma_encoded_ascii("--proc"@, '\0');
    crate::text::lemma_encoded_ascii("/proc"@, '\0');
    crate::text::lemma_encoded_ascii("--dev"@, '\0');
    crate::text::lemma_encoded_ascii("/dev"@, '\0');
    crate::text::lemma_encoded_ascii("--clearenv"@, '\0');
    crate::text::lemma_encoded_ascii("--"@, '\0');
    crate::text::lemma_encoded_ascii("--bind"@, '\0');
    crate::text::lemma_encoded_ascii("--setenv"@, '\0');
    crate::text::lemma_encoded_ascii("--unsetenv"@, '\0');
    crate::text::lemma_encoded_ascii("--seccomp"@, '\0');
}

proof fn lemma_mount_options_without_nul(mounts: Seq<Seq<u8>>)
    requires
        !any_nul(mounts),
    ensures
        !any_nul(mount_options(mounts)),
    decreases mounts.len(),
{
    if mounts.len() > 0 {
        let rest = mounts.drop_last();
        assert(!any_nul(rest)) by {
            assert forall|i: int| 0 <= i < rest.len() implies !(#[trigger] rest[i]).contains(0u8) by {
                assert(!mounts[i].contains(0u8));
            }
        }
        lemma_mount_options_without_nul(rest);
        lemma_fixed_options_without_nul();
        assert(!mounts[mounts.len() - 1].contains(0u8));
    }
}

/// Whether key and value of a variable are free of NUL.
pub open spec fn clean_binding(binding: Binding) -> bool {
    &&& !binding.key.contains('\0')
    &&& binding.value matches Some(value) ==> !value.contains(0u8)
}

proof fn lemma_bindings_options_without_nul(env: Seq<Binding>)
    requires
        forall|i: int| 0 <= i < env.len() ==> clean_binding(#[trigger] env[i]),
    ensures
        !any_nul(bindings_options(env)),
    decreases env.len(),
{
    if env.len() > 0 {
        let rest = env.drop_last();
        assert forall|i: int| 0 <= i < rest.len() implies clean_binding(#[trigger] rest[i]) by {
            assert(clean_binding(env[i]));
        }
        lemma_bindings_options_without_nul(rest);
        lemma_fixed_options_without_nul();
        assert(clean_binding(env[env.len() - 1]));
        crate::text::lemma_encoded_ascii(env.last().key, '\0');
    }
}

proof fn lemma_concatenation_without_nul(a: Seq<Seq<u8>>, b: Seq<Seq<u8>>)
    ensures
        any_nul(a + b) <==> any_nul(a) || any_nul(b),
{
    let all = a + b;
    if any_nul(all) {
        let i = choose|i: int| 0 <= i < all.len() && (#[trigger] all[i]).contains(0u8);
        if i < a.len() {
            assert(a[i].contains(0u8));
        } else {
            assert(b[i - a.len()].contains(0u8));
        }
    }
    if any_nul(a) {
        let i = choose|i: int| 0 <= i < a.len() && (#[trigger] a[i]).contains(0u8);
        assert(all[i].contains(0u8));
    }
    if any_nul(b) {
        let i = choose|i: int| 0 <= i < b.len() && (#[trigger] b[i]).contains(0u8);
        assert(all[i + a.len()].contains(0u8));
    }
}

/// Arguments can be made wherever the paths, the environment and the command are
/// free of NUL.
pub proof fn clean_parts_make_arguments(
    tool: Tool,
    mounts: Seq<Seq<u8>>,
    env: Seq<Binding>,
    filter: u32,
    command: Seq<Seq<char>>,
)
    requires
        !any_nul(mounts),
        forall|i: int| 0 <= i < env.len() ==> clean_binding(#[trigger] env[i]),
        forall|i: int| 0 <= i < command.len() ==> !(#[trigger] command[i]).contains('\0'),
    ensures
        !any_nul(arguments(tool, mounts, env, filter, command)),
{
    let network = tool.network == Some(true);
    let inherit_env = tool.inherit_env == Some(true);
    let base = base_options(network);
    let writable = mount_options(mounts);
    let clear = if inherit_env {
        Seq::<Seq<u8>>::empty()
    } else {
        encoded(seq!["--clearenv"@])
    };
    let seccomp = seq![vstd::utf8::encode_utf8("--seccomp"@), decimal(filter as nat)];
    let separator = encoded(seq!["--"@]);
    lemma_fixed_options_without_nul();
    lemma_mount_options_without_nul(mounts);
    lemma_bindings_options_without_nul(env);
    lemma_decimal_digits(filter as nat);
    assert(!any_nul(encoded(command))) by {
        assert forall|i: int| 0 <= i < encoded(command).len() implies !(#[trigger] encoded(
            command,
        )[i]).contains(0u8) by {
            assert(!command[i].contains('\0'));
            crate::text::lemma_encoded_ascii(command[i], '\0');
        }
    }
    lemma_concatenation_without_nul(clear, bindings_options(env));
    lemma_concatenation_without_nul(base, writable);
    lemma_concatenation_without_nul(base + writable, environment_options(inherit_env, env));
    lemma_concatenation_without_nul(
        base + writable + environment_options(inherit_env, env),
        seccomp,
    );
    let before = options(network, inherit_env, mounts, env, filter);
    lemma_concatenation_without_nul(before, separator);
    lemma_concatenation_without_nul(before + separator, encoded(command));
}

/// A valid entry, settled with a value of the host that is free of NUL, is free
/// of NUL.
pub proof fn valid_entries_are_clean(entry: Entry, host: Option<Seq<u8>>)
    requires
        entry.valid(),
        host matches Some(value) ==> !value.contains(0u8),
    ensures
        clean_binding(assigned(entry, host)),
{
    if let Some(value) = entry.value {
        crate::text::lemma_encoded_ascii(value, '\0');
    }
}

/// Assignments, and all that is handed over in vectors, show what they hold, item by
/// item.
pub proof fn vectors_show_what_they_hold(
    assignment: Assignment,
    bytes: Option<Vec<u8>>,
    strings: Seq<Vec<u8>>,
    env: Seq<Assignment>,
    hosts: Seq<Option<Vec<u8>>>,
    states: Seq<MountState>,
    pairs: Seq<(Vec<u8>, Vec<u8>)>,
)
    ensures
        assignment@.key == assignment.key@,
        assignment@.value == bytes_option(assignment.value),
        bytes is None <==> bytes_option(bytes) is None,
        bytes matches Some(held) ==> bytes_option(bytes) == Some(held@),
        strings_view(strings).len() == strings.len(),
        forall|i: int| 0 <= i < strings.len() ==> #[trigger] strings_view(strings)[i] == strings[i]@,
        bindings_view(env).len() == env.len(),
        forall|i: int| 0 <= i < env.len() ==> #[trigger] bindings_view(env)[i] == env[i]@,
        hosts_view(hosts).len() == hosts.len(),
        forall|i: int|
            0 <= i < hosts.len() ==> #[trigger] hosts_view(hosts)[i] == bytes_option(hosts[i]),
        states_view(states).len() == states.len(),
        forall|i: int| 0 <= i < states.len() ==> #[trigger] states_view(states)[i] == states[i]@,
        pairs_view(pairs).len() == pairs.len(),
        forall|i: int|
            0 <= i < pairs.len() ==> #[trigger] pairs_view(pairs)[i] == (pairs[i].0@, pairs[i].1@),
{
}

/// A literal value is set whatever the host has. An inherited variable has the value
/// of the host, and is unset where the host has none.
pub proof fn variables_are_set_or_inherited(
    key: Seq<char>,
    value: Seq<char>,
    host: Option<Seq<u8>>,
)
    ensures
        assigned(Entry { key, value: Some(value) }, host).key == key,
        assigned(Entry { key, value: Some(value) }, host).value == Some(
            vstd::utf8::encode_utf8(value),
        ),
        assigned(Entry { key, value: None }, host).key == key,
        assigned(Entry { key, value: None }, host).value == host,
{
}

/// Each variable of the configuration is settled with its own value of the host.
pub proof fn variables_are_settled_with_their_own_value(
    env: Seq<Entry>,
    hosts: Seq<Option<Seq<u8>>>,
    i: int,
)
    requires
        0 <= i < env.len(),
        env.len() == hosts.len(),
    ensures
        settled_bindings(env, hosts).len() == env.len(),
        settled_bindings(env, hosts)[i].key == env[i].key,
        env[i].value matches Some(value) ==> settled_bindings(env, hosts)[i].value == Some(
            vstd::utf8::encode_utf8(value),
        ),
        env[i].value is None ==> settled_bindings(env, hosts)[i].value == hosts[i],
{
}

/// One variable more adds its own arguments at the end: its key with its value, or
/// its key alone where it is unset.
pub proof fn every_variable_adds_its_arguments(
    env: Seq<Binding>,
    key: Seq<char>,
    value: Seq<u8>,
)
    ensures
        bindings_options(Seq::empty()).len() == 0,
        bindings_options(env.push(Binding { key, value: Some(value) })) == bindings_options(env)
            + seq![vstd::utf8::encode_utf8("--setenv"@), vstd::utf8::encode_utf8(key), value],
        bindings_options(env.push(Binding { key, value: None })) == bindings_options(env) + seq![
            vstd::utf8::encode_utf8("--unsetenv"@),
            vstd::utf8::encode_utf8(key),
        ],
{
    let set = env.push(Binding { key, value: Some(value) });
    let unset = env.push(Binding { key, value: None });
    assert(set.drop_last() =~= env);
    assert(unset.drop_last() =~= env);
}

/// Only a path that is mounted is added to the writable paths, at the end.
pub proof fn every_bound_path_is_added(states: Seq<Mounting>, path: Seq<u8>)
    ensures
        bound_paths(Seq::empty()).len() == 0,
        bound_paths(states.push(Mounting::Bind(path))) == bound_paths(states).push(path),
        bound_paths(states.push(Mounting::Skip(path))) == bound_paths(states),
        bound_paths(states.push(Mounting::Fail(path))) == bound_paths(states),
        bound_paths(states.push(Mounting::Probe(path))) == bound_paths(states),
        bound_paths(states.push(Mounting::Canonicalize(path))) == bound_paths(states),
{
    assert(states.push(Mounting::Bind(path)).drop_last() =~= states);
    assert(states.push(Mounting::Skip(path)).drop_last() =~= states);
    assert(states.push(Mounting::Fail(path)).drop_last() =~= states);
    assert(states.push(Mounting::Probe(path)).drop_last() =~= states);
    assert(states.push(Mounting::Canonicalize(path)).drop_last() =~= states);
}

/// Numbers are written in decimal: a digit alone, and a digit more behind what is
/// written of a tenth.
pub proof fn numbers_are_written_in_decimal(n: nat, digit: nat)
    requires
        digit < 10,
    ensures
        decimal(digit) == seq![(0x30 + digit) as u8],
        n > 0 ==> decimal(10 * n + digit) == decimal(n).push((0x30 + digit) as u8),
{
    assert((10 * n + digit) / 10 == n && (10 * n + digit) % 10 == digit);
}

/// How the arguments are laid out, one by one, with nothing else among them. The
/// network of the host is shared only where the configuration enables it: otherwise
/// the options that come first are exactly those that share nothing.
pub proof fn arguments_are_laid_out(
    tool: Tool,
    mounts: Seq<Seq<u8>>,
    env: Seq<Binding>,
    filter: u32,
    command: Seq<Seq<char>>,
)
    ensures
        ({
            let all = arguments(tool, mounts, env, filter, command);
            let base = if tool.network == Some(true) {
                10int
            } else {
                9int
            };
            let own = base + 3 * mounts.len() + if tool.inherit_env == Some(true) {
                0int
            } else {
                1int
            };
            let end = own + bindings_options(env).len();
            &&& tool.network == Some(true) ==> all.take(base) == seq![
                vstd::utf8::encode_utf8("bwrap"@),
                vstd::utf8::encode_utf8("--unshare-all"@),
                vstd::utf8::encode_utf8("--share-net"@),
                vstd::utf8::encode_utf8("--ro-bind"@),
                vstd::utf8::encode_utf8("/"@),
                vstd::utf8::encode_utf8("/"@),
                vstd::utf8::encode_utf8("--proc"@),
                vstd::utf8::encode_utf8("/proc"@),
                vstd::utf8::encode_utf8("--dev"@),
                vstd::utf8::encode_utf8("/dev"@),
            ]
            &&& tool.network != Some(true) ==> all.take(base) == seq![
                vstd::utf8::encode_utf8("bwrap"@),
                vstd::utf8::encode_utf8("--unshare-all"@),
                vstd::utf8::encode_utf8("--ro-bind"@),
                vstd::utf8::encode_utf8("/"@),
                vstd::utf8::encode_utf8("/"@),
                vstd::utf8::encode_utf8("--proc"@),
                vstd::utf8::encode_utf8("/proc"@),
                vstd::utf8::encode_utf8("--dev"@),
                vstd::utf8::encode_utf8("/dev"@),
            ]
            &&& forall|i: int|
                0 <= i < mounts.len() ==> all.subrange(base + 3 * i, base + 3 * i + 3) == seq![
                    vstd::utf8::encode_utf8("--bind"@),
                    #[trigger] mounts[i],
                    mounts[i],
                ]
            &&& tool.inherit_env != Some(true) ==> all[own - 1] == vstd::utf8::encode_utf8(
                "--clearenv"@,
            )
            &&& all.subrange(own, end) == bindings_options(env)
            &&& all[end] == vstd::utf8::encode_utf8("--seccomp"@)
            &&& all[end + 1] == decimal(filter as nat)
            &&& all[end + 2] == vstd::utf8::encode_utf8("--"@)
            &&& all.len() == end + 3 + command.len()
            &&& forall|i: int|
                0 <= i < command.len() ==> all[end + 3 + i] == vstd::utf8::encode_utf8(
                    #[trigger] command[i],
                )
        }),
{
    let all = arguments(tool, mounts, env, filter, command);
    let network = tool.network == Some(true);
    let first = base_options(network);
    let writable = mount_options(mounts);
    let base = first.len() as int;
    let own = base + writable.len() + if tool.inherit_env == Some(true) {
        0int
    } else {
        1int
    };
    let end = own + bindings_options(env).len();
    assert(writable.len() == 3 * mounts.len()) by {
        if mounts.len() > 0 {
            mounts_are_identity_mounts(mounts, 0);
        }
    }
    assert(all.take(base) =~= first);
    assert(base == if network {
        10int
    } else {
        9int
    });
    if network {
        assert(first =~= seq![
            vstd::utf8::encode_utf8("bwrap"@),
            vstd::utf8::encode_utf8("--unshare-all"@),
            vstd::utf8::encode_utf8("--share-net"@),
            vstd::utf8::encode_utf8("--ro-bind"@),
            vstd::utf8::encode_utf8("/"@),
            vstd::utf8::encode_utf8("/"@),
            vstd::utf8::encode_utf8("--proc"@),
            vstd::utf8::encode_utf8("/proc"@),
            vstd::utf8::encode_utf8("--dev"@),
            vstd::utf8::encode_utf8("/dev"@),
        ]);
    } else {
        assert(first =~= seq![
            vstd::utf8::encode_utf8("bwrap"@),
            vstd::utf8::encode_utf8("--unshare-all"@),
            vstd::utf8::encode_utf8("--ro-bind"@),
            vstd::utf8::encode_utf8("/"@),
            vstd::utf8::encode_utf8("/"@),
            vstd::utf8::encode_utf8("--proc"@),
            vstd::utf8::encode_utf8("/proc"@),
            vstd::utf8::encode_utf8("--dev"@),
            vstd::utf8::encode_utf8("/dev"@),
        ]);
    }
    assert forall|i: int| 0 <= i < mounts.len() implies all.subrange(base + 3 * i, base + 3 * i + 3)
        == seq![vstd::utf8::encode_utf8("--bind"@), #[trigger] mounts[i], mounts[i]] by {
        mounts_are_identity_mounts(mounts, i);
        assert(all.subrange(base + 3 * i, base + 3 * i + 3) =~= writable.subrange(
            3 * i,
            3 * i + 3,
        ));
    }
    assert(all.subrange(own, end) =~= bindings_options(env));
    if tool.inherit_env != Some(true) {
        assert(all[own - 1] == vstd::utf8::encode_utf8("--clearenv"@));
    }
    assert(all[end] == vstd::utf8::encode_utf8("--seccomp"@));
    assert(all[end + 1] == decimal(filter as nat));
    assert(all[end + 2] == vstd::utf8::encode_utf8("--"@));
    assert(all.len() == end + 3 + command.len());
    assert forall|i: int| 0 <= i < command.len() implies all[end + 3 + i]
        == vstd::utf8::encode_utf8(#[trigger] command[i]) by {
        assert(encoded(command)[i] == vstd::utf8::encode_utf8(command[i]));
    }
}

/// A run has the arguments of its tool, for the paths that are mounted and the
/// variables as they are settled.
pub proof fn runs_use_what_was_found(
    tool: Tool,
    states: Seq<Mounting>,
    hosts: Seq<Option<Seq<u8>>>,
    filter: u32,
    command: Seq<Seq<char>>,
)
    ensures
        run_arguments(tool, states, hosts, filter, command) == arguments(
            tool,
            bound_paths(states),
            settled_bindings(tool.env, hosts),
            filter,
            command,
        ),
{
}

/// Strings are refused exactly if a NUL stands somewhere in one of them.
pub proof fn only_nul_is_refused(strings: Seq<Seq<u8>>)
    ensures
        any_nul(strings) <==> exists|i: int, k: int|
            0 <= i < strings.len() && 0 <= k < strings[i].len() && #[trigger] strings[i][k] == 0u8,
{
    if any_nul(strings) {
        let i = choose|i: int| 0 <= i < strings.len() && (#[trigger] strings[i]).contains(0u8);
        let k = strings[i].index_of(0u8);
        assert(strings[i][k] == 0u8);
    }
    if exists|i: int, k: int|
        0 <= i < strings.len() && 0 <= k < strings[i].len() && #[trigger] strings[i][k] == 0u8 {
        let (i, k) = choose|i: int, k: int|
            0 <= i < strings.len() && 0 <= k < strings[i].len() && #[trigger] strings[i][k] == 0u8;
        assert(strings[i].contains(0u8));
    }
}

/// Every variable of the host is handed on, in order, with an equals sign between
/// its key and its value.
pub proof fn host_variables_are_handed_on(variables: Seq<(Seq<u8>, Seq<u8>)>, i: int)
    requires
        0 <= i < variables.len(),
    ensures
        environment_strings(variables).len() == variables.len(),
        environment_strings(variables)[i] == variables[i].0 + seq![0x3du8] + variables[i].1,
{
    assert(environment_strings(variables)[i] =~= variables[i].0 + seq![0x3du8] + variables[i].1);
}

/// The message for refused arguments says that one holds a NUL byte.
pub proof fn messages_for_refused_arguments()
    ensures
        ArgumentError::NulByte.text() == "Argument contains a NUL byte"@,
{
}

} // verus!
