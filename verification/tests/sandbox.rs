use agent_run::command::{
    assign, host_environment, sandbox_arguments, settle_environment, writable_paths, ArgumentError,
};
use agent_run::config::Config;
use agent_run::environment::EnvironmentVariable;
use agent_run::launch::{
    advance_launch, executable_flags, plain_flags, seals, settle_child, BubblewrapError,
    ChildStatus, Launch, LaunchEvent, MODE,
};
use agent_run::mount::{
    advance_mount, expand_tilde, home_lookup, missing_mount_warning, resolve_path, HomeLookup,
    MountError, MountEvent, MountState,
};
use agent_run::seccomp::{
    filter_bytes, jump, statement, tiocsti_filter, Arch, ByteOrder, SockFilter, AARCH64_IOCTL,
    ALLOW, ARCH_OFFSET, ARGUMENT_1_OFFSET, AUDIT_ARCH_AARCH64, AUDIT_ARCH_ARM, AUDIT_ARCH_I386,
    AUDIT_ARCH_X86_64, DENY, JUMP_EQUAL, KILL_PROCESS, LOAD_WORD, RETURN, SYSCALL_OFFSET, TIOCSTI,
    X86_64_IOCTL,
};
use agent_run::tracing::{enabled, level_from, Level};

fn resolve(path: &str, home: Option<&str>) -> Result<MountState, MountError> {
    let config = b"/tmp/test/config.toml".to_vec();
    resolve_path(path, home.map(str::to_string), Some(&config), &b"/cwd".to_vec())
}

#[test]
fn missing_mounts_are_warned_about_and_skipped() {
    let relative = resolve("missing-relative", None).unwrap();
    assert!(matches!(&relative, MountState::Canonicalize(path)
        if path == b"/tmp/test/missing-relative"));
    assert!(matches!(advance_mount(relative, MountEvent::NotFound), MountState::Skip(path)
        if path == b"/tmp/test/missing-relative"));

    let absolute = resolve("/tmp/test/missing-absolute", None).unwrap();
    assert!(matches!(&absolute, MountState::Probe(path)
        if path == b"/tmp/test/missing-absolute"));
    assert!(matches!(advance_mount(absolute, MountEvent::Exists(false)), MountState::Skip(path)
        if path == b"/tmp/test/missing-absolute"));

    let warning = missing_mount_warning("/tmp/test/missing-absolute");
    assert_eq!(
        warning,
        "Warning: Mount path /tmp/test/missing-absolute does not exist, skipping"
    );
}

#[test]
fn home_tilde_mount_is_expanded() {
    assert!(matches!(home_lookup("~/writable"), HomeLookup::Current));
    let state = resolve("~/writable", Some("/tmp/test/home")).unwrap();
    assert!(matches!(&state, MountState::Probe(path) if path == b"/tmp/test/home/writable"));
    assert!(matches!(advance_mount(state, MountEvent::Exists(true)), MountState::Bind(path)
        if path == b"/tmp/test/home/writable"));
}

#[test]
fn nul_in_mount_is_a_normal_error() {
    let error = resolve("/tmp/\0", None).unwrap_err();
    assert_eq!(error, MountError::NulByte);
    assert!(error.message().contains("NUL byte"));
    assert_eq!(resolve("a\0b", None).unwrap_err(), MountError::NulByte);
    assert_eq!(resolve("~\0/x", Some("/home/user")).unwrap_err(), MountError::NulByte);
    assert_eq!(resolve("~/x", Some("/home/\0")).unwrap_err(), MountError::NulByte);
}

#[test]
fn tildes_are_told_apart() {
    assert!(matches!(home_lookup("~"), HomeLookup::Current));
    assert!(matches!(home_lookup("~root/x"), HomeLookup::Named(name) if name == "root"));
    assert!(matches!(home_lookup("~root"), HomeLookup::Named(name) if name == "root"));
    assert!(matches!(home_lookup("a~"), HomeLookup::NotNeeded));
    assert!(matches!(home_lookup(""), HomeLookup::NotNeeded));

    let home = || Some("/home/user".to_string());
    assert_eq!(expand_tilde("~", home()), "/home/user");
    assert_eq!(expand_tilde("~/.cache", home()), "/home/user/.cache");
    assert_eq!(expand_tilde("~other/x", Some("/srv/other".to_string())), "/srv/other/x");
    assert_eq!(expand_tilde("~other/x", None), "~other/x");
    assert_eq!(expand_tilde("~/x", None), "~/x");
    assert_eq!(expand_tilde("/tmp/~", home()), "/tmp/~");
    assert_eq!(expand_tilde("..", home()), "..");
}

#[test]
fn expansion_agrees_with_shellexpand() {
    let home = shellexpand::tilde("~").into_owned();
    for path in ["~", "~/x/y", "/a", "b/c", "", "x~"] {
        assert_eq!(expand_tilde(path, Some(home.clone())), shellexpand::tilde(path));
    }
}

#[test]
fn relative_mounts_start_at_the_configuration_file() {
    assert!(matches!(resolve("..", None).unwrap(), MountState::Canonicalize(path)
        if path == b"/tmp/test/.."));
    let current = b"/cwd".to_vec();
    let without = resolve_path("x", None, None, &current).unwrap();
    assert!(matches!(without, MountState::Canonicalize(path) if path == b"x"));
    let rootless = resolve_path("x", None, Some(&b"/".to_vec()), &current).unwrap();
    assert!(matches!(rootless, MountState::Canonicalize(path) if path == b"/cwd/x"));
    let bare = resolve_path("x", None, Some(&b"config.toml".to_vec()), &current).unwrap();
    assert!(matches!(bare, MountState::Canonicalize(path) if path == b"x"));
    let odd = resolve_path("x", None, Some(&b"/\xff/config.toml".to_vec()), &current).unwrap();
    assert!(matches!(odd, MountState::Canonicalize(path) if path == b"/\xff/x"));
}

#[test]
fn mounts_end_as_they_are_found() {
    let start = || MountState::Canonicalize(b"a".to_vec());
    let probed = advance_mount(start(), MountEvent::Canonical(b"/x/a".to_vec()));
    assert!(matches!(&probed, MountState::Probe(path) if path == b"/x/a"));
    assert!(matches!(advance_mount(probed, MountEvent::Exists(true)), MountState::Bind(path)
        if path == b"/x/a"));
    assert!(matches!(advance_mount(start(), MountEvent::Failed), MountState::Fail(path)
        if path == b"a"));
    assert!(matches!(
        advance_mount(start(), MountEvent::Exists(true)),
        MountState::Canonicalize(_)
    ));
    assert!(matches!(
        advance_mount(MountState::Bind(b"a".to_vec()), MountEvent::NotFound),
        MountState::Bind(_)
    ));
}

#[test]
fn resolved_paths_resolve_to_themselves() {
    let first = resolve("x/y", None).unwrap();
    let canonical = MountEvent::Canonical("/tmp/test/\u{fc}/y".as_bytes().to_vec());
    let MountState::Probe(place) = advance_mount(first, canonical) else { panic!("not probed") };
    let text = String::from_utf8(place.clone()).unwrap();
    for home in [None, Some("/home/user".to_string())] {
        for config in [None, Some(b"elsewhere/config.toml".to_vec())] {
            let again = resolve_path(&text, home.clone(), config.as_ref(), &b"/cwd".to_vec());
            assert!(matches!(again.unwrap(), MountState::Probe(path) if path == place));
        }
    }
}

#[test]
fn only_bound_paths_are_writable() {
    let paths = writable_paths(vec![
        MountState::Bind(b"/a".to_vec()),
        MountState::Skip(b"/b".to_vec()),
        MountState::Probe(b"/c".to_vec()),
        MountState::Bind(b"/d".to_vec()),
        MountState::Fail(b"/e".to_vec()),
        MountState::Canonicalize(b"f".to_vec()),
    ]);
    assert_eq!(paths, [b"/a".to_vec(), b"/d".to_vec()]);
}

#[test]
fn variables_are_settled_one_by_one() {
    let env = ["A=1", "B", "C"]
        .iter()
        .map(|text| EnvironmentVariable::deserialize(text).unwrap())
        .collect();
    let host = vec![Some(b"0".to_vec()), Some(b"\xff".to_vec()), None];
    let settled: Vec<(String, Option<Vec<u8>>)> = settle_environment(env, host)
        .into_iter()
        .map(|assignment| (assignment.key, assignment.value))
        .collect();
    assert_eq!(
        settled,
        [
            ("A".to_string(), Some(b"1".to_vec())),
            ("B".to_string(), Some(b"\xff".to_vec())),
            ("C".to_string(), None),
        ]
    );
}

#[test]
fn child_exit_status_is_propagated() {
    assert_eq!(settle_child(ChildStatus::Exited(0)), Launch::Finished(0));
    assert_eq!(settle_child(ChildStatus::Exited(42)), Launch::Finished(42));
    assert_eq!(settle_child(ChildStatus::Exited(256 + 7)), Launch::Finished(7));
    assert_eq!(settle_child(ChildStatus::Exited(-1)), Launch::Finished(255));
    assert_eq!(
        settle_child(ChildStatus::Signaled(9)),
        Launch::Failed(BubblewrapError::BwrapSignaled(9))
    );
    assert_eq!(
        settle_child(ChildStatus::Other(0xffff)),
        Launch::Failed(BubblewrapError::BwrapUnexpectedStatus(0xffff))
    );
}

#[test]
fn launches_run_through_their_steps() {
    let mut step = Launch::CreateExecutable;
    for (event, next) in [
        (LaunchEvent::Failed(libc::EINVAL), Launch::CreatePlain),
        (LaunchEvent::Done, Launch::Write),
        (LaunchEvent::Done, Launch::Protect),
        (LaunchEvent::Done, Launch::Seal),
        (LaunchEvent::Done, Launch::Fork),
        (LaunchEvent::Parent, Launch::Close),
        (LaunchEvent::Done, Launch::Wait),
        (LaunchEvent::Ended(ChildStatus::Exited(3)), Launch::Finished(3)),
        (LaunchEvent::Done, Launch::Finished(3)),
    ] {
        step = advance_launch(step, event);
        assert_eq!(step, next);
    }
}

#[test]
fn files_are_made_for_their_owner_to_run() {
    assert_eq!(
        executable_flags(),
        libc::MFD_CLOEXEC | libc::MFD_ALLOW_SEALING | libc::MFD_EXEC
    );
    assert_eq!(plain_flags(), libc::MFD_CLOEXEC | libc::MFD_ALLOW_SEALING);
    assert_eq!(MODE, libc::S_IRUSR | libc::S_IXUSR);
    assert_eq!(
        seals(),
        libc::F_SEAL_WRITE | libc::F_SEAL_GROW | libc::F_SEAL_SHRINK | libc::F_SEAL_SEAL
    );
}

#[test]
fn failed_steps_are_reported() {
    let failed = LaunchEvent::Failed(libc::ENOMEM);
    for (step, error) in [
        (Launch::CreateExecutable, BubblewrapError::MemfdCreate(libc::ENOMEM)),
        (Launch::CreatePlain, BubblewrapError::MemfdCreate(libc::ENOMEM)),
        (Launch::Write, BubblewrapError::Write(libc::ENOMEM)),
        (Launch::Protect, BubblewrapError::Fchmod(libc::ENOMEM)),
        (Launch::Seal, BubblewrapError::Fcntl(libc::ENOMEM)),
        (Launch::Fork, BubblewrapError::Fork(libc::ENOMEM)),
        (Launch::Execute, BubblewrapError::Execveat(libc::ENOMEM)),
        (Launch::Close, BubblewrapError::MemfdClose(libc::ENOMEM)),
        (Launch::Wait, BubblewrapError::Waitpid(libc::ENOMEM)),
    ] {
        assert_eq!(advance_launch(step, failed), Launch::Failed(error));
    }
    assert_eq!(
        advance_launch(Launch::CreatePlain, LaunchEvent::Failed(libc::EINVAL)),
        Launch::Failed(BubblewrapError::MemfdCreate(libc::EINVAL))
    );
    assert_eq!(advance_launch(Launch::Fork, LaunchEvent::Child), Launch::Execute);
}

#[test]
fn non_utf8_inherited_environment_is_preserved() {
    let variables = vec![
        (b"NON_UTF8_TEST".to_vec(), b"\xffvalue".to_vec()),
        (b"EMPTY".to_vec(), b"".to_vec()),
    ];
    let strings = host_environment(&variables).unwrap();
    assert_eq!(strings, [b"NON_UTF8_TEST=\xffvalue".to_vec(), b"EMPTY=".to_vec()]);
}

#[test]
fn nul_in_arguments_is_a_normal_error() {
    let tool = Config::default().global;
    let command = vec!["tool".to_string()];
    let nul = vec![b"/tmp/\0".to_vec()];
    let error = sandbox_arguments(&tool, &nul, &vec![], 3, &command).unwrap_err();
    assert_eq!(error, ArgumentError::NulByte);
    assert_eq!(error.message(), "Argument contains a NUL byte");
    let broken = vec!["to\0ol".to_string()];
    assert!(sandbox_arguments(&tool, &vec![], &vec![], 3, &broken).is_err());
    let variable = EnvironmentVariable::deserialize("A").unwrap();
    let env = vec![assign(variable, Some(b"\0".to_vec()))];
    assert!(sandbox_arguments(&tool, &vec![], &env, 3, &command).is_err());
    assert!(host_environment(&vec![(b"A\0".to_vec(), vec![])]).is_err());
}

#[test]
fn filter_stands_before_the_command() {
    let mut tool = Config::default().global;
    tool.inherit_env = Some(false);
    let command = vec!["tool".to_string()];
    for (filter, digits) in [(0, "0"), (9, "9"), (10, "10"), (1203, "1203")] {
        let arguments = sandbox_arguments(&tool, &vec![], &vec![], filter, &command).unwrap();
        let end = arguments.len();
        assert_eq!(arguments[end - 4], b"--seccomp");
        assert_eq!(arguments[end - 3], digits.as_bytes());
        assert_eq!(arguments[end - 2], b"--");
        assert_eq!(arguments[end - 5], b"--clearenv");
    }
}

#[test]
fn standard_arguments_are_complete() {
    let tool = Config::default().global;
    let command = vec!["tool".to_string(), "--".to_string(), "".to_string()];
    let arguments = sandbox_arguments(&tool, &vec![], &vec![], 4_294_967_295, &command).unwrap();
    let texts: Vec<String> =
        arguments.into_iter().map(|argument| String::from_utf8(argument).unwrap()).collect();
    assert_eq!(
        texts,
        [
            "bwrap", "--unshare-all", "--share-net", "--ro-bind", "/", "/", "--proc", "/proc",
            "--dev", "/dev", "--seccomp", "4294967295", "--", "tool", "--", "",
        ]
    );
}

/// Runs a filter on the words of a system call.
fn run(filter: &[SockFilter], words: &[u32; 16]) -> u32 {
    let mut pc = 0;
    let mut accumulator = 0;
    loop {
        let instruction = filter[pc];
        pc += 1;
        if instruction.code == LOAD_WORD {
            accumulator = words[instruction.k as usize / 4];
        } else if instruction.code == JUMP_EQUAL {
            let taken = accumulator == instruction.k;
            pc += if taken { instruction.jt } else { instruction.jf } as usize;
        } else {
            assert_eq!(instruction.code, RETURN);
            return instruction.k;
        }
    }
}

fn call(arch: u32, number: u32, request: u32) -> [u32; 16] {
    let mut words = [0u32; 16];
    words[0] = number;
    words[1] = arch;
    words[6] = request;
    words
}

#[test]
fn terminal_tiocsti_is_blocked_but_terminal_remains_attached() {
    let request = libc::TIOCSTI as u32;
    let harmless = libc::TIOCGWINSZ as u32;
    for (arch, convention, number) in [
        (Arch::X86_64, AUDIT_ARCH_X86_64, 16),
        (Arch::X86_64, AUDIT_ARCH_X86_64, 0x4000_0000 + 514),
        (Arch::X86_64, AUDIT_ARCH_I386, 54),
        (Arch::Aarch64, AUDIT_ARCH_AARCH64, 29),
        (Arch::Aarch64, AUDIT_ARCH_ARM, 54),
    ] {
        let filter = tiocsti_filter(arch);
        let denied = run(&filter, &call(convention, number, request));
        assert_eq!(denied, libc::SECCOMP_RET_ERRNO | libc::EPERM as u32);
        assert_eq!(run(&filter, &call(convention, number, harmless)), libc::SECCOMP_RET_ALLOW);
        assert_eq!(run(&filter, &call(convention, 3, request)), libc::SECCOMP_RET_ALLOW);
        let mut upper = call(convention, number, request);
        upper[7] = 1;
        assert_eq!(run(&filter, &upper), DENY);
    }
    for (arch, foreign) in [
        (Arch::X86_64, AUDIT_ARCH_ARM),
        (Arch::X86_64, AUDIT_ARCH_AARCH64),
        (Arch::Aarch64, AUDIT_ARCH_X86_64),
        (Arch::Aarch64, 0),
    ] {
        let killed = run(&tiocsti_filter(arch), &call(foreign, 54, request));
        assert_eq!(killed, libc::SECCOMP_RET_KILL_PROCESS);
    }
}

#[test]
fn numbers_are_those_of_the_kernel() {
    assert_eq!(LOAD_WORD as u32, libc::BPF_LD | libc::BPF_W | libc::BPF_ABS);
    assert_eq!(JUMP_EQUAL as u32, libc::BPF_JMP | libc::BPF_JEQ | libc::BPF_K);
    assert_eq!(RETURN as u32, libc::BPF_RET | libc::BPF_K);
    assert_eq!(KILL_PROCESS, libc::SECCOMP_RET_KILL_PROCESS);
    assert_eq!(ALLOW, libc::SECCOMP_RET_ALLOW);
    assert_eq!(DENY, libc::SECCOMP_RET_ERRNO | libc::EPERM as u32);
    assert_eq!(TIOCSTI, libc::TIOCSTI as u32);
    assert!([X86_64_IOCTL, AARCH64_IOCTL].contains(&(libc::SYS_ioctl as u32)));
    assert_eq!(agent_run::launch::EINVAL, libc::EINVAL);
    // The description of a call is two words, a long word and six arguments.
    assert_eq!(SYSCALL_OFFSET, 0);
    assert_eq!(ARCH_OFFSET, 4);
    assert_eq!(ARGUMENT_1_OFFSET, 4 + 4 + 8 + 8);
    assert_eq!(std::mem::size_of::<libc::seccomp_data>(), 4 + 4 + 8 + 6 * 8);
}

#[test]
fn instructions_are_written_byte_by_byte() {
    let program = vec![statement(LOAD_WORD, 0x0102_0304), jump(0x5412, 7, 9)];
    assert_eq!(
        filter_bytes(&program, ByteOrder::Little),
        [0x20, 0, 0, 0, 4, 3, 2, 1, 0x15, 0, 7, 9, 0x12, 0x54, 0, 0]
    );
    assert_eq!(
        filter_bytes(&program, ByteOrder::Big),
        [0, 0x20, 0, 0, 1, 2, 3, 4, 0, 0x15, 7, 9, 0, 0, 0x54, 0x12]
    );
    for instruction in tiocsti_filter(Arch::X86_64) {
        let bytes = filter_bytes(&vec![instruction], ByteOrder::Little);
        assert_eq!(bytes[..2], instruction.code.to_le_bytes());
        assert_eq!(bytes[2..4], [instruction.jt, instruction.jf]);
        assert_eq!(bytes[4..], instruction.k.to_le_bytes());
    }
    assert_eq!(tiocsti_filter(Arch::X86_64).len(), 13);
    assert_eq!(tiocsti_filter(Arch::Aarch64).len(), 12);
}

#[test]
fn levels_are_chosen_and_ordered() {
    assert_eq!(level_from(Some("trace")), Level::Trace);
    assert_eq!(level_from(Some("debug")), Level::Debug);
    assert_eq!(level_from(Some("TRACE")), Level::Off);
    assert_eq!(level_from(Some("")), Level::Off);
    assert_eq!(level_from(None), Level::Off);
    assert!(enabled(Level::Debug, Level::Trace));
    assert!(enabled(Level::Debug, Level::Debug));
    assert!(!enabled(Level::Trace, Level::Debug));
    assert!(!enabled(Level::Debug, Level::Off));
    assert!(Level::Off < Level::Debug && Level::Debug < Level::Trace);
    assert!(Level::Trace > Level::Off && Level::Debug <= Level::Debug);
}
