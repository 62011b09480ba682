use std::collections::BTreeMap;
use std::path::PathBuf;
use std::time::Duration;

use agent_run::command::{assign, sandbox_arguments, tool_arguments};
use agent_run::config::{merge_configs, select_tool, Config, ToolConfig};
use agent_run::document::{parse_document, Node, Span};
use agent_run::environment::{EntryError, EnvironmentVariable, EnvironmentVariableValue};
use agent_run::mount::MountState;
use agent_run::schema::{decode_config, decode_entries, parse_config, ConfigError, Scope};
use agent_run::search::{ConfigSearch, SearchStep};

fn entries(tool: &ToolConfig) -> Vec<String> {
    tool.env.iter().map(|variable| variable.serialize()).collect()
}

fn texts(texts: &[&str]) -> Vec<Node> {
    let place = Span { start: 0, end: 0 };
    texts.iter().map(|text| Node::Text(place, text.to_string())).collect()
}

fn rejection(contents: &str) -> String {
    match parse_config(contents) {
        Ok(config) => panic!("accepted: {:?}", config),
        Err(error) => error.message(),
    }
}

fn assert_standard(config: &Config) {
    assert_eq!(config.global.network, Some(true));
    assert_eq!(config.global.inherit_env, Some(true));
    assert!(config.global.mount.is_empty());
    assert!(config.global.env.is_empty());
    assert!(config.tools.is_empty());
}

#[test]
fn no_config_and_default_configs_work() {
    assert_standard(&Config::default());
    for contents in ["", "[global]\nnetwork = true\ninherit_env = true\n"] {
        assert_standard(&parse_config(contents).unwrap());
    }
}

#[test]
fn nearest_config_is_discovered() {
    let mut search = ConfigSearch::new(b"/tmp/test/one/two".to_vec());
    let path = loop {
        let exists = search.candidate() == b"/tmp/test/.agent-run/config.toml";
        match search.advance(exists) {
            SearchStep::Found(path) => break path,
            SearchStep::Continue(next) => search = next,
            SearchStep::Exhausted => panic!("not found"),
        }
    };
    assert_eq!(path, b"/tmp/test/.agent-run/config.toml");

    let config = parse_config(
        "[global]\ninherit_env = false\n\
         env = [\"FOUND=nearest\", \"AGENT_RUN_TEST_HELPER\"]\n",
    )
    .unwrap();
    assert_eq!(config.global.inherit_env, Some(false));
    assert_eq!(entries(&config.global), ["FOUND=nearest", "AGENT_RUN_TEST_HELPER"]);
}

#[test]
fn unknown_fields_are_rejected() {
    for contents in [
        "unknown = true\n",
        "[global]\nnetwrok = false\n",
        "[tools.example]\nunknown = true\n",
    ] {
        assert!(rejection(contents).contains("unknown field"));
    }
    assert!(matches!(
        parse_config("[global]\nnetwrok = false\n"),
        Err(ConfigError::UnknownField(Span { start: 9, end: 16 }, Scope::Tool, name))
            if name == "netwrok"
    ));
}

#[test]
fn empty_environment_names_are_rejected() {
    for entry in ["", "=value"] {
        let text = rejection(&format!("[global]\nenv = [\"{entry}\"]\n"));
        assert!(text.contains("Environment variable key cannot be empty"));
        assert!(!text.contains("bwrap: unsetenv failed"));
    }
}

#[test]
fn duplicate_environment_entries_are_rejected() {
    for contents in [
        "[global]\nenv = [\"X=one\", \"X=two\"]\n",
        "[tools.example]\nenv = [\"X=one\", \"X=two\"]\n",
    ] {
        assert!(rejection(contents).contains("Duplicate environment variable entries"));
    }
    let place = Span { start: 3, end: 5 };
    assert!(matches!(
        decode_entries(place, &texts(&["A", "B=1", "A=2"])),
        Err(ConfigError::DuplicateEntry(Span { start: 3, end: 5 }, key)) if key == "A"
    ));
    assert_eq!(decode_entries(place, &texts(&["A", "B=1"])).unwrap().len(), 2);
}

#[test]
fn tool_environment_overrides_global_environment() {
    let config = parse_config(
        "[global]\ninherit_env = false\nenv = [\"X=global\", \
         \"AGENT_RUN_TEST_HELPER\"]\n\n[tools.override-tool]\nenv = [\"X=tool\"]\n",
    )
    .unwrap();
    let tool = select_tool(config, "override-tool");
    assert_eq!(entries(&tool), ["X=tool", "AGENT_RUN_TEST_HELPER"]);
    assert_eq!(tool.inherit_env, Some(false));
    assert_eq!(tool.network, Some(true));
}

#[test]
fn environment_values_may_contain_equals() {
    let config = parse_config(
        "[global]\ninherit_env = false\nenv = [\"FOO=a=b\", \
         \"AGENT_RUN_TEST_HELPER\"]\n",
    )
    .unwrap();
    let foo = &config.global.env[0];
    assert_eq!(foo.key, "FOO");
    assert!(matches!(&foo.value, EnvironmentVariableValue::Literal(value) if value == "a=b"));
}

#[test]
fn nul_in_environment_is_a_normal_error() {
    for contents in [
        "[global]\nenv = [\"X=\\u0000\"]\n",
        "[global]\nenv = [\"\\u0000=value\"]\n",
    ] {
        assert!(rejection(contents).contains("NUL byte"));
    }
}

#[test]
fn network_setting_controls_network_namespace() {
    for enabled in [true, false] {
        let config = parse_config(&format!("[global]\nnetwork = {enabled}\n")).unwrap();
        let tool = select_tool(config, "noop");
        let arguments =
            sandbox_arguments(&tool, &vec![], &vec![], 3, &vec!["noop".to_string()]).unwrap();
        assert_eq!(arguments[1], b"--unshare-all");
        assert_eq!(arguments[2] == b"--share-net", enabled);
    }
}

#[test]
fn non_utf8_selected_environment_is_preserved() {
    let config = parse_config(
        "[global]\ninherit_env = false\nenv = [\"NON_UTF8_TEST\", \
         \"AGENT_RUN_TEST_HELPER\"]\n",
    )
    .unwrap();
    let mut tool = select_tool(config, "noop");
    let helper = tool.env.pop().unwrap();
    let selected = tool.env.pop().unwrap();
    let env = vec![
        assign(selected, Some(b"\xffselected".to_vec())),
        assign(helper, Some(b"print_non_utf8".to_vec())),
    ];
    let arguments =
        sandbox_arguments(&tool, &vec![], &env, 3, &vec!["noop".to_string()]).unwrap();
    let at = arguments.iter().position(|argument| argument == b"--clearenv").unwrap();
    assert_eq!(arguments[at + 1], b"--setenv");
    assert_eq!(arguments[at + 2], b"NON_UTF8_TEST");
    assert_eq!(arguments[at + 3], b"\xffselected");
}

#[test]
fn mount_and_environment_isolation() {
    let config = parse_config(
        "[global]\nmount = [\"project\"]\ninherit_env = false\nenv = [\
         \"PASSED=literal\", \"INHERITED\", \"UNSET\", \
         \"AGENT_RUN_TEST_HELPER\"]\n",
    )
    .unwrap();
    let tool = select_tool(config, "noop");
    assert_eq!(tool.mount, ["project"]);
    let host: Vec<Option<Vec<u8>>> = tool
        .env
        .iter()
        .map(|variable| match variable.key.as_str() {
            "INHERITED" => Some(b"host".to_vec()),
            "AGENT_RUN_TEST_HELPER" => Some(b"mount_and_environment".to_vec()),
            _ => None,
        })
        .collect();
    let states = vec![MountState::Bind(b"/tmp/test/project".to_vec())];
    let command = vec!["noop".to_string(), "--exact".to_string()];
    let arguments = tool_arguments(tool, states, host, 10, &command).unwrap();
    let expected: Vec<&str> = vec![
        "bwrap", "--unshare-all", "--share-net", "--ro-bind", "/", "/", "--proc", "/proc", "--dev",
        "/dev", "--bind", "/tmp/test/project", "/tmp/test/project", "--clearenv", "--setenv",
        "PASSED", "literal", "--setenv", "INHERITED", "host", "--unsetenv", "UNSET", "--setenv",
        "AGENT_RUN_TEST_HELPER", "mount_and_environment", "--seccomp", "10", "--", "noop",
        "--exact",
    ];
    let texts: Vec<String> =
        arguments.into_iter().map(|argument| String::from_utf8(argument).unwrap()).collect();
    assert_eq!(texts, expected);
}

#[test]
fn unmatched_tools_run_under_the_global_configuration() {
    let contents = "[global]\nmount = [\"..\"]\n[tools.pi]\nnetwork = false\nmount = [\"/tmp\"]\n";
    let global = select_tool(parse_config(contents).unwrap(), "codex");
    assert_eq!(global.network, Some(true));
    assert_eq!(global.mount, [".."]);
    let tool = select_tool(parse_config(contents).unwrap(), "pi");
    assert_eq!(tool.network, Some(false));
    assert_eq!(tool.inherit_env, Some(true));
    assert_eq!(tool.mount, ["..", "/tmp"]);
}

/// The message and the place with which a text is refused.
fn refusal(contents: &str) -> (String, Option<(usize, usize)>) {
    let error = parse_config(contents).unwrap_err();
    (error.message(), error.place().map(|place| (place.start, place.end)))
}

/// The message and the place of an error of the parser.
fn parser_refusal<T>(result: Result<T, toml::de::Error>) -> (String, Option<(usize, usize)>) {
    let error = result.map(|_| ()).unwrap_err();
    (error.message().to_string(), error.span().map(|span| (span.start, span.end)))
}

const VALUES: [&str; 22] = [
    "true",
    "false",
    "\"y\\\"\u{fc}\\n\"",
    "1",
    "-17",
    "0x10",
    "9223372036854775808",
    "99999999999999999999999",
    "999999999999999999999999999999999999999999",
    "1.5",
    "2.0",
    "1e400",
    "+1_000",
    "-0",
    "0b1010",
    "0o17",
    "-inf",
    "nan",
    "6.02e+2_3",
    "1979-05-27",
    "[1, 2]",
    "{ x = 1 }",
];

#[test]
fn wrong_types_are_rejected() {
    for value in VALUES {
        let flag = format!("[global]\nnetwork = {value}\n");
        let direct = toml::from_str::<BTreeMap<String, BTreeMap<String, bool>>>(&flag);
        if direct.is_err() {
            assert_eq!(refusal(&flag), parser_refusal(direct));
        } else {
            assert!(parse_config(&flag).is_ok());
        }

        let mount = format!("[tools.pi]\nmount = [\"a\", {value}, 3]\n");
        type Paths = BTreeMap<String, BTreeMap<String, BTreeMap<String, Vec<PathBuf>>>>;
        assert_eq!(refusal(&mount), parser_refusal(toml::from_str::<Paths>(&mount)));

        let env = format!("global = {{ env = [\"A=1\", {value}, 3] }}\n");
        type Texts = BTreeMap<String, BTreeMap<String, Vec<String>>>;
        if !value.starts_with('"') {
            assert_eq!(refusal(&env), parser_refusal(toml::from_str::<Texts>(&env)));
        }

        for field in ["mount", "env"] {
            let list = format!("global.{field} = {value}\n");
            type Lists = BTreeMap<String, BTreeMap<String, Vec<bool>>>;
            if !value.starts_with('[') {
                assert_eq!(refusal(&list), parser_refusal(toml::from_str::<Lists>(&list)));
            }
        }

        let tools = format!("tools = {value}\n");
        type Tools = BTreeMap<String, BTreeMap<String, Duration>>;
        if !value.starts_with('{') {
            let (message, place) = parser_refusal(toml::from_str::<Tools>(&tools));
            let message = message.replace("struct Duration", "struct ToolConfig");
            assert_eq!(refusal(&tools), (message, place));
        }

        let tool = format!("[tools]\npi = {value}\n");
        if !value.starts_with('[') {
            let (message, place) = parser_refusal(toml::from_str::<Tools>(&tool));
            let message = message
                .replace("struct Duration", "struct ToolConfig")
                .replace("`secs` or `nanos`", "one of `network`, `inherit_env`, `mount`, `env`");
            assert_eq!(refusal(&tool), (message, place));
        }
    }
    assert_eq!(
        refusal("[global]\nnetwork = \"yes\"\n"),
        ("invalid type: string \"yes\", expected a boolean".to_string(), Some((19, 24)))
    );
    let place = Span { start: 1, end: 2 };
    assert!(matches!(
        decode_config(&Node::Flag(place, true)),
        Err(ConfigError::WrongType(Span { start: 1, end: 2 }, message))
            if message == "invalid type: boolean `true`, expected struct Config"
    ));
}

#[test]
fn first_fault_is_reported() {
    for (contents, message) in [
        (
            "unknown = 1\n[tools.pi]\nnetwork = 1\n[global]\nenv = [\"\", 1]\n",
            "Environment variable key cannot be empty",
        ),
        (
            "[global]\nnetwork = 1\nmount = 2\n",
            "invalid type: integer `2`, expected a sequence",
        ),
        (
            "[global]\nenv = [1, \"\"]\nnetwork = 1\n",
            "invalid type: integer `1`, expected a string",
        ),
        (
            "global = [1, \"x\", 3, 4]\n",
            "invalid type: integer `1`, expected a boolean",
        ),
        (
            "zzz = 1\n[tools.pi]\naaa = true\nenv = [\"\"]\n",
            "unknown field `aaa`, expected one of `network`, `inherit_env`, `mount`, `env`",
        ),
        ("zzz = 1\n[tools]\n", "unknown field `zzz`, expected `global` or `tools`"),
    ] {
        assert_eq!(rejection(contents), message);
    }
}

#[test]
fn faults_of_entries_lie_in_their_array() {
    let contents = "[global]\nenv = [\"A\", \"=\"]\n";
    assert_eq!(
        refusal(contents),
        ("Environment variable key cannot be empty".to_string(), Some((15, 25)))
    );
    assert_eq!(&contents[15..25], "[\"A\", \"=\"]");
    assert!(parse_config("[").unwrap_err().place().is_none());
}

#[test]
fn arrays_give_the_fields_of_a_tool_in_order() {
    assert_standard(&parse_config("global = []\n[tools]\n").unwrap());

    let contents = "global = [false, true, [\"..\"], [\"A=1\", \"B\"]]\n[tools]\npi = [true]\n";
    let config = parse_config(contents).unwrap();
    assert_eq!(config.global.network, Some(false));
    assert_eq!(config.global.inherit_env, Some(true));
    assert_eq!(config.global.mount, [".."]);
    assert_eq!(entries(&config.global), ["A=1", "B"]);
    let tool = select_tool(config, "pi");
    assert_eq!(tool.network, Some(true));
    assert_eq!(tool.mount, [".."]);

    let longer = "global = [true, true, [], [], 99999999999999999999999, \"x\"]\n";
    assert_standard(&parse_config(longer).unwrap());

    for (contents, message) in [
        ("global = [1]\n", "invalid type: integer `1`, expected a boolean"),
        ("global = [true, \"x\"]\n", "invalid type: string \"x\", expected a boolean"),
        ("global = [true, true, [1]]\n", "invalid type: integer `1`, expected path string"),
        ("[[global]]\nnetwork = true\n", "invalid type: map, expected a boolean"),
    ] {
        assert_eq!(rejection(contents), message);
    }
    assert!(rejection("global = [true, true, [], [\"X\", \"X=2\"]]\n")
        .contains("Duplicate environment variable entries"));
}

#[test]
fn tools_may_have_any_name() {
    for name in ["$__toml_private_datetime", "", "a.b", "\u{fc}"] {
        let contents = format!("[tools.\"{name}\"]\nnetwork = false\n");
        let config = parse_config(&contents).unwrap();
        assert_eq!(config.tools[0].0, name);
        assert_eq!(select_tool(config, name).network, Some(false));
    }
}

#[test]
fn broken_documents_are_rejected() {
    assert!(matches!(parse_config("[global"), Err(ConfigError::Syntax(_))));
    let direct = toml::from_str::<toml::Value>("[global").unwrap_err().to_string();
    assert_eq!(rejection("[global"), direct);
    for repeated in [
        "[global]\nnetwork = true\nnetwork = true\n",
        "[tools.pi]\n[tools.pi]\n",
        "tools = { pi = {}, pi = {} }\n",
    ] {
        assert!(matches!(parse_config(repeated), Err(ConfigError::Syntax(_))));
    }
}

#[test]
fn documents_are_read_as_trees() {
    let document = parse_document("a = true\nb = [\"x\", 2]\n[c]\nd = \"y\"\n").unwrap();
    let Node::Table(_, table) = document else { panic!("no table") };
    let names: Vec<&str> = table.iter().map(|field| field.name.as_str()).collect();
    assert_eq!(names, ["a", "b", "c"]);
    assert_eq!(table[1].place, Span { start: 9, end: 10 });
    assert!(matches!(table[0].node, Node::Flag(Span { start: 4, end: 8 }, true)));
    let Node::List(place, items) = &table[1].node else { panic!("no list") };
    assert_eq!((place.start, place.end), (13, 21));
    assert!(matches!(&items[0], Node::Text(_, text) if text == "x"));
    assert!(matches!(&items[1], Node::Number(Span { start: 19, end: 20 }, text)
        if text == "2"));
    let Node::Table(_, inner) = &table[2].node else { panic!("no table") };
    assert_eq!(inner[0].name, "d");
    assert!(matches!(&inner[0].node, Node::Text(_, text) if text == "y"));
    assert_eq!(table[2].node.place(), Span { start: 22, end: 25 });
    let date = parse_document("a = 1979-05-27\n").unwrap();
    assert!(matches!(date, Node::Table(_, fields)
        if matches!(&fields[0].node, Node::Date(_, text) if text == "1979-05-27")));
}

fn tool(network: Option<bool>, inherit_env: Option<bool>, env: &[&str]) -> ToolConfig {
    ToolConfig {
        network,
        inherit_env,
        mount: Vec::new(),
        env: env.iter().map(|text| EnvironmentVariable::deserialize(text).unwrap()).collect(),
    }
}

#[test]
fn merging_prefers_the_tool() {
    let merged = merge_configs(
        tool(Some(true), Some(false), &["A=1", "B", "C=3"]),
        tool(Some(false), None, &["D", "B=2", "D=4"]),
    );
    assert_eq!(merged.network, Some(false));
    assert_eq!(merged.inherit_env, Some(false));
    assert_eq!(entries(&merged), ["A=1", "B=2", "C=3", "D=4"]);

    let unchanged = merge_configs(tool(None, None, &["A=1"]), ToolConfig::default());
    assert_eq!(unchanged.network, None);
    assert_eq!(entries(&unchanged), ["A=1"]);
}

#[test]
fn tools_are_found_by_name_wherever_they_stand() {
    let contents = "[tools.a]\nmount = [\"1\"]\n[tools.c]\nmount = [\"3\"]\n[tools.b]\n";
    for (name, mounts) in [("a", vec!["1"]), ("b", vec![]), ("c", vec!["3"]), ("d", vec![])] {
        let tool = select_tool(parse_config(contents).unwrap(), name);
        assert_eq!(tool.mount, mounts);
        assert_eq!(tool.network, Some(true));
    }
}

#[test]
fn accepted_entries_stay_in_order() {
    let written = ["B=2", "A", "C="];
    let env = decode_entries(Span { start: 0, end: 0 }, &texts(&written)).unwrap();
    let again: Vec<String> = env.iter().map(|variable| variable.serialize()).collect();
    assert_eq!(again, written);
}

#[test]
fn entries_are_written_as_they_are_read() {
    for text in ["KEY", "KEY=", "KEY=value", "KEY=a=b", "\u{e9}=\u{fc}"] {
        assert_eq!(EnvironmentVariable::deserialize(text).unwrap().serialize(), text);
    }
    let empty = EnvironmentVariable::deserialize("KEY=").unwrap();
    assert!(matches!(empty.value, EnvironmentVariableValue::Literal(value) if value.is_empty()));
    let inherited = EnvironmentVariable::deserialize("KEY").unwrap();
    assert!(matches!(inherited.value, EnvironmentVariableValue::Inherit));
}

#[test]
fn refused_entries_have_their_error() {
    let error = |text: &str| EnvironmentVariable::deserialize(text).unwrap_err();
    assert_eq!(error(""), EntryError::EmptyKey);
    assert_eq!(error("="), EntryError::EmptyKey);
    assert_eq!(error("=\0"), EntryError::EmptyKey);
    assert_eq!(error("\0"), EntryError::NulByte);
    assert_eq!(error("A=\0"), EntryError::NulByte);
    assert_eq!(EntryError::EmptyKey.message(), "Environment variable key cannot be empty");
    assert_eq!(
        EntryError::NulByte.message(),
        "Environment variable entry contains a NUL byte"
    );
}
