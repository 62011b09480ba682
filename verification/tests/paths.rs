use agent_run::config::{tool_name, ToolNameError};
use agent_run::path::{file_name_range, is_absolute, join_path, parent_path};
use agent_run::search::{ConfigSearch, SearchStep};
use std::path::Path;

/// All strings over a slash, a dot and a letter up to the given length.
fn all_paths(length: usize) -> Vec<String> {
    let mut all = vec![String::new()];
    let mut last = vec![String::new()];
    for _ in 0..length {
        let mut next = Vec::new();
        for prefix in &last {
            for unit in ["/", ".", "a"] {
                next.push(format!("{}{}", prefix, unit));
            }
        }
        all.extend(next.iter().cloned());
        last = next;
    }
    all
}

#[test]
fn file_names_agree_with_the_standard_library() {
    for path in all_paths(7) {
        let chars: Vec<char> = path.chars().collect();
        let name = file_name_range(&chars).map(|(from, to)| path[from..to].to_string());
        let expected = Path::new(&path)
            .file_name()
            .map(|name| name.to_str().unwrap().to_string());
        assert_eq!(name, expected, "{}", path);
    }
}

#[test]
fn parents_agree_with_the_standard_library() {
    for path in all_paths(7) {
        let parent = parent_path(path.as_bytes());
        let expected = Path::new(&path)
            .parent()
            .map(|parent| parent.to_str().unwrap().as_bytes().to_vec());
        assert_eq!(parent, expected, "{}", path);
    }
}

#[test]
fn joining_agrees_with_the_standard_library() {
    for base in all_paths(3) {
        for path in all_paths(3) {
            let joined = join_path(base.as_bytes(), path.as_bytes());
            let expected = Path::new(&base).join(&path);
            assert_eq!(joined, expected.to_str().unwrap().as_bytes(), "{} {}", base, path);
        }
    }
}

#[test]
fn absoluteness_agrees_with_the_standard_library() {
    for path in all_paths(4) {
        assert_eq!(is_absolute(path.as_bytes()), Path::new(&path).is_absolute());
    }
}

#[test]
fn tools_are_named_by_the_basename_of_the_command() {
    let command = |first: &str| vec![first.to_string(), "--flag".to_string()];
    assert_eq!(tool_name(&command("codex")), Ok("codex".to_string()));
    assert_eq!(tool_name(&command("/usr/bin/pi")), Ok("pi".to_string()));
    assert_eq!(tool_name(&command("bin/./opencode/")), Ok("opencode".to_string()));
    assert_eq!(tool_name(&command("/opt/\u{fc}ber")), Ok("\u{fc}ber".to_string()));
    assert_eq!(tool_name(&[]), Err(ToolNameError::NoCommand));
    for invalid in ["", "/", "..", "a/..", "."] {
        assert_eq!(tool_name(&command(invalid)), Err(ToolNameError::InvalidCommand));
    }
    assert_eq!(ToolNameError::NoCommand.message(), "No command specified");
    assert_eq!(
        ToolNameError::InvalidCommand.message(),
        "Failed to get tool name from command"
    );
}

fn search(start: &str, present: &str) -> (Option<Vec<u8>>, Vec<String>) {
    let mut seen = Vec::new();
    let mut search = ConfigSearch::new(start.as_bytes().to_vec());
    loop {
        let candidate = search.candidate();
        seen.push(String::from_utf8(candidate.clone()).unwrap());
        match search.advance(candidate == present.as_bytes()) {
            SearchStep::Found(path) => return (Some(path), seen),
            SearchStep::Continue(next) => search = next,
            SearchStep::Exhausted => return (None, seen),
        }
    }
}

#[test]
fn closest_candidate_wins() {
    let (found, seen) = search("/a/b", "/a/.agent-run/config.toml");
    assert_eq!(found, Some(b"/a/.agent-run/config.toml".to_vec()));
    assert_eq!(seen, ["/a/b/.agent-run/config.toml", "/a/.agent-run/config.toml"]);

    let (found, seen) = search("/a/b", "/elsewhere");
    assert_eq!(found, None);
    assert_eq!(
        seen,
        [
            "/a/b/.agent-run/config.toml",
            "/a/.agent-run/config.toml",
            "/.agent-run/config.toml",
        ]
    );
}
