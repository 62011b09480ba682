# agent-run

Runs a coding agent, or any other command, in a sandbox made by
[bubblewrap](https://github.com/containers/bubblewrap). The file system of the
host is visible but read-only, except for the paths that the configuration makes
writable.

`src/` is the verified library, `tests/` its tests, and `app/` the program around
it, which reads files and starts processes.

| Module | What it holds |
| --- | --- |
| `environment` | entries `KEY` and `KEY=VALUE` |
| `config` | tool configurations, their defaults and how they are merged |
| `document`, `schema` | reading a TOML text as a configuration |
| `search` | finding the closest `.agent-run/config.toml` |
| `path`, `text` | Unix paths and strings |
| `mount` | what becomes of a mount path |
| `command` | the arguments and the environment of the sandbox |
| `seccomp` | the filter that rejects TIOCSTI |
| `launch` | the steps of starting the sandbox |
| `tracing` | levels of diagnostic output |

The program reads `bwrap` from the path that `BUBBLEWRAP_PATH` held when it was
built. Built with `--cfg embed_bwrap`, it carries that file inside.

## Configuration

```toml
[global]
network = true
inherit_env = true
mount = ["~/.cache", ".."]

[tools.codex]
mount = ["~/.codex"]
env = ["TMPDIR=/tmp/codex", "TERM"]
```

A tool is found by the basename of the command. Its switches and environment
entries override the global ones, and its mounts are added to them. Without a
configuration file the network is enabled and the environment is inherited.
