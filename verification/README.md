# aptmatic

A terminal dashboard for running `apt` across a fleet of Debian and Ubuntu
hosts over SSH, with a core that is verified with
[Verus](https://github.com/verus-lang/verus).

- `src/` is the verified library: the parsers for the output of the apt tools,
  the resolution of the configuration, the commands that are run on hosts, the
  dashboard as a state machine, and the contents of every screen. It does no
  I/O. Work that has to be done elsewhere is collected as effects.
- `app/` is the program around it: command line, configuration file, cache on
  disk, SSH sessions, terminal.
- `tests/` exercises the library on concrete values.

## Reading the library

| Module | What it holds |
| --- | --- |
| `text` | Trimming, splitting, searching and building text |
| `table` | A table from texts to values |
| `apt`, `parse` | What is known of a host's packages, and how it is read out of tool output |
| `config` | Defaults, groups and hosts, and what they resolve to |
| `cache` | What is remembered of hosts between runs |
| `ssh` | Quoting, cutting output into lines, host keys, authentication |
| `gather` | Which commands learn the state of a host, and what is made of the answers |
| `task`, `sudo`, `review` | Operations on a host, how their commands differ with root, and the review of pending config files |
| `keys`, `state`, `sidebar` | Keys, per-host state, messages, and the sidebar's rows |
| `model`, `app` | The dashboard as a mathematical state machine, and the code that is proved to follow it |
| `laws` | What holds of the dashboard whatever happens |
| `scene`, `panels`, `ui` | What is drawn, and where |

The contracts speak of views: each type has a mathematical counterpart, and each
function says what it returns in terms of those. Facts that relate several
functions are public proof functions, under "Laws" in their modules.

What is believed without proof is marked `external_body` or
`assume_specification`: a few functions of the standard library, the login name
from `whoami`, and the layout solver of `ratatui`.
