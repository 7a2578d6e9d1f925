# gh-release-notify

A daemon that polls GitHub repositories for new stable releases and announces
each one by e-mail, with a small web interface for status and configuration.

The library under `src/` holds the rules and is verified with Verus; the program
under `app/` does the input and output around it.

| Module | Holds |
|---|---|
| `config` | the configuration, its rules, and how the environment overrides it |
| `config_writeback` | edits of the configuration file that keep comments, order and layout |
| `document` | TOML documents: tables, entries, comments, layout, and the edits of them |
| `files` | how a save replaces a file whole |
| `github` | requests for releases, and what the replies mean |
| `notify` | the announcement of a release |
| `scheduler` | the turns of a poll, the next poll, the status after a poll, the loop |
| `schedule` | cron expressions |
| `state` | the last tag seen of each repository |
| `ui` | sessions, the login limit, the decision on each request, the answers |
| `laws` | what holds across these |
| `ip`, `patterns`, `string_map`, `text`, `time` | what the others stand on |

What is taken on trust are the functions marked `external_body`: each calls into
one outside crate, and its comment says what is believed of that call.
