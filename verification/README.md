# dmgr

`dmgr` is a local-first manager for Docker development entries: it creates, imports, builds, runs
and removes them. The library under `src/` holds its logic and is written in
[Verus](https://github.com/verus-lang/verus): what each function returns or changes is stated in its
contract and proved. The program under `app/` reads arguments, files and variables, hands them to
the library as plain values, and carries out what the library decides.

## Entries

An entry lives under `DMGR_ROOT/entries/<name>`:

- `entry.toml`: its configuration
- `build.sh` and `run.sh`: how it is built and run
- `cmd-overrides/`: run commands for particular directories
- `workspace/`: its workspace, unless it uses one that lies elsewhere
- `build.last.log`: the output of its last build

`DMGR_ROOT` is what `--root` says, or the variable of that name, or `$HOME/.config/dmgr`.

## The library

| modules | what they hold |
| --- | --- |
| `text`, `number`, `name_order`, `sort` | words, lines, decimal numbers, the order of names, stable sorting |
| `path`, `path_laws` | Unix paths: joining, comparing, file names |
| `entry`, `names`, `files`, `removal` | entries, their names and files, changes to the file system |
| `entries`, `plan`, `plan_laws` | the recorded entries, what a build takes in and in which order |
| `graph`, `schedule`, `schedule_laws`, `build_laws`, `build_run`, `progress` | the course of a build: what is started, built, failed and skipped |
| `dockerfile`, `import` | importing workspaces and finding out what they depend on |
| `script`, `editor`, `init`, `report` | scripts, the editor, service files, what is printed |
| `cli`, `app`, `error` | commands, what each of them does, and what can go wrong |

Functions whose names begin with `law_` state what holds of several functions together: a plan has
everything its targets need, with dependencies first; a build starts nothing before what it needs
is built, runs no more at once than it may, skips exactly what needs something that failed, and
comes to an end; a removal takes the directory of its entry and nothing else; entries of different
names and overrides for different directories have different paths, as these are written.

What is taken from outside without proof stands in `path` (decoding UTF-8), `text`
(`String::push`), `report` (formatting a duration) and `editor` (`shell_words::split`).
