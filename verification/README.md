# pixi_init

The logic behind `pixi init` and `pixi remove`, verified with Verus.

- `src/` is the library. It reads environment files, plans a new project, renders its manifest,
  and decides step by step what is to be done. It touches no file; of the system it only asks
  whether a path can be made absolute and which platform it was built for.
- `app/` is the two commands: they parse arguments, do what the library asks for, and reply.
- `tests/` runs the library with the crates that it calls.

A run of `init` is a dialogue. `init::start` and `init::step` return an action, and the caller
replies with what came of it. `run` states what holds of every such run: a manifest is never
overwritten, a project is not set up twice in one directory, the files for Git come after the
manifest, and a run is over after ten replies.

What the library believes of other crates stands in the doc comments of the functions that call
them: `channel_from_str`, `join_alias`, `match_spec_from_str` and `current_platform`
(rattler_conda_types), `requirement_from_str` (pep508_rs), `package_name_from_str`
(rattler_installs_packages), `first_group` (regex), `render_named_str` (minijinja) and `anchored`
(std).

Some texts are refused without being handed to a parser, because the parser would not return on
them. `channel::readable_channel`, `match_spec::readable_match_spec` and `pypi::PipError` say which,
and where texts are refused with them that a parser might take.
