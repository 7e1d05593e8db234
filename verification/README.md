# pusta

A dotfile and module manager. Modules live in repositories; each module has jobs (packages to
install, files to deploy, scripts and commands to run) and variables that its files are
templated with. pusta resolves dependencies, shows what it is about to do, asks, carries the
changes out, and records what it installed so that it can update or remove it later.

## Layout

- `src/` is the library, verified with Verus:
  - `variables/`: the variable tree, the template language (tokens, statements, evaluation)
    and its modifiers;
  - `module/`: qualifiers, modules, repositories, the changes a job makes, and `install/`:
    dependency resolution, ordering, the plan of a run, the review shown before it, and the
    state machines that drive it;
  - `jobs/`: the job kinds and how a job is built into changes;
  - `registry/`: the index of available modules, the cache of installed ones, and the
    commands (install, remove, update, list, query) as decisions over them;
  - `config.rs`, `output.rs`, `text.rs`, `numbers.rs`: settings, answers to prompts, text
    helpers, and the numeric operations the templates use.
- `app/` is the program around it: the command line, reading and writing files, running
  shells, prompting, and carrying out what the library decided.
- `tests/` exercises the library on concrete inputs.
