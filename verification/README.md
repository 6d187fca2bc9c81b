# wax

A package manager that works with Homebrew's formulae, bottles and casks, with the
native package managers of Linux, and with the Scoop, winget and Chocolatey
catalogues. What it decides and computes is a library verified with Verus; the
command line around it is ordinary Rust.

## Layout

- `src/` is the library. Every function states what it returns in `requires` and
  `ensures`, over the spec functions and views beside it.
  - `text`, `paths`, `order`, `table`, `json`, `timing`, `ui`, `error`: text, paths,
    sorting, keyed tables and the rest that the other modules share.
  - `outside`: calls into other crates, with what is taken on trust of each.
  - `api`, `bottle`, `cask`, `formula_parser`, `install`, `links`, `lockfile`,
    `discovery`, `sudo`: formulae, bottles and casks, and how they are put in place.
  - `package_spec`, `ecosystem_install`, `remote_search`, `scoop`, `chocolatey`,
    `winget_install`: the other catalogues.
  - `system`, `system_pm`: the native package managers, their indices and their
    archives, dependency resolution, and the declared state.
  - `commands`: what each command of the program decides.
- `tests/` holds tests on concrete values.
- `app/` is the program: arguments, files, processes and the network.

## Laws

Public proof functions state what holds across several functions: that linking and
unlinking undo each other, that a dependency comes before what needs it, that
locking and then syncing asks for nothing, and others. Each stands in the module it
is about.
