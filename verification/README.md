# uvr_core

The core of a package manager for R: it reads the manifest of a project, chooses one
version of every package that is needed, writes the choice down in a lock file, and plans
the downloads, builds and installations that follow from it.

The library under `src/` is verified with Verus. Each function states in its contract what
it returns, over mathematical models of the data; the laws that tie functions together are
public proof functions beside them. The library does no input or output: where files,
servers or other programs come in, it is handed what they said and answers with what is to
be done next. `app/` is the ordinary Rust around it that does those things.

## Layout

| Module | What it holds |
| --- | --- |
| `text`, `text_map`, `order`, `paths` | texts as sequences of characters, maps keyed by texts, sorting, paths |
| `version`, `resolver::requirement` | versions of packages and requirements on them |
| `dcf`, `manifest`, `lockfile`, `project` | the files of a project |
| `resolver` | the search for one version of every package, and the order of installation |
| `registry` | what CRAN, Bioconductor, GitHub, Forgejo and the servers of builds know of a package |
| `installer` | downloads, archives, builds, and the packages that are kept for all projects |
| `r_version` | finding, choosing and installing R itself |
| `r_env`, `env_vars`, `signal` | the environment in which R runs, and builds that are running |
| `sysreqs`, `sysreqs_rules` | the libraries of the system that packages need |
| `checksum`, `error`, `package_name`, `subdirectory` | what the others share |

Calls into other crates stand behind small functions marked `external_body`, each with a
comment that says what is taken for granted of the call.

The tests under `tests/` run the library on concrete values.
