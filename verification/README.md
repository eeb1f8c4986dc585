# bondar

A standalone tool for development containers: it reads `devcontainer.json` and drives the Docker
command line. This crate holds its decisions as a verified library.

- `src/` is the library. Every function states what it computes, and Verus proves it: which command
  lines are run, what is printed, how references to variables are replaced, in which order features
  are installed, what becomes of a container. Nothing in it talks to the outside: what programs print
  and what the file system holds comes in as arguments.
- `tests/` runs the library on concrete values.
- `app/` is the program: it parses the command line, reads files, runs `docker`, `oras`, `tar` and
  the like, and hands their answers to the library.

| Module | Subject |
|---|---|
| `text`, `texts`, `numbers`, `maps`, `order` | texts, lists, numbers, ordered maps, sorting |
| `json` | JSON documents |
| `notes` | lines for the user, and command lines with what is said about them |
| `config`, `warnings` | the configuration, its rules, comments in its file |
| `expand` | `${...}` references |
| `ports`, `docker`, `compose` | published ports and the command lines of Docker and Docker Compose |
| `walk`, `features`, `install`, `provision` | features: order, options, fetching, installing |
| `metadata` | what an image says of its containers |
| `lifecycle` | lifecycle commands |
| `host` | host requirements, the user's numbers, the user's environment |
| `cli`, `command` | the command line and what each command decides |

Where the library relies on code that is not verified (`serde_json`, a few functions of the standard
library), a small function states what it relies on.
