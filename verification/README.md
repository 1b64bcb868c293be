# ROS Hydra Stats

Scrapes the results of [Hydra][] builds for [nix-ros-overlay][] and sums up
build and evaluation failures so that a maintainer can act on them.

`src/` is the library, verified with Verus. `app/` is the program around it:
the command line, the HTTP client, the cache on disk and the child processes.

| module     | what it holds                                                        |
|------------|----------------------------------------------------------------------|
| `text`     | comparison, numbers, splitting, joining and substitution             |
| `table`    | maps with texts as keys, kept in the order of the keys               |
| `json`     | JSON documents                                                       |
| `deps`     | the jobs that depend on a derivation                                 |
| `status`   | builds, the state of an attribute, the change between two states     |
| `analyzer` | the reason in the text of an evaluation error                        |
| `eval`     | an evaluation as fetched, its dependency graph and its summary       |
| `group`    | one section of the report on two evaluations                         |
| `summary`  | the report on two evaluations                                        |
| `stats`    | the failed builds and the evaluation failures of one evaluation      |
| `fetch`    | how a document is fetched through the cache                          |
| `inputs`   | what an evaluation was made from                                     |
| `nix`      | how the jobs are evaluated, and how they are kept                    |
| `jobset`   | which evaluations are compared for a jobset or a pull request        |
| `outcomes` | several outcomes at once                                             |
| `cli`      | what the program is asked to do                                      |
| `laws`     | what holds of evaluations and of reports as a whole                  |

JSON is read and written by `serde_json`, patterns are matched by `regex`, and
texts are indented by `indent`. What the proofs rest on with these crates is
stated on the functions that call them.

[Hydra]: https://hydra.iid.ciirc.cvut.cz/
[nix-ros-overlay]: https://github.com/lopsided98/nix-ros-overlay
