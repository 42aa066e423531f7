# car-go-clean

`car-go-clean` finds Rust projects on disk, runs `cargo clean` where that is safe, and keeps
track of the space that was reclaimed. It works as a command and as a per-user background
service.

The decisions are a library that is verified with [Verus](https://github.com/verus-lang/verus).
It reads no file, runs no command and asks no clock. It takes what the program has found out as
plain values, and where it needs to know more it says what.

## Layout

- `src/` is the verified library.
  - `text`, `path`, `order`, `time`, `json`, `resolve`, `environment`: values that the rest is
    made of.
  - `config`, `storage`, `policy`: what may be cleaned at all, and the hash that stands for it.
  - `scanner`: the discovery of projects and of the linked worktrees of their repositories.
  - `identity`, `activity`, `safety`: the review of a project, and its revalidation just before
    it is cleaned.
  - `cleaner`: one attempt to clean.
  - `store`: what outlives the process, with the migration of older schemas.
  - `cache`, `daemon`: cycles, runs, schedules and the turns of the background process.
  - `service`: the definitions of the per-user service and the steps that manage it.
  - `outcome`, `cli`, `logging`: what the commands report and what is logged.
- `tests/` holds the tests of the library.
- `app/` is the program: arguments, files, SQLite, processes and signals. It performs what the
  library asks for and hands back what came of it.

## What is proved

Every function of `src/` states what it returns or changes for the inputs that it admits. A
function leaves an input out only where a machine limit or a panic of another crate asks for it.
The steps of a run ask for one thing more: a state that is well formed, which every step gives
back, and the order in which the steps belong.
Beyond that the library proves laws that span its functions, as public proof functions. Some of
them:

- A review that calls a project cleanable has passed every gate, and forcing it opens no managed
  storage.
- Neither binding a review to an observation nor revalidating it ever admits a project that was
  refused.
- Only the newest generation under the current policy authorizes a cleanup, and a migration
  grants no authority.
- Every operation keeps the store consistent: rows have different numbers, only the newest
  generation is valid, and no more plans are kept than are retained.
- A checkout that could not be asked for its worktrees stays blocked together with those that are
  known of it, whatever other checkouts are asked, until it is asked with success.
- A run of a plan cleans nothing that the plan does not name.
- A service definition gives back the environment that was written into it.

What rests on other crates stands behind a few small functions whose contracts are believed:
`sha2`, `serde_json`, `ignore` and `humantime`, besides four functions of the standard library.
