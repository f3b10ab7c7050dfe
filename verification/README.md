# odin

Durable workflows for coding-agent command lines, with the decisions proved in Verus.

A workflow is a graph of steps: prompts to a provider, shell commands, actions, approvals, branch
selections and loops. The engine runs it in a git worktree, checks and retries its steps, keeps
snapshots, and can go on after a crash or after somebody decided about an approval.

## Layout

- `src/` is the library. It holds the workflow model (`ir`), the template checks (`context`,
  `validate`), every decision of the engine (`engine`: parameters, scheduling, retries, loops,
  snapshots, approvals, summaries, recovery), the built-in actions (`action`), what the command
  line computes (`cli`), and the plain building blocks below them (`text`, `names`, `json`,
  `yaml`, `ids`, `time`). Each function states what it returns, and the laws that span functions
  are public proof functions beside the definitions they speak of.
- `app/` is the program: it runs processes and git, keeps runs in files, reads workflow files and
  parses the command line. It performs what the library plans and hands back what happened.
- `tests/` runs the library, whole workflows with a scripted shell included.

## How the engine is split

Where execution alternates with decisions, the library is a state machine that the program drives:

| type | decides | is told |
| --- | --- | --- |
| `engine::schedule::Pass` | which step to launch next | how a step settled |
| `engine::checks::Checks` | which check of a step comes next | what a gate or a judge said |
| `engine::retry::Attempts` | whether a step is tried again, and when | how an attempt ended |
| `engine::loops::LoopRun` | which inner step comes next, and when a loop is over | how it settled |
| `engine::git::Snapshot` | the next git command of a snapshot | what git printed |
| `action::*` | the next command of an action | what it printed |

## What a template may hold

The template engine is handed only what it can finish. `context::tokens` reads the tags of a
template, and `context::limits` says which are compiled (for the checks) and which are rendered:
dotted names, literals, subscripts with at most one `:`, arithmetic, comparisons, boolean
operators, `if`, `for` and `set` of a name, most filters and tests, `range`, `dict`, `loop.cycle`
and `loop.changed`. Left out are macros and other calls, blocks and includes, `**`, products
without a small literal beside them, sorting by value, and chains, lines and values that are too
long. A template that is left out is an error where it is rendered, and a syntax finding where it
cannot even be compiled. What is rendered takes a bounded number of the engine's instructions.

## What is trusted

Calls into other crates stand behind small functions whose contracts are taken on trust: templates
(`context::refs`, `context::render`), JSON and YAML documents (`json`, `yaml`), ordered sets
(`names`), ids (`ids`), moments and spans of time (`time`, `cli::prune`), and the quoting of texts
(`text`). Each says in its comment what it claims.

Floating-point numbers stay outside the library: the score and the threshold of a judge are held as
bits, and a cost in millionths.
