# procwarden

`procwarden` runs a command under a small filesystem and network sandbox on Linux, macOS and
Windows. A policy names a default access, a network policy and rules for single paths; a request
names a command, a working directory, an environment and a timeout.

## Layout

- `src/` is the library. It holds everything that is decided about a run, written in Rust and
  proved with Verus: whether a request and a policy are acceptable, what a policy amounts to, which
  mounts, file rules, system call filters, profiles, access lists and environments enforce it, how
  long a command is waited for and how its outcome is reported. The library touches no files and
  starts no processes: what was observed of the host comes in as plain values, and what is to be
  done goes out as plain values.
- `app/` talks to the system. It looks at files, starts processes, makes system calls and hands what
  came back to the library.
- `tests/` runs the library on concrete values.

## Modules of the library

| Module | What it decides |
|---|---|
| `policy` | default access, network policies and path rules |
| `manager`, `overlay` | whether a run is accepted, and the rules that are enforced |
| `env`, `path`, `path_policy` | environments, and paths of both styles by their components |
| `linux` | mounts and their order, file rules, the system call filter, namespaces, descriptors |
| `macos` | the profile for `sandbox-exec` and its command line |
| `windows` | access lists, command lines, environments, containers, helpers and filters |
| `runner`, `output`, `error` | waiting, results and messages |
| `probe` | what a program does that tries the sandbox on a host, and what it reports |
| `laws`, `rule_order` | what holds of paths and enforced rules as a whole |
| `bytes`, `text`, `lossy` | sequences of bytes and characters |

## What is proved

Every public function states exactly what it returns for every input that it accepts, and errors
with the inputs on which they come. Beyond that, proof functions state what holds across functions,
among others:

- Accepted rules are enforced on every path as they ask for it, and rules are rejected exactly when
  they ask for access below a denied path.
- Enforced rules repeat neither the default nor each other, and enforcing them again changes nothing.
- The Linux filter denies each call exactly where the policy does not allow it.
- Quoted arguments, command lines, profile strings and task lists can be read back as they were
  written.
- A timed-out command reports one exit code, and only overdue commands are killed, on Windows, too,
  where a long time is waited for in parts.
- The order of rules and how often one is repeated change neither whether a policy is accepted nor
  which policy is enforced. The one condition is that two spellings of one path write its Windows
  prefix alike, as all do that use no slash in it.

## Environments

A command gets the variables that its request names, without those that change how programs are
loaded, and nothing of the parent's environment. Windows is the one exception: a process there does
not start without some variables, so `SystemRoot`, `WINDIR`, `PATH`, `PATHEXT`, `TEMP`, `TMP`,
`COMSPEC`, `USERPROFILE`, `APPDATA` and `LOCALAPPDATA` are each taken from the parent where the
request does not name them. Callers that rely on lookup still name `PATH` themselves.

## What is trusted

A few calls into other crates and the standard library are believed to do what their contracts say:
compiling a filter with `seccompiler` and the text of its errors, the rights of `landlock`,
`rand::random`, `String::from_utf8_lossy`, `String::push` and the host's path separator. Their
contracts stand next to them, in `linux/filter.rs`, `linux/mounts.rs`, `windows/container.rs`,
`lossy.rs`, `text.rs` and `path.rs`.
