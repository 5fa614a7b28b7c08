# svn

A client for Subversion's `svn://` and `svn+ssh://` protocol (`ra_svn`, version 2), with
its logic verified by Verus. It has no working copy.

- `src/` is the library. It does no input or output: it turns operations into the items
  that are sent, and the bytes that come back into results, and it plans what needs several
  steps (handshakes, commits, exports, tunnels, pools). Every function states what it
  returns, and Verus proves it.
- `app/` is the input and output around it: sockets, SSH tunnels, files, timers and pools,
  with `tokio` and `russh`.
- `tests/` holds tests of the library on concrete values.

## How the library is laid out

| modules | what they hold |
| --- | --- |
| `text`, `keymap`, `assoc`, `time`, `fspath`, `wildcard` | texts, maps, times and file names |
| `error`, `types`, `options`, `results` | what callers give and get |
| `raw`, `wire`, `parse`, `params` | items of the protocol, written and read |
| `conn`, `auth`, `sasl` | greeting, authentication, security layer |
| `client`, `requests`, `answers`, `replies`, `history`, `streams` | the operations of a session |
| `editor`, `edit` | editor drives and reports |
| `svndiff`, `textdelta`, `fulltext`, `recorder` | deltas of file texts |
| `commit`, `commit_plan`, `commit_drive`, `task_order`, `commit_driver`, `commit_send` | commits |
| `commit_stream`, `stream_driver` | commits of texts that are sent as they are read |
| `drive_laws`, `token_laws`, `commit_laws`, `change_laws`, `question_laws` | what holds of the commands of a commit |
| `export`, `export_plan`, `export_laws`, `fs_guard` | exports to a file system |
| `pool` | pools of sessions |
| `path`, `url`, `url_laws` | repository paths and URLs |
| `ssh`, `ssh_config`, `ssh_parser` | OpenSSH configurations and tunnels |

## What is proved of the whole

Besides the contract of each function, public proof functions state what holds across
them, among others:

- an item that was written is read back, whatever stands behind it (`wire`);
- a full text that was encoded is given back by applying the delta, and how a delta is cut
  into chunks does not matter (`fulltext`, `textdelta`);
- an editor command that was sent is read back as the event that it stands for (`edit`);
- the commands of a commit form a drive in which every directory and file is opened before
  it is used and closed after it, no directory is entered twice and no token is given
  twice, and batching loses and reorders nothing (`drive_laws`, `token_laws`,
  `commit_send`);
- what a commit asks of the repository comes to an end, and nothing is asked for twice
  (`question_laws`);
- changes are sent in the order of their paths, unless a directory would be entered twice so;
  files whose texts are sent as they are read always are (`task_order`, `stream_driver`);
- the commands of a commit carry out every change that was asked for (`change_laws`), and
  each text that is sent as it is read goes with its own file and gives all that was read
  (`stream_driver`, `commit_stream`);
- an export leaves in each file what its deltas decode to (`export_laws`);
- paths that were accepted never lead out of the repository, and exports never out of their
  root (`path`, `export`, `export_plan`);
- a normalised URL is normalised already (`url_laws`).

## What is believed

The library calls `flate2`, `lz4_flex`, `hmac` with `md-5`, `hex` and a few functions of the
standard library. Each call stands in a small function whose contract is believed and not
proved; its comment says what is claimed.
