# supervisor

A process control system: a daemon that starts programs, keeps them running and
captures their output, and a client that controls it over XML-RPC.

The library under `src/` makes every decision and is verified with Verus. It
does no I/O: it says what to do (launch a child, send a signal, rotate a log,
send these bytes) and is told what happened. `app/` is the daemon and the client
around it.

| Module     | What it holds |
|------------|---------------|
| `config`   | `supervisord.conf`: sections, values, programs, groups, globs, and what a new file changes |
| `process`  | one supervised process: command line, state machine, listener protocol, snapshots |
| `daemon`   | every process together, operations on them and on groups, routing of events and requests |
| `rpc`      | the `supervisor.*` method set |
| `web`      | the status page and its forms |
| `http`     | requests, responses, Basic authentication |
| `xmlrpc`   | reading and writing XML-RPC |
| `control`  | the client's side of a call |
| `ctl`      | the commands of the client |
| `events`   | event names, payloads, envelopes, ticks and subscriptions |
| `logger`   | log rotation |
| `syslog`   | lines for the system log |
| `states`   | process and supervisor states |
| `text`, `number`, `util` | what the others are built from |

Each module states its contracts over mathematical models: `Process` has a
`ProcessModel`, `Config` a `ConfigModel`, and so on. What holds across functions
stands in the `laws` modules: for example that a call which a client makes
arrives as that call however the stream is cut, that a process which keeps
exiting too quickly ends up `FATAL`, and that a shutdown comes to an end.
