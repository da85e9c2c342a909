# cc2rep

A proxy that offers the OpenAI Responses API to its clients and talks to a
chat-completions upstream.

`src/` is the library: the rules of the proxy, written in Verus and proved against
their contracts. `app/` is the program around it: the command line, the HTTP server,
the upstream client, local processes and files. `tests/` runs the library on concrete
values.

## The library

| Module | What it holds |
|--------|---------------|
| `text`, `order`, `table`, `fold` | texts by character, sorted lists, tables, fallible folds |
| `number`, `json`, `codec` | JSON values, and reading and writing them with `serde_json` |
| `config`, `error`, `headers`, `ids` | settings, errors, HTTP headers, fresh identifiers |
| `protocol`, `normalize`, `conversation`, `toolset`, `reasoning`, `translate` | from a Responses request to a chat request |
| `turn`, `usage`, `response`, `restore` | from a chat answer to a response, and back |
| `sse`, `stream`, `delta`, `session` | streamed answers, event by event |
| `tools`, `rounds` | local tools and rounds of tool calls |
| `hosted`, `search` | web and file searches |
| `store`, `metrics`, `server` | kept responses, counters, and the requests on them |
| `upstream`, `probe` | retries, and finding out what the upstream supports |
| `cli` | what the commands decide and print |

What runs over several steps with input and output in between is a machine: a value of
the library takes what has happened and says what is to be done next, and the program
does it. `StreamSession`, `AutoSession`, `NonStreamRun`, `Probe` and `FileSearch` are
such machines.

Contracts are stated over mathematical views: `Json` for JSON values, `Seq<char>` for
texts, `Map` for tables. The properties that tie several functions together stand
beside them as public proof functions whose names begin with `law_`.

The calls into `serde_json`, `http`, `uuid` and the standard library that the proofs
rest on are wrapped one by one, each with a comment that says what is believed of it.
