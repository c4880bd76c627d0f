# mash

A minimal coding agent: a daemon that runs LLM agent sessions with file and
shell tools, and a terminal client that talks to it over a Unix socket.

## Layout

- `src/` — the verified library (Verus). Every decision of the agent lives
  here with its contract: the LLM wire formats (Anthropic and OpenAI request
  bodies, responses and server-sent-event decoders), the agent loop as a state
  machine, tool argument checking, edits, output truncation, task files, the
  daemon's session state, and what the client prints.
- `app/` — the program around it: sockets, HTTP, files, processes, the
  terminal UI and the command line. It hands plain values to the library and
  acts on what comes back.
- `tests/` — tests of the library on concrete values.
