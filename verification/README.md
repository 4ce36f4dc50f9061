# orx

The logic behind a local research runner, written in Verus: how it talks to the
OpenCode agent, runs jobs on this machine, and updates itself.

- `src/` is the library. Every item is verified. Documents are modelled by
  `JsonV`, transcripts by sequences of parts, turns by `TurnV`; contracts are
  stated over these models, and the laws that relate several functions stand at
  the end of each module as public proof functions.
  - `text`, `collections`, `json`, `document`, `native`: texts, sets and maps of
    texts, JSON documents, and the boundary to `serde_json`.
  - `wire`, `turn`, `cards`, `forms`, `events`, `session`: the transcript of a
    turn, the cards it shows, and the events that stream into it.
  - `requests`, `setup`, `polling`, `export`: what is asked of the agent's
    server, how a session is opened, and turns that are polled.
  - `catalog`, `config`, `probes`, `detect`: which models there are and which of
    them can be used.
  - `sys`, `localbox`, `update`: processes, local jobs, and updating in place.
- `app/` does the input and output around the library.
- `tests/` runs the library on concrete values.
