# agent_workspace

A stateful coordination layer for coding agents. An append-only event log
records objectives, observations of repository files, claims resting on
them, evidence, provider findings and change transactions; replaying it
gives the projection whose freshness verdicts say what an agent may still
trust.

## Layout

- `src/` is the verified library. Every operation takes what the repository
  holds (file bytes, the current revision, re-read fingerprints) as plain
  values and states in its contract what it appends to the log and what it
  answers. `src/laws.rs` states the properties that span operations.
- `app/` is the `agent-workspace` command and its stdio tool server: it reads
  files and runs git and formatters, persists the log as JSON lines, and
  hands the library the values it reads.
- `tests/` exercises the library through its public interface.
