# pawpaw

The verified core of a persistent terminal agent: its file layout under
`~/.cokacdir/agent/`, the assembly of its system prompt, its memory and
session bookkeeping, the heartbeat task file, and keyword-triggered loading
of project and knowledge files.

- `src/` is the library, verified with Verus: text operations (`text`),
  dates (`dates`), the clock (`clock`), paths (`paths`), the agent files
  (`agent`), heartbeat tasks (`heartbeat`), context triggers
  (`context_trigger`) and the semantic search reply (`json`).
- `app/` holds the file system, process and cache plumbing around it.
- `tests/` exercises the library on concrete values.
