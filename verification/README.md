# paigu

The verified core of a group-buy ("排谷") claim bot for chat groups: members
post claims such as `排 通行证 结城理 1`, the bot parses them, checks them
against the round's catalogue and phase rules, and keeps a board of who
claimed what. Everything under `src/` is proved with Verus; `app/` is the
small command-line program around it (files, clock, JSON).

## Layout of `src/`

- `text` — character-level string helpers with specifications (trimming,
  searching, decimal text, path joining).
- `domain`, `round`, `bus` — identifiers, catalogue items, events, round
  phases and the incoming chat event.
- `parser` — text normalisation, the rule-based claim parser, catalogue
  matching (`alias_match`), membership and phase policy, event validation,
  replies and the parse cache.
- `llm` — prompts, extraction of the model's JSON, clarification of bare
  variant names, the pipeline's per-message decisions (routing, admission,
  administrator commands), the pipeline state between messages (`state`)
  and the board views (who claimed what, message feed, workflow counters).
- `replay` — replaying a message log with the live rules, board diffs,
  timeline records and reports.
- `services` — request handling logic: message edits and listing, round
  administration and structure checks, administrator chat commands
  (`admin_messages`), alias suggestions, settlement configuration merging.
- `settings` — configuration rules: derived item classes, priority members,
  daily pull time, active-round resolution.
- `messages`, `publisher` — where message logs and published snapshots
  live, and the record-number counter.
- `planner`, `settlement` — score comparison and price lookup of the order
  planner, settlement configuration.

Laws of the library are public proof functions next to the functions they
speak of (for example `parser::parse_cache::read_after_store`,
`replay::session::replay_gates_match_live`,
`services::settlement::merge_is_idempotent`).

## `app/`

`main.rs` offers `replay`, `check-round`, `rounds`, `messages`, `members`
and `next-pull` commands over the on-disk configuration and logs; JSON
copies of the library types with serde derives live in `config.rs`.
