# macaudit attribution

Who owns the bytes on a Mac: for each project, and for each app, formula and tool, which paths it
claims, how sure that is, and what it comes to. The library is verified with Verus; it reads no disk
and runs no program.

- `src/` is the library. `disk.rs` is a table of facts about the file system: what is not in it is
  noted as wanted, and its user looks it up and asks again. `attribution/` finds projects and apps,
  collects their claims (`projects/resolvers/`, `apps/`) and accounts for them (`accounting.rs`, with
  what holds of every account in `laws.rs`). `ffi/` is what an app sees: sections, findings, scans
  and batches.
- `app/` is the system around it: the disk, the programs that tell what is open or entitled, the
  tasks that wait for scans, and the engine.
- `tests/` runs the library.

The answers hold of the disk as it is once nothing is wanted any more: every contract is stated over
the file system itself, and `law_settled_table_holds` in `disk.rs` says when it applies. Nothing is
wanted that the table knows, so over a table that lacks no fact every answer is owed
(`law_complete_table_owes_its_answers`). Of a file's head one reading is kept.

The names of the coding agent whose sessions are kept by project (`AgentNames` in
`attribution/model.rs`) are a part of every environment, and come from the caller.
