# keystone_cc

The rules of *Keystone: Call of Cats*, a game in which the player programs a
stone to help a cat reach the goal, written in Verus and proved against their
contracts.

- `src/` — the verified library: stage generation from chunk grammars
  (`chunk_grammar`, `placement`, `layout_search`, `generator`, `goal_layout`,
  `stage_map`, `tiles`), the stage catalog, progress and saved programs
  (`stage`, `stage_select`, `file_storage`), the command line (`launch_profile`),
  script plumbing (`script_types`, `script_engine`, `keystone`), the stone's
  command queue (`stone_control`), the editor and its texts (`editor`,
  `tutorial_text`, `messages`, `options`), and smaller game rules (`boot`,
  `character`, `stage_audio`, `assets`, `stone_type`).
- `tests/` — tests run against the compiled library.
- `app/` — a command-line front end: data files, save files on disk, and the
  Rhai engine's callbacks.
