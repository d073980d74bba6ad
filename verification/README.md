# skill_transform

Turns robot joint data into motion-skill files and back, with the text-level logic verified by
Verus.

- `src/` is the verified library: joint names and indices (`joints`), reading params files
  (`params`), editor files (`editor`), pcapng captures (`capture`) and the agent messages in
  them (`packets`), writing skill,
  params and editor files (`skill`, `editor`), the window's load and export decisions (`ui`),
  text operations (`text`), and the proofs that written files read back as written (`reload`,
  and `editor`).
- `app/` is the program around it: file I/O, and the `f64` values of a target, which
  the library handles as texts.
- `tests/` runs the library on concrete inputs.
