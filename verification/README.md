# brick_shell

A small interactive shell. The library in `src/` holds its decisions, each
proved against its contract with Verus; `app/main.rs` is the program around
it: the line editor, files, processes and pipes.

- `text`: strings seen through their UTF-8 bytes; trimming, comparing, slicing.
- `split`: a line split at ` && ` or ` | ` outside quotes; a command split
  into its name and arguments.
- `display`: the width a text shows with once ANSI escapes are taken out, and
  padding to a width.
- `layout`: a long `ls` listing laid out in padded columns.
- `listing`: the `ls` option, which entries it shows and how; the prompt.
- `aliases`: the `alias` builtin, the table of aliases and its JSON file.
- `commons`: the common commands offered for completion and their file; the
  shell's file paths.
- `completion`: the word under the cursor, file and command hints, completions.
- `shell`: builtins, `cd`, commands that cannot be started, alias expansion,
  the shell's own arguments.
