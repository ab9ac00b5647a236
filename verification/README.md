# edlite

A small line editor in the manner of `ed`, written in Verus.

- `src/` is the verified library:
  - `address.rs`: the address grammar (`.`, `$`, numbers, `+`/`-`, `,`, `;`, `x`)
    as a character-by-character scanner, with what every resolved address satisfies;
  - `address_laws.rs`: how `$`, `.`, signs, `;` and the lone separators read;
  - `lines.rs`: cutting a text into lines (`string_to_lines` drops an
    unterminated tail, a file read by `Buffer::new` keeps it) and joining lines
    back, with the round-trip laws;
  - `text.rs`: white space and trailing newlines;
  - `buffer.rs`: the buffer, `string_to_lines`, and the reading of addressed
    commands (`Buffer::parse_index`, `Buffer::parse_command`);
  - `commands.rs`: the reading of plain commands;
  - `editor.rs`: the editing session as a state machine: each line read gives
    the next state, what to show and what the caller must do next;
  - `args.rs`: the options the editor starts with.
- `app/main.rs` is the program: command-line parsing with clap, reading and
  writing files, standard input and output.
- `tests/` runs the library on concrete inputs.
