# zero_shell

A small Unix-like shell (`ls`, `cd`, `cp`, `cat`, `rm`, `mkdir`, `clear`,
`exit`, ...) whose logic is a library verified with Verus.

- `src/` is the verified library: the command-line parser (quotes, escapes,
  `~`, `#` comments, continuation lines), the shell loop's decisions, the
  dispatch to commands, and what each command decides before touching the
  file system. The largest part is `ls`: option parsing, the listing order,
  the column layout, the long format's lines and the `-F` suffixes.
- `src/system.rs` holds the calls into `chrono`, `dirs`, `libc`,
  `term_size` and `xattr`, each with the contract it is trusted to meet.
- `app/` is the program: it reads input, prints, and does the file-system
  work, handing plain values to the library.
- `tests/` runs the library on concrete inputs.
