# prek

The part of a Git hook runner that knows where it runs and on which files, verified with Verus.

- `src/` is the library. It finds out whether the current directory lies in a Jujutsu workspace or
  in a plain Git repository, which commands list the files of a run, what the output of those
  commands says, and whether executable files start with a shebang. It does no input or output of
  its own: whatever depends on files or commands is a state that asks for what it wants to know
  next and a step that takes the answer. Contracts are stated over byte sequences and text, and
  the laws at the end of each module say what a whole run comes to.
- `app/` answers those questions on a real machine. Git itself, and the running of commands, come
  in through two traits.
- `tests/` runs the library on given values, and its path and text functions against those of the
  standard library.

Paths are byte sequences and follow the rules of Unix. Drive letters and backslashes, which count
on Windows, are ordinary bytes here.

A few functions of the standard library, and calls into `rustc-hash` and `owo-colors`, are trusted:
each stands behind a small item whose comment says what is taken for granted.
