# boba_script

The front end of boba-script, an indentation-sensitive scripting language, written in
Verus with its behaviour stated in contracts and proved.

- `src/` is the verified library:
  - `symbols`, `lexer`, `filter`, `line_lexer`: splitting text into grapheme symbols
    and lexing it into tokens, indentation included;
  - `shell_stream`, `line_parser`, `expr_parser`, `stmt_parser`: token queues and the
    line-by-line parser of expressions and statements;
  - `session`: a line-at-a-time parsing session that keeps multi-line statements open;
  - `name_map`, `layout`, `resolve`, `program`, `builder`, `compiler`: the program layout of
    modules, classes and functions, and name and type resolution over it;
  - `ptr_vec`: the capacity and slot arithmetic of an untyped vector.
- `tests/` exercises the library.
- `app/` is the `boba` command: argument handling, the interactive shell and file
  reading, and the runtime store of class instances.
