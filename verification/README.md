# notepad

A small tabbed text editor whose core is verified with Verus.

- `src/` is the verified library: the snapshot undo history (`undo`), find
  and replace (`search`, `find_replace`, over the helpers in `text`), file
  decoding, encoding on save and line endings (`file_io`), tab bookkeeping (`tab`, `tabs`),
  keyboard shortcuts (`shortcuts`), the line number gutter width
  (`line_numbers`), theme colour codes and the theme dialog's history
  (`theme`) and the command line (`cli`). Each public function states its
  result in its contract; the laws that tie several functions together are
  the public proof functions whose names start with `law_`.
- `app/` is the iced application around it: windows and widgets, file
  dialogs and disk access, the theme configuration file, and the theme
  colours, which are floating point.
- `tests/` runs the library on concrete values.

Calls into outside crates (encoding_rs, chardetng, uuid) and a few std
functions go through small trusted wrappers, each documented with what its
contract claims.
