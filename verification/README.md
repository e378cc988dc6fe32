# baras

Verified pieces of a combat-log tool: the search box language and its SQL
form, sound file references, audio settings, and small display helpers.

- `src/text.rs`: characters of strings, Unicode white space, trimming.
- `src/lexer.rs`, `src/parser.rs`, `src/sql.rs`: search queries (`AND`, `OR`,
  `NOT`, parentheses, phrases) turned into SQL `WHERE` clauses.
- `src/sound_path.rs`, `src/sound_picker.rs`: where a sound reference is
  looked up, and which picker category it belongs to.
- `src/audio.rs`, `src/initials.rs`: audio settings and icon initials.
- `app/`: serialisation of audio settings, the desktop app's definitions
  folder, and the icon cache of the web front end.
