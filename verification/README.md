# tg-harvest

Forwards the messages of Telegram source channels to target channels, resuming
from a stored cursor and filtering by reactions and comment counts.

- `src/` is the verified library (Verus): the harvest state machine
  (`harvest.rs`), the retry policy and error classification (`forward.rs`),
  the message filters (`filter.rs`), configuration values and defaults
  (`config.rs`), the cursor (`db.rs`), the sign-in decisions (`auth.rs`), the
  menu logic (`menu.rs`), channel listing and config rendering
  (`interactive.rs`), a stable insertion sort (`sort.rs`) and text helpers
  (`text.rs`).
- `app/` is the program around it: the Telegram client, SQLite, the TOML files,
  the terminal prompts and the loop that performs the actions the library
  decides.
- `tests/` runs the library on concrete values.
