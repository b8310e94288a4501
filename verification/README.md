# arctic

The decision-making core of Arctic Launcher, a Minecraft launcher, written
in Verus: every function in `src/` carries a contract that Verus proves,
except four small wrappers around std and serde_json calls (`text::to_lowercase`,
`text::push_char`, `humanize::hash_url`, `output::json_string`), marked
`#[verifier::external_body]`, whose contracts are trusted.

- `src/` — the library. The command line's types (`cli`), what each command
  decides and prints (`commands`, `rows`, `messages`, `output`, `versions`,
  `worlds`, `looks`, `migrate`, `game`, `together`), number and text
  formatting (`humanize`, `memory`, `double`, `text`), and the launcher window's
  state machines and decisions (`play_ui`, `instances_ui`, `share_dialogs`,
  `migration`, `network`, `skins_ui`, `search`, `updates`, `onboarding`,
  `profiles_ui`, `settings_ui`, `worlds`). Properties that span several calls are stated as public
  proof functions named `law_…`.
- `tests/` — tests of the library on concrete values.
- `app/` — the `arctic` program: argument parsing with clap, the launcher
  core's file, network and process work, and printing.
