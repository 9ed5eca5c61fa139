# flowmux

The logic of flowmux, a Linux terminal workspace for AI coding agents,
as a library whose behaviour is stated in contracts and proved with Verus.

- `src/` is the verified library:
  - `key_modes`: tracking the terminal input modes an application selects
    (DECCKM, the Kitty keyboard stack) and rewriting typed bytes for them;
  - `keys`: key presses turned into terminal bytes;
  - `tmux_compat`: the tmux command-line subset agents drive, parsed into
    commands, and tmux format expansion;
  - `scripts`: the JavaScript snippets the embedded browser runs, with
    string-literal escaping;
  - `browser`: page snapshots and the bookmark list;
  - `downloads`: the browser download lifecycle and the count of active
    downloads;
  - `asr`: the speech-model catalog, engine settings, model store layout,
    download bookkeeping and checks, and the clean-up of transcribed text;
  - `update`: the self-update banner's state machine and text;
  - `ghostty`: the Ghostty config file format;
  - `hashing`: SHA-256 over streamed chunks (computed by `sha2`) and its
    hexadecimal form;
  - `cookies`, `notify`, `platform`, `color`, `protocol`, `paths`, `text`:
    smaller pieces and shared helpers.
- `tests/` runs the library on concrete values.
- `app/` holds the I/O around the library: environment probes, the files
  it reads and writes, and the JSON forms of its types.

Each module states its laws as public proof functions next to the code.
