# opencode_info

A plugin for OpenAction hosts (such as OpenDeck) that shows OpenCode Go plan
usage on a key as a colour-coded progress bar.

- `src/` is the verified library (Verus):
  - `pixels.rs`: the model of a 72x72 RGBA key image and of painting a region;
  - `render.rs`: the canvas, the 5x7 bitmap font, progress bars, the single and
    summary layouts, and the PNG / `data:` URL output;
  - `settings.rs`: key settings, their defaults, and colour parsing;
  - `usage.rs`, `state.rs`: usage data, HTTP status handling, the usage cache;
  - `actions.rs`: window rotation and what a key draws after a refresh;
  - `cli.rs`, `text.rs`: command-line modes and small string helpers.
- `app/` is the program around it: the OpenAction event loop, the HTTP
  request, the process-wide cache and the debug image files.
- `tests/` holds the tests of the library.
