# victauri

The logic of Victauri — an MCP bridge to running Tauri apps, with window
capture and visual regression checks — as a library verified with Verus,
plus the process-facing code around it.

## Layout

- `src/` — the verified library. Verus proves every function's contract,
  except the small trusted items that call outside crates (see below).
  - `text.rs` — character-level text: Unicode whitespace and trimming, ASCII
    case folding, substring search, splitting, decimal formatting and parsing.
  - `authz.rs` — canonical capability identities of MCP tool calls.
  - `bridge.rs` — the decisions of the stdio-to-HTTP bridge: routing, the
    backend session, bounded retries with back-off, classifying responses
    (status, event streams), discovery patience and messages.
  - `discovery.rs` — discovery entries: parsing, trust, selecting a backend by
    app identity, tokens, process listings.
  - `registry.rs` / `ranking.rs` — the command registry (kept sorted by
    name), case-insensitive search, and natural-language resolution with
    exact fractional relevance scores.
  - `frame.rs` / `png.rs` — pixel conversions for captured frames
    (BGRA, premultiplied alpha, X11 depths, cropping, blank detection) and a
    PNG encoder with CRC-32 and Adler-32.
  - `visual.rs` — PNG decoding to RGBA, pixel comparison with tolerance and
    mask regions, diff marking.
  - `host.rs`, `params.rs` — the browser host's command, port and message
    decisions; tool parameter types.
  - `json.rs` — the JSON values carried through `serde_json`.
- `app/` — plain Rust around the library: the bridge's I/O loop (tokio,
  reqwest), filesystem and process access for discovery, X11 capture, visual
  comparison against files on disk, `inventory` auto-discovery, and the serde
  forms of the library's types. The Windows capture engines (WGC and GDI,
  through the `windows` crate) are not built; only the choice between them is.
  The bridge's baked fallback tool list is empty: while no app is reachable
  it answers `tools/list` with no tools.
- `tests/` — tests of the library through its public interface.

Outside crates are called from the library only through small trusted items
(wrappers and type declarations) whose doc comments say what they claim.
