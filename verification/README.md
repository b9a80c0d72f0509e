# launchpad

The integer and bookkeeping core of a Launchpad-style app launcher, verified
with Verus: every function in `src/` carries a `requires`/`ensures` contract
that Verus proves, and the `law_*` proof functions state properties that span
several calls.

## Layout

- `src/renderer/` — renderer decisions that do not need a GPU:
  - `icon_atlas`, `atlas_grid`: the fixed-slot icon atlas (cell geometry,
    growth that keeps every icon and its UVs, blits and clears).
  - `glyph_atlas`: the growable glyph atlas with its row packer (placed glyphs
    never overlap, growth and insertion keep earlier glyphs' pixels).
  - `fps`: the presentation-rate ring buffer and its integer reading.
  - `resources`, `counters`, `prepare`: instance-buffer capacity policy,
    per-category counters, modal-surface selection, and the bookkeeping of a
    whole `prepare` call (call, rebuild and growth counts per lane).
  - `init`, `frame`, `text_engine`, `gpu_profile`: surface mode selection and
    resize, frame target and grid draw plan, frame-capture row handling,
    font-fallback locale, trace paths.
- `src/ui/`, `src/ui_model/`: element ids, the id → rectangle registry,
  widget enums and ids, the toggle's interaction state machine and the
  button's input and phase rules.
- `src/settings.rs`, `src/startup_timer.rs`, `src/scroll.rs`: settings and
  their labels, startup timeline arithmetic, scroll phases.
- `tests/`: tests run against the compiled library.
- `app/`: ordinary Rust around the library — clocks, environment, locale,
  JSON and PNG output, text shaping with cosmic-text on top of the verified
  glyph atlas, and the floating-point scroll and spring physics.

Run `verus` on `src/lib.rs` to check the proofs.
