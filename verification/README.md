# ledist_pi

Page planning and compilation for LED destination boards, verified with Verus.

- `src/e233.rs`: the E233 board. `plan` lays an operator's selection out in
  pages or names the rule it breaks; `compile` draws the pages from the
  profile's assets and builds the repeating page script.
- `src/patterns.rs`: page patterns for other boards (images placed on pages,
  optional scroll text), compiled into a page script.
- `src/font.rs`: BDF fonts: reading, JIS X 0208 lookup through EUC-JP,
  measuring, merging a fallback font, drawing.
- `src/frame.rs`: RGB frames and copying images into them.
- `src/profile.rs`, `src/script.rs`: vehicle profiles, loaded assets, and the
  page script that a runner plays.
- `src/text.rs`: trimming, splitting and number reading on characters.
- `app/`: reading profiles, patterns, fonts and images from disk, and the TOML
  documents with their serde derives.

Every function in `src/` states its result in `ensures` over spec functions;
the `law_*` proof functions state properties that span several calls.
