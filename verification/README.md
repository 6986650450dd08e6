# appearance-profiles

A verified library for resolving desktop appearance (backgrounds) across
packaged, system, user and runtime layers, and for reading and writing the
prepared pixel assets that a producer publishes for pre-login consumers.

- `src/` is the verified library:
  - `model.rs`: fit modes, background rules, output identities and selectors;
  - `output_map.rs`: the per-output rules of a profile, keyed by selector and
    kept in selector order;
  - `profile.rs`: profiles, the layer policy for missing, unreadable and
    malformed files, the registry of layers, field-wise resolution and
    its laws;
  - `bundle.rs`: prepared bundles and the exact-match lookup;
  - `asset.rs`: the prepared asset format (magic and pixels), XRGB conversion
    and the round-trip laws;
  - `paths.rs`: Unix path joining, base directories and the published
    snapshot layout;
  - `layout.rs`: centring and tiling offsets.
- `app/` holds file and environment access, the TOML formats (serde copies
  of the library's types) and image preparation with the `image` crate.
- `tests/` exercises the library on concrete values.
