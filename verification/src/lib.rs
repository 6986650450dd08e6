//! Resolution of desktop appearance profiles and prepared background bundles.

mod asset;
mod bundle;
mod error;
mod layout;
mod model;
mod output_map;
mod paths;
mod profile;

pub use asset::{
    asset_formats_are_told_apart, asset_layout_is_magic_then_pixels, asset_outcome, decode_asset, is_xrgb_of, encode_asset, magic_of, pixel_len,
    pixels_outcome, prepared_asset_round_trips, rgba_pixels_agree_with_asset, read_asset_is_its_encoding, read_prepared_asset,
    read_prepared_pixels, rgba_to_xrgb8888_le, write_prepared_pixels, write_prepared_xrgb,
    xrgb_conversion_distributes_over_concatenation, xrgb_conversion_ignores_alpha, xrgb_pixel, PreparedPixels,
};
pub use bundle::{
    bundle_paths_resolve_against_the_manifest_directory, entry_match_is_exact, entry_matches, resolve_against, PixelFormat, PreparedBackground, PreparedBundle, PreparedEntry,
};
pub use error::{AssetProblem, Error};
pub use layout::{centered_offset, tile_origins};
pub use model::{
    copy_path, desc_prefix, relativize_against_absolute_base_is_idempotent,
    relativize_map_keeps_selectors_and_fits, relativize_rewrites_only_relative_paths, relativize_rule,
    selectors_of, Background, Fit, OutputIdentity, Rule,
    Source,
};
pub use output_map::{key_less, key_precedes, keys_sorted, keys_unique, map_of, OutputMap};
pub use paths::{
    base_directory, base_directory_spec, is_absolute_path, is_relative, is_user_name_char,
    join_path, join_path_spec, path_parent, published_bundle_path, published_bundle_spec,
    published_paths_stay_in_user_directory, published_profile_path, published_profile_spec,
    user_directory_spec, user_profile_path, valid_user_name,
    valid_user_names_are_ascii_alphanumeric_dash_underscore, BUNDLE_FILE, PROFILE_FILE, PUBLISHED_ROOT,
};
pub use profile::{
    apply_layer, connector_rule_precedes_description_rule, finish, first_selected, fit_in,
    global_rule, path_in, resolution_follows_layer_precedence,
    user_preference_beats_system_and_packaged,
    layer_fit, layer_path, output_rule, resolution_is_fieldwise,
    resolution_takes_each_field_from_highest_layer, resolve_layers, rule_of, runtime_override_wins,
    sets_fit, sets_path, unresolved, LayerError, LayerFile, Profile, Registry, ResolvedBackground, ResolvedView,
    Resolution,
};

use vstd::prelude::*;

verus! {

/// Version of the preference schema that this library reads.
pub const SCHEMA_VERSION: u32 = 1;

/// Version of the prepared bundle manifest that this library reads.
pub const BUNDLE_VERSION: u32 = 1;

/// Packaged (vendor) global profile.
pub const PACKAGED_PROFILE: &'static str = "/usr/share/appearance-profiles/default.toml";

/// System-wide global profile.
pub const SYSTEM_PROFILE: &'static str = "/etc/appearance-profiles/default.toml";

} // verus!
