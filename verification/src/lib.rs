//! Metadata for WildFly container images and Galleon feature packs, and the version
//! expression language that selects them.
//!
//! - **Images**: [`WildFlyImage`], [`WildFlyImageRegistry`], and helpers like [`wildfly_dev`]
//!   and [`identifier`].
//! - **Feature packs**: [`FeaturePack`] and [`FeaturePackRegistry`].
//! - **Parsing**: [`parse_meta_items`], [`parse_wildfly_image`], [`parse_wildfly_images`],
//!   [`parse_feature_pack`], [`parse_feature_packs`] and [`parse_meta_item`] for the version
//!   expression language.
//! - **Completions**: [`suggest_wildfly_images`], [`suggest_feature_packs`],
//!   [`suggest_meta_items`], [`all_wildfly_images`], [`all_feature_packs`] and
//!   [`all_meta_items`].
//! - **Updates**: [`UpdateStatus`], [`UpdateResult`], the diff of two registries and the
//!   decision what an update does with the local configuration file.

pub mod complete;
pub mod feature_pack;
pub mod load;
pub mod meta_item;
pub mod options;
pub mod order;
pub mod parse;
pub mod sort;
pub mod text;
pub mod update;
pub mod version;
pub mod wildfly_image;

pub use complete::{
    all_feature_packs, all_meta_items, all_wildfly_images, completion_versions, parse_prefix_token,
    suggest_feature_packs, suggest_meta_items, suggest_wildfly_images,
};
pub use feature_pack::{FeaturePack, FeaturePackEntry, FeaturePackRegistry, VersionEntry};
pub use load::{load_step, parse_failure_message, with_hint, LoadAction, LoadEvent, LoadPhase};
pub use meta_item::MetaItem;
pub use options::{CompletionOptions, DslOptions, ParseOptions};
pub use parse::{
    extract_multiplier, parse_feature_pack, parse_feature_packs, parse_meta_item, parse_meta_items,
    parse_wildfly_image, parse_wildfly_images, try_parse_feature_packs, try_parse_meta_items,
};
pub use update::{
    feature_packs_diff, images_diff, plan_update, update_status, LocalConfig, UpdateAction,
    UpdateDiff, UpdateResult, UpdateStatus, FEATURE_PACKS_FILENAME, WILDFLY_IMAGES_FILENAME,
};
pub use version::Version;
pub use wildfly_image::{
    identifier, identifier_major, identifier_minor, wildfly_dev, WildFlyImage, WildFlyImageEntry,
    WildFlyImageRegistry, DEVELOPMENT_TAG, DEVELOPMENT_VERSION,
};
