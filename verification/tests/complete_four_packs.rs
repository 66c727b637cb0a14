#![allow(unused_imports)]
use std::cmp::Ordering;

use wildfly_meta::{
    all_feature_packs, all_meta_items, all_wildfly_images, completion_versions, extract_multiplier,
    feature_packs_diff, identifier, identifier_major, identifier_minor, images_diff,
    parse_feature_pack, parse_feature_packs, parse_meta_item, parse_meta_items, parse_prefix_token,
    parse_wildfly_image, parse_wildfly_images, suggest_feature_packs, suggest_meta_items,
    suggest_wildfly_images, wildfly_dev, CompletionOptions, DslOptions, FeaturePackEntry,
    FeaturePackRegistry, MetaItem, ParseOptions, UpdateDiff, UpdateResult, UpdateStatus, Version,
    VersionEntry, WildFlyImageEntry, WildFlyImageRegistry, FEATURE_PACKS_FILENAME,
    WILDFLY_IMAGES_FILENAME,
};


#[allow(dead_code)]
fn image_entry(major: u16, minor: u16, patch: u64, core_patch: u64, platforms: &[&str]) -> WildFlyImageEntry {
    let core_major = (major - 8) as u64;
    let jdk = if major <= 25 { 11 } else if major <= 29 { 17 } else { 21 };
    WildFlyImageEntry {
        major,
        minor,
        version: Version::new(major as u64, minor as u64, patch),
        core_version: Version::new(core_major, minor as u64, core_patch),
        release_version: format!("{}.{}.{}.Final", major, minor, patch),
        core_release_version: format!("{}.{}.{}.Final", core_major, minor, core_patch),
        image_tag: format!("{}.{}.{}.Final-jdk{}", major, minor, patch, jdk),
        repository: "quay.io/wildfly/wildfly".to_string(),
        platforms: platforms.iter().map(|p| p.to_string()).collect(),
    }
}

#[allow(dead_code)]
fn wildfly_image_registry() -> WildFlyImageRegistry {
    let releases: [(u16, u16, u64, u64); 33] = [
        (10, 0, 0, 10), (10, 1, 0, 0), (11, 0, 0, 0), (12, 0, 0, 0), (13, 0, 0, 0),
        (14, 0, 1, 0), (15, 0, 1, 1), (16, 0, 0, 0), (17, 0, 1, 0), (18, 0, 1, 0),
        (19, 0, 0, 0), (19, 1, 0, 0), (20, 0, 1, 0), (21, 0, 2, 1), (22, 0, 1, 0),
        (23, 0, 2, 1), (24, 0, 1, 0), (25, 0, 1, 0), (26, 0, 1, 0), (26, 1, 3, 2),
        (27, 0, 1, 0), (28, 0, 1, 0), (29, 0, 1, 0), (30, 0, 1, 0), (31, 0, 1, 0),
        (32, 0, 1, 0), (33, 0, 0, 0), (34, 0, 1, 0), (35, 0, 1, 0), (36, 0, 0, 0),
        (37, 0, 1, 0), (38, 0, 0, 0), (39, 0, 0, 0),
    ];
    let multi = ["linux/amd64", "linux/arm64", "linux/s390x", "linux/ppc64le"];
    let entries: Vec<WildFlyImageEntry> = releases
        .iter()
        .map(|&(major, minor, patch, core_patch)| {
            let platforms: &[&str] = if major >= 33 { &multi } else { &[] };
            image_entry(major, minor, patch, core_patch, platforms)
        })
        .collect();
    WildFlyImageRegistry::from_entries(entries)
}

#[allow(dead_code)]
fn fp_entry(shortcut: &str, name: &str, group_id: &str, artifact_id: &str, versions: &[(&str, &str)]) -> FeaturePackEntry {
    FeaturePackEntry {
        shortcut: shortcut.to_string(),
        name: name.to_string(),
        group_id: group_id.to_string(),
        artifact_id: artifact_id.to_string(),
        versions: versions
            .iter()
            .map(|(version, release_version)| VersionEntry {
                version: version.to_string(),
                release_version: release_version.to_string(),
            })
            .collect(),
    }
}

#[allow(dead_code)]
fn feature_pack_registry() -> FeaturePackRegistry {
    let mut entries = vec![
        fp_entry(
            "ai",
            "AI",
            "org.wildfly.generative-ai",
            "wildfly-ai-feature-pack",
            &[("0.9.1", "0.9.1"), ("0.9.0", "0.9.0"), ("0.8.1", "0.8.1")],
        ),
        fp_entry(
            "graphql",
            "GraphQL",
            "org.wildfly.extras.graphql",
            "wildfly-microprofile-graphql-feature-pack",
            &[("2.7.0", "2.7.0.Final")],
        ),
        fp_entry(
            "grpc",
            "gRPC",
            "org.wildfly.extras.grpc",
            "wildfly-grpc-feature-pack",
            &[("0.1.16", "0.1.16")],
        ),
    ];
    entries.push(fp_entry(
        "myfaces",
        "MyFaces",
        "org.wildfly",
        "wildfly-myfaces-feature-pack",
        &[("2.0.3", "2.0.3.Final")],
    ));
    FeaturePackRegistry::from_entries(entries).unwrap()
}

#[test]
fn tests_all_wildfly_images_includes_versions_and_dev() {
    let wildfly_images = wildfly_image_registry();
    let ids = all_wildfly_images(&wildfly_images);
    assert!(ids.contains(&"34".to_string()));
    assert!(ids.contains(&"26.1".to_string()));
    assert!(ids.contains(&"dev".to_string()));
}

#[test]
fn tests_all_wildfly_images_excludes_feature_packs() {
    let wildfly_images = wildfly_image_registry();
    let ids = all_wildfly_images(&wildfly_images);
    assert!(!ids.contains(&"ai".to_string()));
    assert!(!ids.contains(&"ai:0.9.0".to_string()));
}

#[test]
fn tests_all_wildfly_images_no_duplicates() {
    let wildfly_images = wildfly_image_registry();
    let ids = all_wildfly_images(&wildfly_images);
    let mut deduped = ids.clone();
    deduped.sort();
    deduped.dedup();
    assert_eq!(ids.len(), deduped.len());
}

#[test]
fn tests_all_feature_packs_includes_shortcuts_and_versioned() {
    let feature_packs = feature_pack_registry();
    let ids = all_feature_packs(&feature_packs);
    assert!(ids.contains(&"ai".to_string()));
    assert!(ids.contains(&"ai:0.9.0".to_string()));
    assert!(ids.contains(&"grpc".to_string()));
}

#[test]
fn tests_all_feature_packs_excludes_versions() {
    let feature_packs = feature_pack_registry();
    let ids = all_feature_packs(&feature_packs);
    assert!(!ids.contains(&"34".to_string()));
    assert!(!ids.contains(&"dev".to_string()));
}

#[test]
fn tests_all_feature_packs_includes_all_shortcuts() {
    let feature_packs = feature_pack_registry();
    let ids = all_feature_packs(&feature_packs);
    for shortcut in &["ai", "graphql", "grpc", "myfaces"] {
        assert!(ids.contains(&shortcut.to_string()), "Missing: {}", shortcut);
    }
}

#[test]
fn tests_all_meta_items_includes_both() {
    let wildfly_images = wildfly_image_registry();
    let feature_packs = feature_pack_registry();
    let ids = all_meta_items(&wildfly_images, &feature_packs);
    assert!(ids.contains(&"34".to_string()));
    assert!(ids.contains(&"26.1".to_string()));
    assert!(ids.contains(&"dev".to_string()));
    assert!(ids.contains(&"ai".to_string()));
    assert!(ids.contains(&"ai:0.9.0".to_string()));
}

#[test]
fn tests_all_meta_items_no_duplicates() {
    let wildfly_images = wildfly_image_registry();
    let feature_packs = feature_pack_registry();
    let ids = all_meta_items(&wildfly_images, &feature_packs);
    let mut deduped = ids.clone();
    deduped.sort();
    deduped.dedup();
    assert_eq!(ids.len(), deduped.len());
}

#[test]
fn tests_suggest_wildfly_empty_returns_all_versions() {
    let wildfly_images = wildfly_image_registry();
    let results = suggest_wildfly_images("", &wildfly_images, &DslOptions::all());
    assert!(results.contains(&"34".to_string()));
    assert!(results.contains(&"dev".to_string()));
    assert!(!results.contains(&"ai".to_string()));
}

#[test]
fn tests_suggest_wildfly_after_comma() {
    let wildfly_images = wildfly_image_registry();
    let results = suggest_wildfly_images("34,", &wildfly_images, &DslOptions::all());
    assert!(results.iter().all(|r| r.starts_with("34,")));
    assert!(!results.is_empty());
}

#[test]
fn tests_suggest_wildfly_range_bare_dots() {
    let wildfly_images = wildfly_image_registry();
    let results = suggest_wildfly_images("..", &wildfly_images, &DslOptions::all());
    assert!(!results.is_empty());
    let versions = completion_versions(&wildfly_images);
    assert!(!results.contains(&format!("..{}", versions[0])));
}

#[test]
fn tests_suggest_wildfly_range_start() {
    let wildfly_images = wildfly_image_registry();
    let results = suggest_wildfly_images("20..", &wildfly_images, &DslOptions::all());
    assert!(!results.is_empty());
    assert!(results.iter().all(|r| r.starts_with("20..")));
}

#[test]
fn tests_suggest_wildfly_range_dots_2() {
    let wildfly_images = wildfly_image_registry();
    let results = suggest_wildfly_images("..2", &wildfly_images, &DslOptions::all());
    assert!(results.contains(&"..20".to_string()));
    assert!(results.contains(&"..26.1".to_string()));
}

#[test]
fn tests_suggest_wildfly_range_complete() {
    let wildfly_images = wildfly_image_registry();
    let results = suggest_wildfly_images("20..25", &wildfly_images, &DslOptions::all());
    assert!(results.is_empty());
}

#[test]
fn tests_suggest_wildfly_range_26_dots_2() {
    let wildfly_images = wildfly_image_registry();
    let results = suggest_wildfly_images("26..2", &wildfly_images, &DslOptions::all());
    assert!(results.iter().all(|r| r.starts_with("26..2")));
    assert!(results.contains(&"26..27".to_string()));
}

#[test]
fn tests_suggest_wildfly_range_261_dots_2() {
    let wildfly_images = wildfly_image_registry();
    let results = suggest_wildfly_images("26.1..2", &wildfly_images, &DslOptions::all());
    assert!(results.iter().all(|r| r.starts_with("26.1..2")));
    assert!(results.contains(&"26.1..27".to_string()));
}

#[test]
fn tests_suggest_wildfly_invalid_range_start() {
    let wildfly_images = wildfly_image_registry();
    let results = suggest_wildfly_images("foo..", &wildfly_images, &DslOptions::all());
    assert!(results.is_empty());
}

#[test]
fn tests_suggest_wildfly_invalid_range_end() {
    let wildfly_images = wildfly_image_registry();
    let results = suggest_wildfly_images("..foo", &wildfly_images, &DslOptions::all());
    assert!(results.is_empty());
}

#[test]
fn tests_suggest_wildfly_no_options() {
    let wildfly_images = wildfly_image_registry();
    let results = suggest_wildfly_images("", &wildfly_images, &DslOptions::none());
    assert!(results.contains(&"34".to_string()));
    assert!(results.contains(&"dev".to_string()));
}

#[test]
fn tests_suggest_wildfly_no_options_no_comma_prefix() {
    let wildfly_images = wildfly_image_registry();
    let results = suggest_wildfly_images("34,", &wildfly_images, &DslOptions::none());
    assert!(!results.iter().any(|r| r.starts_with("34,")));
}

#[test]
fn tests_suggest_wildfly_multiplier() {
    let wildfly_images = wildfly_image_registry();
    let results = suggest_wildfly_images("3x", &wildfly_images, &DslOptions::all());
    assert!(!results.is_empty());
    assert!(results.iter().all(|r| r.starts_with("3x")));
    assert!(results.contains(&"3x34".to_string()));
    assert!(results.contains(&"3xdev".to_string()));
}

#[test]
fn tests_suggest_wildfly_multiplier_with_range() {
    let wildfly_images = wildfly_image_registry();
    let results = suggest_wildfly_images("2x20..", &wildfly_images, &DslOptions::all());
    assert!(!results.is_empty());
    assert!(results.iter().all(|r| r.starts_with("2x20..")));
}

#[test]
fn tests_suggest_wildfly_multiplier_disabled() {
    let wildfly_images = wildfly_image_registry();
    let opts = DslOptions {
        ranges: true,
        multipliers: false,
    };
    let results = suggest_wildfly_images("3x", &wildfly_images, &opts);
    assert!(results.is_empty() || !results.iter().any(|r| r.starts_with("3x")));
}

#[test]
fn tests_suggest_wildfly_comma_then_range() {
    let wildfly_images = wildfly_image_registry();
    let results = suggest_wildfly_images("34,20..", &wildfly_images, &DslOptions::all());
    assert!(results.iter().all(|r| r.starts_with("34,20..")));
    assert!(!results.is_empty());
}

#[test]
fn tests_suggest_feature_pack_empty_returns_all() {
    let feature_packs = feature_pack_registry();
    let results = suggest_feature_packs("", &feature_packs, &DslOptions::all());
    assert!(results.contains(&"ai".to_string()));
    assert!(results.contains(&"grpc".to_string()));
    assert!(results.contains(&"ai:0.9.0".to_string()));
}

#[test]
fn tests_suggest_feature_pack_excludes_versions() {
    let feature_packs = feature_pack_registry();
    let results = suggest_feature_packs("", &feature_packs, &DslOptions::all());
    assert!(!results.contains(&"34".to_string()));
    assert!(!results.contains(&"dev".to_string()));
}

#[test]
fn tests_suggest_feature_pack_after_comma() {
    let feature_packs = feature_pack_registry();
    let results = suggest_feature_packs("ai,", &feature_packs, &DslOptions::all());
    assert!(results.iter().all(|r| r.starts_with("ai,")));
    assert!(!results.is_empty());
}

#[test]
fn tests_suggest_feature_pack_multiplier() {
    let feature_packs = feature_pack_registry();
    let results = suggest_feature_packs("2x", &feature_packs, &DslOptions::all());
    assert!(!results.is_empty());
    assert!(results.iter().all(|r| r.starts_with("2x")));
    assert!(results.contains(&"2xai".to_string()));
}

#[test]
fn tests_suggest_feature_pack_no_ranges() {
    let feature_packs = feature_pack_registry();
    let results = suggest_feature_packs("..", &feature_packs, &DslOptions::all());
    assert!(results.iter().all(|r| !r.contains("..")));
}

#[test]
fn tests_suggest_feature_pack_no_options() {
    let feature_packs = feature_pack_registry();
    let results = suggest_feature_packs("", &feature_packs, &DslOptions::none());
    assert!(results.contains(&"ai".to_string()));
}

#[test]
fn tests_suggest_meta_empty_returns_all() {
    let wildfly_images = wildfly_image_registry();
    let feature_packs = feature_pack_registry();
    let results = suggest_meta_items(
        "",
        &wildfly_images,
        &feature_packs,
        &DslOptions::all(),
        &DslOptions::all(),
    );
    assert!(results.contains(&"34".to_string()));
    assert!(results.contains(&"ai".to_string()));
    assert!(results.contains(&"dev".to_string()));
}

#[test]
fn tests_suggest_meta_after_comma() {
    let wildfly_images = wildfly_image_registry();
    let feature_packs = feature_pack_registry();
    let results = suggest_meta_items(
        "34,",
        &wildfly_images,
        &feature_packs,
        &DslOptions::all(),
        &DslOptions::all(),
    );
    assert!(results.iter().all(|r| r.starts_with("34,")));
    assert!(results.iter().any(|r| r.ends_with("ai")));
}

#[test]
fn tests_suggest_meta_range() {
    let wildfly_images = wildfly_image_registry();
    let feature_packs = feature_pack_registry();
    let results = suggest_meta_items(
        "20..",
        &wildfly_images,
        &feature_packs,
        &DslOptions::all(),
        &DslOptions::all(),
    );
    assert!(!results.is_empty());
    assert!(results.iter().all(|r| r.starts_with("20..")));
}

#[test]
fn tests_suggest_meta_multiplier() {
    let wildfly_images = wildfly_image_registry();
    let feature_packs = feature_pack_registry();
    let results = suggest_meta_items(
        "3x",
        &wildfly_images,
        &feature_packs,
        &DslOptions::all(),
        &DslOptions::all(),
    );
    assert!(!results.is_empty());
    assert!(results.iter().all(|r| r.starts_with("3x")));
    assert!(results.contains(&"3x34".to_string()));
    assert!(results.contains(&"3xai".to_string()));
}

#[test]
fn tests_suggest_meta_multiplier_with_range() {
    let wildfly_images = wildfly_image_registry();
    let feature_packs = feature_pack_registry();
    let results = suggest_meta_items(
        "2x20..",
        &wildfly_images,
        &feature_packs,
        &DslOptions::all(),
        &DslOptions::all(),
    );
    assert!(!results.is_empty());
    assert!(results.iter().all(|r| r.starts_with("2x20..")));
}

#[test]
fn tests_suggest_meta_no_options() {
    let wildfly_images = wildfly_image_registry();
    let feature_packs = feature_pack_registry();
    let results = suggest_meta_items(
        "",
        &wildfly_images,
        &feature_packs,
        &DslOptions::none(),
        &DslOptions::none(),
    );
    assert!(results.contains(&"34".to_string()));
    assert!(results.contains(&"ai".to_string()));
}

#[test]
fn tests_suggest_meta_comma_then_range() {
    let wildfly_images = wildfly_image_registry();
    let feature_packs = feature_pack_registry();
    let results = suggest_meta_items(
        "34,20..",
        &wildfly_images,
        &feature_packs,
        &DslOptions::all(),
        &DslOptions::all(),
    );
    assert!(results.iter().all(|r| r.starts_with("34,20..")));
    assert!(!results.is_empty());
}

#[test]
fn tests_suggest_meta_multiple_commas() {
    let wildfly_images = wildfly_image_registry();
    let feature_packs = feature_pack_registry();
    let results = suggest_meta_items(
        "10,26,..2",
        &wildfly_images,
        &feature_packs,
        &DslOptions::all(),
        &DslOptions::all(),
    );
    assert!(results.iter().all(|r| r.starts_with("10,26,")));
}

#[test]
fn tests_suggest_meta_dots_26_dot() {
    let wildfly_images = wildfly_image_registry();
    let feature_packs = feature_pack_registry();
    let results = suggest_meta_items(
        "..26.",
        &wildfly_images,
        &feature_packs,
        &DslOptions::all(),
        &DslOptions::all(),
    );
    assert_eq!(results, vec!["..26.1"]);
}

#[test]
fn tests_suggest_meta_dots_1000() {
    let wildfly_images = wildfly_image_registry();
    let feature_packs = feature_pack_registry();
    let results = suggest_meta_items(
        "..1000",
        &wildfly_images,
        &feature_packs,
        &DslOptions::all(),
        &DslOptions::all(),
    );
    assert!(results.is_empty());
}

#[test]
fn tests_suggest_meta_mixed_ranges_for_images_only() {
    let wildfly_images = wildfly_image_registry();
    let feature_packs = feature_pack_registry();
    let results = suggest_meta_items(
        "20..",
        &wildfly_images,
        &feature_packs,
        &DslOptions::all(),
        &DslOptions::none(),
    );
    assert!(!results.is_empty());
    assert!(results.iter().all(|r| r.starts_with("20..")));
}

#[test]
fn tests_suggest_meta_no_ranges_when_image_opts_disable() {
    let wildfly_images = wildfly_image_registry();
    let feature_packs = feature_pack_registry();
    let results = suggest_meta_items(
        "20..",
        &wildfly_images,
        &feature_packs,
        &DslOptions::none(),
        &DslOptions::all(),
    );
    assert!(results.iter().all(|r| !r.contains("..")));
}

#[test]
fn tests_prefix_token_none() {
    let (prefix, token) = parse_prefix_token(None);
    assert_eq!(prefix, "");
    assert_eq!(token, "");
}

#[test]
fn tests_prefix_token_simple() {
    let (prefix, token) = parse_prefix_token(Some("34"));
    assert_eq!(prefix, "");
    assert_eq!(token, "34");
}

#[test]
fn tests_prefix_token_after_comma() {
    let (prefix, token) = parse_prefix_token(Some("34,26"));
    assert_eq!(prefix, "34,");
    assert_eq!(token, "26");
}

#[test]
fn tests_prefix_token_trailing_comma() {
    let (prefix, token) = parse_prefix_token(Some("34,"));
    assert_eq!(prefix, "34,");
    assert_eq!(token, "");
}

#[test]
fn tests_completion_versions_format() {
    let wildfly_images = wildfly_image_registry();
    let versions = completion_versions(&wildfly_images);
    assert!(versions.contains(&"10".to_string()));
    assert!(versions.contains(&"26.1".to_string()));
    assert!(versions.contains(&"dev".to_string()));
    assert!(!versions.contains(&"10.0".to_string()));
    assert!(!versions.contains(&"34.0".to_string()));
}

#[test]
fn tests_completion_versions_no_duplicates() {
    let wildfly_images = wildfly_image_registry();
    let versions = completion_versions(&wildfly_images);
    let mut deduped = versions.clone();
    deduped.sort();
    deduped.dedup();
    assert_eq!(versions.len(), deduped.len());
}
