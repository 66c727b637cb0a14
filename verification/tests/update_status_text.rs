#![allow(unused_imports)]
use std::cmp::Ordering;

use wildfly_meta::{
    all_feature_packs, all_meta_items, all_wildfly_images, completion_versions, extract_multiplier,
    feature_packs_diff, identifier, identifier_major, identifier_minor, images_diff,
    parse_feature_pack, parse_feature_packs, parse_meta_item, parse_meta_items, parse_prefix_token,
    parse_wildfly_image, parse_wildfly_images, suggest_feature_packs, suggest_meta_items,
    suggest_wildfly_images, wildfly_dev, CompletionOptions, DslOptions, FeaturePackEntry,
    FeaturePackRegistry, MetaItem, ParseOptions, UpdateDiff, UpdateResult, UpdateStatus, Version,
    VersionEntry, WildFlyImageEntry, WildFlyImageRegistry, FEATURE_PACKS_FILENAME,
    WILDFLY_IMAGES_FILENAME,
};


#[allow(dead_code)]
fn image_entry(major: u16, minor: u16, patch: u64, core_patch: u64, platforms: &[&str]) -> WildFlyImageEntry {
    let core_major = (major - 8) as u64;
    let jdk = if major <= 25 { 11 } else if major <= 29 { 17 } else { 21 };
    WildFlyImageEntry {
        major,
        minor,
        version: Version::new(major as u64, minor as u64, patch),
        core_version: Version::new(core_major, minor as u64, core_patch),
        release_version: format!("{}.{}.{}.Final", major, minor, patch),
        core_release_version: format!("{}.{}.{}.Final", core_major, minor, core_patch),
        image_tag: format!("{}.{}.{}.Final-jdk{}", major, minor, patch, jdk),
        repository: "quay.io/wildfly/wildfly".to_string(),
        platforms: platforms.iter().map(|p| p.to_string()).collect(),
    }
}

#[allow(dead_code)]
fn wildfly_image_registry() -> WildFlyImageRegistry {
    let releases: [(u16, u16, u64, u64); 33] = [
        (10, 0, 0, 10), (10, 1, 0, 0), (11, 0, 0, 0), (12, 0, 0, 0), (13, 0, 0, 0),
        (14, 0, 1, 0), (15, 0, 1, 1), (16, 0, 0, 0), (17, 0, 1, 0), (18, 0, 1, 0),
        (19, 0, 0, 0), (19, 1, 0, 0), (20, 0, 1, 0), (21, 0, 2, 1), (22, 0, 1, 0),
        (23, 0, 2, 1), (24, 0, 1, 0), (25, 0, 1, 0), (26, 0, 1, 0), (26, 1, 3, 2),
        (27, 0, 1, 0), (28, 0, 1, 0), (29, 0, 1, 0), (30, 0, 1, 0), (31, 0, 1, 0),
        (32, 0, 1, 0), (33, 0, 0, 0), (34, 0, 1, 0), (35, 0, 1, 0), (36, 0, 0, 0),
        (37, 0, 1, 0), (38, 0, 0, 0), (39, 0, 0, 0),
    ];
    let multi = ["linux/amd64", "linux/arm64", "linux/s390x", "linux/ppc64le"];
    let entries: Vec<WildFlyImageEntry> = releases
        .iter()
        .map(|&(major, minor, patch, core_patch)| {
            let platforms: &[&str] = if major >= 33 { &multi } else { &[] };
            image_entry(major, minor, patch, core_patch, platforms)
        })
        .collect();
    WildFlyImageRegistry::from_entries(entries)
}

#[allow(dead_code)]
fn fp_entry(shortcut: &str, name: &str, group_id: &str, artifact_id: &str, versions: &[(&str, &str)]) -> FeaturePackEntry {
    FeaturePackEntry {
        shortcut: shortcut.to_string(),
        name: name.to_string(),
        group_id: group_id.to_string(),
        artifact_id: artifact_id.to_string(),
        versions: versions
            .iter()
            .map(|(version, release_version)| VersionEntry {
                version: version.to_string(),
                release_version: release_version.to_string(),
            })
            .collect(),
    }
}

#[allow(dead_code)]
fn feature_pack_registry() -> FeaturePackRegistry {
    let mut entries = vec![
        fp_entry(
            "ai",
            "AI",
            "org.wildfly.generative-ai",
            "wildfly-ai-feature-pack",
            &[("0.9.1", "0.9.1"), ("0.9.0", "0.9.0"), ("0.8.1", "0.8.1")],
        ),
        fp_entry(
            "graphql",
            "GraphQL",
            "org.wildfly.extras.graphql",
            "wildfly-microprofile-graphql-feature-pack",
            &[("2.7.0", "2.7.0.Final")],
        ),
        fp_entry(
            "grpc",
            "gRPC",
            "org.wildfly.extras.grpc",
            "wildfly-grpc-feature-pack",
            &[("0.1.16", "0.1.16")],
        ),
    ];
    entries.push(fp_entry(
        "myfaces",
        "MyFaces",
        "org.wildfly",
        "wildfly-myfaces-feature-pack",
        &[("2.0.3", "2.0.3.Final")],
    ));
    FeaturePackRegistry::from_entries(entries).unwrap()
}

#[allow(dead_code)]
fn diff_image(major: u16, core_major: u64) -> WildFlyImageEntry {
    WildFlyImageEntry {
        major,
        minor: 0,
        version: Version::new(major as u64, 0, 0),
        core_version: Version::new(core_major, 0, 0),
        release_version: format!("{}.0.0.Final", major),
        core_release_version: format!("{}.0.0.Final", core_major),
        image_tag: format!("{}.0.0.Final", major),
        repository: "quay.io/wildfly/wildfly".to_string(),
        platforms: Vec::new(),
    }
}

#[test]
fn update_summary_downloaded() {
    let status = UpdateStatus::Downloaded {
        version: 5,
        count: 33,
    };
    assert_eq!(
        status.summary("WildFly images"),
        "WildFly images downloaded (33 entries, version 5)"
    );
}

#[test]
fn update_summary_already_up_to_date() {
    let status = UpdateStatus::AlreadyUpToDate(3);
    assert_eq!(
        status.summary("Feature packs"),
        "Feature packs already up to date (version 3)"
    );
}

#[test]
fn update_summary_updated_with_diff() {
    let status = UpdateStatus::Updated {
        from_version: 5,
        to_version: 6,
        diff: UpdateDiff {
            added: vec!["WildFly 36.0".to_string(), "WildFly 35.0.1".to_string()],
            removed: vec!["WildFly 24.0".to_string()],
        },
    };
    let summary = status.summary("WildFly images");
    assert!(summary.contains("updated from version 5 to 6"));
    assert!(summary.contains("Added: WildFly 36.0, WildFly 35.0.1"));
    assert!(summary.contains("Removed: WildFly 24.0"));
}

#[test]
fn update_summary_updated_empty_diff() {
    let status = UpdateStatus::Updated {
        from_version: 1,
        to_version: 2,
        diff: UpdateDiff {
            added: vec![],
            removed: vec![],
        },
    };
    let summary = status.summary("WildFly images");
    assert_eq!(summary, "WildFly images updated from version 1 to 2");
}

#[test]
fn update_update_result_summary() {
    let result = UpdateResult {
        wildfly_images: UpdateStatus::AlreadyUpToDate(5),
        feature_packs: UpdateStatus::Downloaded {
            version: 3,
            count: 7,
        },
    };
    let summary = result.summary();
    assert!(summary.contains("WildFly images already up to date (version 5)"));
    assert!(summary.contains("Feature packs downloaded (7 entries, version 3)"));
}

#[test]
fn update_images_diff_computation() {
    let old_reg = WildFlyImageRegistry::from_entries(vec![diff_image(30, 22), diff_image(31, 23)]);
    let new_reg = WildFlyImageRegistry::from_entries(vec![diff_image(31, 23), diff_image(32, 24)]);
    let diff = images_diff(&old_reg, &new_reg);
    assert_eq!(diff.added, vec!["WildFly 32.0"]);
    assert_eq!(diff.removed, vec!["WildFly 30.0"]);
}

#[test]
fn update_feature_packs_diff_computation() {
    let old_reg = FeaturePackRegistry::from_entries(vec![
        fp_entry("ai", "AI", "org.wildfly.ai", "wildfly-ai-feature-pack", &[("0.9.0", "0.9.0")]),
        fp_entry(
            "graphql",
            "GraphQL",
            "org.wildfly.extras.graphql",
            "wildfly-graphql-feature-pack",
            &[("2.3.0", "2.3.0.Final")],
        ),
    ])
    .unwrap();
    let new_reg = FeaturePackRegistry::from_entries(vec![fp_entry(
        "ai",
        "AI",
        "org.wildfly.ai",
        "wildfly-ai-feature-pack",
        &[("0.9.0", "0.9.0"), ("1.0.0", "1.0.0")],
    )])
    .unwrap();
    let diff = feature_packs_diff(&old_reg, &new_reg);
    assert_eq!(diff.added, vec!["ai 1.0.0"]);
    assert_eq!(diff.removed, vec!["graphql 2.3.0"]);
}
