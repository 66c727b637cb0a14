#![allow(unused_imports)]
use std::cmp::Ordering;

use wildfly_meta::{
    all_feature_packs, all_meta_items, all_wildfly_images, completion_versions, extract_multiplier,
    feature_packs_diff, identifier, identifier_major, identifier_minor, images_diff,
    parse_feature_pack, parse_feature_packs, parse_meta_item, parse_meta_items, parse_prefix_token,
    parse_wildfly_image, parse_wildfly_images, suggest_feature_packs, suggest_meta_items,
    suggest_wildfly_images, wildfly_dev, CompletionOptions, DslOptions, FeaturePackEntry,
    FeaturePackRegistry, MetaItem, ParseOptions, UpdateDiff, UpdateResult, UpdateStatus, Version,
    VersionEntry, WildFlyImageEntry, WildFlyImageRegistry, FEATURE_PACKS_FILENAME,
    WILDFLY_IMAGES_FILENAME,
};


#[allow(dead_code)]
fn image_entry(major: u16, minor: u16, patch: u64, core_patch: u64, platforms: &[&str]) -> WildFlyImageEntry {
    let core_major = (major - 8) as u64;
    let jdk = if major <= 25 { 11 } else if major <= 29 { 17 } else { 21 };
    WildFlyImageEntry {
        major,
        minor,
        version: Version::new(major as u64, minor as u64, patch),
        core_version: Version::new(core_major, minor as u64, core_patch),
        release_version: format!("{}.{}.{}.Final", major, minor, patch),
        core_release_version: format!("{}.{}.{}.Final", core_major, minor, core_patch),
        image_tag: format!("{}.{}.{}.Final-jdk{}", major, minor, patch, jdk),
        repository: "quay.io/wildfly/wildfly".to_string(),
        platforms: platforms.iter().map(|p| p.to_string()).collect(),
    }
}

#[allow(dead_code)]
fn wildfly_image_registry() -> WildFlyImageRegistry {
    let releases: [(u16, u16, u64, u64); 33] = [
        (10, 0, 0, 10), (10, 1, 0, 0), (11, 0, 0, 0), (12, 0, 0, 0), (13, 0, 0, 0),
        (14, 0, 1, 0), (15, 0, 1, 1), (16, 0, 0, 0), (17, 0, 1, 0), (18, 0, 1, 0),
        (19, 0, 0, 0), (19, 1, 0, 0), (20, 0, 1, 0), (21, 0, 2, 1), (22, 0, 1, 0),
        (23, 0, 2, 1), (24, 0, 1, 0), (25, 0, 1, 0), (26, 0, 1, 0), (26, 1, 3, 2),
        (27, 0, 1, 0), (28, 0, 1, 0), (29, 0, 1, 0), (30, 0, 1, 0), (31, 0, 1, 0),
        (32, 0, 1, 0), (33, 0, 0, 0), (34, 0, 1, 0), (35, 0, 1, 0), (36, 0, 0, 0),
        (37, 0, 1, 0), (38, 0, 0, 0), (39, 0, 0, 0),
    ];
    let multi = ["linux/amd64", "linux/arm64", "linux/s390x", "linux/ppc64le"];
    let entries: Vec<WildFlyImageEntry> = releases
        .iter()
        .map(|&(major, minor, patch, core_patch)| {
            let platforms: &[&str] = if major >= 33 { &multi } else { &[] };
            image_entry(major, minor, patch, core_patch, platforms)
        })
        .collect();
    WildFlyImageRegistry::from_entries(entries)
}

#[allow(dead_code)]
fn fp_entry(shortcut: &str, name: &str, group_id: &str, artifact_id: &str, versions: &[(&str, &str)]) -> FeaturePackEntry {
    FeaturePackEntry {
        shortcut: shortcut.to_string(),
        name: name.to_string(),
        group_id: group_id.to_string(),
        artifact_id: artifact_id.to_string(),
        versions: versions
            .iter()
            .map(|(version, release_version)| VersionEntry {
                version: version.to_string(),
                release_version: release_version.to_string(),
            })
            .collect(),
    }
}

#[allow(dead_code)]
fn feature_pack_registry() -> FeaturePackRegistry {
    let mut entries = vec![
        fp_entry(
            "ai",
            "AI",
            "org.wildfly.generative-ai",
            "wildfly-ai-feature-pack",
            &[("0.9.1", "0.9.1"), ("0.9.0", "0.9.0"), ("0.8.1", "0.8.1")],
        ),
        fp_entry(
            "graphql",
            "GraphQL",
            "org.wildfly.extras.graphql",
            "wildfly-microprofile-graphql-feature-pack",
            &[("2.7.0", "2.7.0.Final")],
        ),
        fp_entry(
            "grpc",
            "gRPC",
            "org.wildfly.extras.grpc",
            "wildfly-grpc-feature-pack",
            &[("0.1.16", "0.1.16")],
        ),
    ];
    entries.push(fp_entry(
        "keycloak",
        "Keycloak",
        "org.keycloak",
        "keycloak-saml-adapter-galleon-pack",
        &[("26.6.1", "26.6.1")],
    ));
    entries.push(fp_entry(
        "myfaces",
        "MyFaces",
        "org.wildfly",
        "wildfly-myfaces-feature-pack",
        &[("2.0.3", "2.0.3.Final")],
    ));
    FeaturePackRegistry::from_entries(entries).unwrap()
}

#[test]
fn parse_parse_options_default_enables_all() {
    let opts = ParseOptions::default();
    assert!(opts.ranges);
    assert!(opts.multipliers);
}

#[test]
fn parse_parse_options_none_disables_all() {
    let opts = ParseOptions::none();
    assert!(!opts.ranges);
    assert!(!opts.multipliers);
}

#[test]
fn parse_parse_wildfly_image_dev() {
    let reg = wildfly_image_registry();
    let img = parse_wildfly_image("dev", &reg).unwrap();
    assert!(img.is_dev());
}

#[test]
fn parse_parse_wildfly_image_major() {
    let reg = wildfly_image_registry();
    let img = parse_wildfly_image("34", &reg).unwrap();
    assert_eq!(img.identifier, 340);
}

#[test]
fn parse_parse_wildfly_image_major_minor() {
    let reg = wildfly_image_registry();
    let img = parse_wildfly_image("26.1", &reg).unwrap();
    assert_eq!(img.identifier, 261);
}

#[test]
fn parse_parse_wildfly_image_major_zero() {
    let reg = wildfly_image_registry();
    let img = parse_wildfly_image("25.0", &reg).unwrap();
    assert_eq!(img.identifier, 250);
}

#[test]
fn parse_parse_wildfly_image_invalid() {
    let reg = wildfly_image_registry();
    assert!(parse_wildfly_image("", &reg).is_err());
    assert!(parse_wildfly_image("foo", &reg).is_err());
    assert!(parse_wildfly_image("99", &reg).is_err());
    assert!(parse_wildfly_image("10.", &reg).is_err());
    assert!(parse_wildfly_image("1.1", &reg).is_err());
}

#[test]
fn parse_parse_fp_shortcut() {
    let reg = feature_pack_registry();
    let fp = parse_feature_pack("ai", &reg).unwrap();
    assert_eq!(fp.shortcut, "ai");
    assert_eq!(fp.version.to_string(), "0.9.1");
}

#[test]
fn parse_parse_fp_versioned() {
    let reg = feature_pack_registry();
    let fp = parse_feature_pack("ai:0.9.0", &reg).unwrap();
    assert_eq!(fp.shortcut, "ai");
}

#[test]
fn parse_parse_fp_unknown_shortcut() {
    let reg = feature_pack_registry();
    let result = parse_feature_pack("unknown", &reg);
    assert!(result.is_err());
    let err = result.unwrap_err().to_string();
    assert!(err.contains("Unknown feature pack"));
}

#[test]
fn parse_parse_fp_unknown_version() {
    let reg = feature_pack_registry();
    let result = parse_feature_pack("ai:9.9.9", &reg);
    assert!(result.is_err());
    let err = result.unwrap_err().to_string();
    assert!(err.contains("Unknown version"));
}

#[test]
fn parse_parse_fp_versioned_unknown_shortcut() {
    let reg = feature_pack_registry();
    let result = parse_feature_pack("unknown:1.0", &reg);
    assert!(result.is_err());
    let err = result.unwrap_err().to_string();
    assert!(err.contains("Unknown feature pack 'unknown'"));
}

#[test]
fn parse_parse_meta_item_wildfly() {
    let imgs = wildfly_image_registry();
    let fps = feature_pack_registry();
    let item = parse_meta_item("34", &imgs, &fps).unwrap();
    assert!(matches!(item, MetaItem::Image(_)));
}

#[test]
fn parse_parse_meta_item_feature_pack() {
    let imgs = wildfly_image_registry();
    let fps = feature_pack_registry();
    let item = parse_meta_item("ai", &imgs, &fps).unwrap();
    assert!(matches!(item, MetaItem::FeaturePack(_)));
}

#[test]
fn parse_parse_meta_item_fp_takes_priority() {
    let imgs = wildfly_image_registry();
    let fps = feature_pack_registry();
    let item = parse_meta_item("ai", &imgs, &fps).unwrap();
    assert_eq!(item.kind(), "feature-pack");
}

#[test]
fn parse_parse_meta_items_single_version() {
    let imgs = wildfly_image_registry();
    let fps = feature_pack_registry();
    let items = parse_meta_items(
        "25",
        &imgs,
        &fps,
        &ParseOptions::none().into(),
        &ParseOptions::none().into(),
    )
    .unwrap();
    assert_eq!(items.len(), 1);
    assert_eq!(items[0].short_name(), "25.0");
}

#[test]
fn parse_parse_meta_items_multiple_versions() {
    let imgs = wildfly_image_registry();
    let fps = feature_pack_registry();
    let items = parse_meta_items(
        "10,20,30",
        &imgs,
        &fps,
        &ParseOptions::none().into(),
        &ParseOptions::none().into(),
    )
    .unwrap();
    assert_eq!(items.len(), 3);
}

#[test]
fn parse_parse_meta_items_feature_packs_only() {
    let imgs = wildfly_image_registry();
    let fps = feature_pack_registry();
    let items = parse_meta_items(
        "ai,grpc",
        &imgs,
        &fps,
        &ParseOptions::none().into(),
        &ParseOptions::none().into(),
    )
    .unwrap();
    assert_eq!(items.len(), 2);
    assert!(items.iter().all(|i| matches!(i, MetaItem::FeaturePack(_))));
}

#[test]
fn parse_parse_meta_items_mixed() {
    let imgs = wildfly_image_registry();
    let fps = feature_pack_registry();
    let items = parse_meta_items(
        "34,ai,26.1",
        &imgs,
        &fps,
        &ParseOptions::none().into(),
        &ParseOptions::none().into(),
    )
    .unwrap();
    assert_eq!(items.len(), 3);
}

#[test]
fn parse_parse_meta_items_full_dsl() {
    let imgs = wildfly_image_registry();
    let fps = feature_pack_registry();
    let items = parse_meta_items(
        "3x10,23..26,5x28,34,dev,ai",
        &imgs,
        &fps,
        &ParseOptions::all().into(),
        &ParseOptions::all().into(),
    )
    .unwrap();
    assert!(items.len() >= 14);
}

#[test]
fn parse_parse_meta_items_sorted_by_port_offset() {
    let imgs = wildfly_image_registry();
    let fps = feature_pack_registry();
    let items = parse_meta_items(
        "34,10,ai",
        &imgs,
        &fps,
        &ParseOptions::all().into(),
        &ParseOptions::all().into(),
    )
    .unwrap();
    let offsets: Vec<u16> = items.iter().map(|i| i.port_offset()).collect();
    let mut sorted = offsets.clone();
    sorted.sort();
    assert_eq!(offsets, sorted);
}

#[test]
fn parse_parse_meta_items_empty_segments_ignored() {
    let imgs = wildfly_image_registry();
    let fps = feature_pack_registry();
    let items = parse_meta_items(
        ",34,,25,",
        &imgs,
        &fps,
        &ParseOptions::all().into(),
        &ParseOptions::all().into(),
    )
    .unwrap();
    assert_eq!(items.len(), 2);
}

#[test]
fn parse_parse_meta_items_whitespace_trimmed() {
    let imgs = wildfly_image_registry();
    let fps = feature_pack_registry();
    let items = parse_meta_items(
        " 34 , 25 ",
        &imgs,
        &fps,
        &ParseOptions::all().into(),
        &ParseOptions::all().into(),
    )
    .unwrap();
    assert_eq!(items.len(), 2);
}

#[test]
fn parse_parse_meta_items_invalid() {
    let imgs = wildfly_image_registry();
    let fps = feature_pack_registry();
    assert!(parse_meta_items(
        "",
        &imgs,
        &fps,
        &ParseOptions::none().into(),
        &ParseOptions::none().into()
    )
    .is_ok());
    assert!(parse_meta_items(
        "foo",
        &imgs,
        &fps,
        &ParseOptions::none().into(),
        &ParseOptions::none().into()
    )
    .is_err());
}

#[test]
fn parse_parse_meta_items_multiple_errors() {
    let imgs = wildfly_image_registry();
    let fps = feature_pack_registry();
    let result = parse_meta_items(
        "foo,bar",
        &imgs,
        &fps,
        &ParseOptions::all().into(),
        &ParseOptions::all().into(),
    );
    assert!(result.is_err());
    let err = result.unwrap_err().to_string();
    assert!(err.contains('\n'));
}

#[test]
fn parse_parse_meta_items_with_range() {
    let imgs = wildfly_image_registry();
    let fps = feature_pack_registry();
    let items = parse_meta_items(
        "20..22",
        &imgs,
        &fps,
        &ParseOptions::all().into(),
        &ParseOptions::all().into(),
    )
    .unwrap();
    assert_eq!(items.len(), 3); // 20, 21, 22
}

#[test]
fn parse_parse_meta_items_range_from() {
    let imgs = wildfly_image_registry();
    let fps = feature_pack_registry();
    let items = parse_meta_items(
        "30..",
        &imgs,
        &fps,
        &ParseOptions::all().into(),
        &ParseOptions::all().into(),
    )
    .unwrap();
    assert!(items.len() >= 10);
}

#[test]
fn parse_parse_meta_items_range_to() {
    let imgs = wildfly_image_registry();
    let fps = feature_pack_registry();
    let items = parse_meta_items(
        "..10.1",
        &imgs,
        &fps,
        &ParseOptions::all().into(),
        &ParseOptions::all().into(),
    )
    .unwrap();
    assert_eq!(items.len(), 2);
}

#[test]
fn parse_parse_meta_items_range_all() {
    let imgs = wildfly_image_registry();
    let fps = feature_pack_registry();
    let items = parse_meta_items(
        "..",
        &imgs,
        &fps,
        &ParseOptions::all().into(),
        &ParseOptions::all().into(),
    )
    .unwrap();
    assert_eq!(items.len(), 33);
}

#[test]
fn parse_parse_meta_items_range_equal_bounds() {
    let imgs = wildfly_image_registry();
    let fps = feature_pack_registry();
    let items = parse_meta_items(
        "25..25",
        &imgs,
        &fps,
        &ParseOptions::all().into(),
        &ParseOptions::all().into(),
    )
    .unwrap();
    assert_eq!(items.len(), 1);
    assert_eq!(items[0].short_name(), "25.0");
}

#[test]
fn parse_parse_meta_items_range_reversed() {
    let imgs = wildfly_image_registry();
    let fps = feature_pack_registry();
    assert!(parse_meta_items(
        "30..20",
        &imgs,
        &fps,
        &ParseOptions::all().into(),
        &ParseOptions::all().into()
    )
    .is_err());
}

#[test]
fn parse_parse_meta_items_range_dev_not_allowed() {
    let imgs = wildfly_image_registry();
    let fps = feature_pack_registry();
    assert!(parse_meta_items(
        "dev..20",
        &imgs,
        &fps,
        &ParseOptions::all().into(),
        &ParseOptions::all().into()
    )
    .is_err());
    assert!(parse_meta_items(
        "..dev",
        &imgs,
        &fps,
        &ParseOptions::all().into(),
        &ParseOptions::all().into()
    )
    .is_err());
}

#[test]
fn parse_parse_meta_items_range_without_multipliers() {
    let imgs = wildfly_image_registry();
    let fps = feature_pack_registry();
    let opts = ParseOptions {
        ranges: true,
        multipliers: false,
    };
    let items = parse_meta_items("20..22", &imgs, &fps, &opts.into(), &ParseOptions::none().into()).unwrap();
    assert_eq!(items.len(), 3);
}

#[test]
fn parse_parse_meta_items_with_multiplier() {
    let imgs = wildfly_image_registry();
    let fps = feature_pack_registry();
    let items = parse_meta_items(
        "3x34",
        &imgs,
        &fps,
        &ParseOptions::all().into(),
        &ParseOptions::all().into(),
    )
    .unwrap();
    assert_eq!(items.len(), 3);
    assert!(items.iter().all(|i| i.short_name() == "34.0"));
}

#[test]
fn parse_parse_meta_items_fp_multiplier() {
    let imgs = wildfly_image_registry();
    let fps = feature_pack_registry();
    let items = parse_meta_items(
        "2xai",
        &imgs,
        &fps,
        &ParseOptions::all().into(),
        &ParseOptions::all().into(),
    )
    .unwrap();
    assert_eq!(items.len(), 2);
    assert!(items.iter().all(|i| matches!(i, MetaItem::FeaturePack(_))));
}

#[test]
fn parse_parse_meta_items_multiplied_range() {
    let imgs = wildfly_image_registry();
    let fps = feature_pack_registry();
    let items = parse_meta_items(
        "2x20..22",
        &imgs,
        &fps,
        &ParseOptions::all().into(),
        &ParseOptions::all().into(),
    )
    .unwrap();
    assert_eq!(items.len(), 6); // 3 versions * 2
}

#[test]
fn parse_parse_meta_items_invalid_multiplier_on_range() {
    let imgs = wildfly_image_registry();
    let fps = feature_pack_registry();
    let result = parse_meta_items(
        "0x20..25",
        &imgs,
        &fps,
        &ParseOptions::all().into(),
        &ParseOptions::all().into(),
    );
    assert!(result.is_err());
}

#[test]
fn parse_parse_meta_items_invalid_multiplier_on_item() {
    let imgs = wildfly_image_registry();
    let fps = feature_pack_registry();
    let result = parse_meta_items(
        "0x34",
        &imgs,
        &fps,
        &ParseOptions::all().into(),
        &ParseOptions::all().into(),
    );
    assert!(result.is_err());
}

#[test]
fn parse_parse_meta_items_no_options_ignores_range_syntax() {
    let imgs = wildfly_image_registry();
    let fps = feature_pack_registry();
    let result = parse_meta_items(
        "20..22",
        &imgs,
        &fps,
        &ParseOptions::none().into(),
        &ParseOptions::none().into(),
    );
    assert!(result.is_err());
}

#[test]
fn parse_parse_meta_items_no_multiplier_treats_as_item() {
    let imgs = wildfly_image_registry();
    let fps = feature_pack_registry();
    let result = parse_meta_items(
        "3x34",
        &imgs,
        &fps,
        &ParseOptions::none().into(),
        &ParseOptions::none().into(),
    );
    assert!(result.is_err());
}

#[test]
fn parse_parse_meta_items_image_multipliers_only() {
    let imgs = wildfly_image_registry();
    let fps = feature_pack_registry();
    let items = parse_meta_items(
        "3x34,ai",
        &imgs,
        &fps,
        &ParseOptions::all().into(),
        &ParseOptions::none().into(),
    )
    .unwrap();
    assert_eq!(items.len(), 4);
}

#[test]
fn parse_parse_meta_items_fp_multipliers_only() {
    let imgs = wildfly_image_registry();
    let fps = feature_pack_registry();
    let items = parse_meta_items(
        "34,2xai",
        &imgs,
        &fps,
        &ParseOptions::none().into(),
        &ParseOptions::all().into(),
    )
    .unwrap();
    assert_eq!(items.len(), 3);
}

#[test]
fn parse_parse_meta_items_image_multiplier_rejected_when_disabled() {
    let imgs = wildfly_image_registry();
    let fps = feature_pack_registry();
    let result = parse_meta_items(
        "3x34",
        &imgs,
        &fps,
        &ParseOptions::none().into(),
        &ParseOptions::all().into(),
    );
    assert!(result.is_err());
}

#[test]
fn parse_parse_meta_items_fp_multiplier_rejected_when_disabled() {
    let imgs = wildfly_image_registry();
    let fps = feature_pack_registry();
    let result = parse_meta_items(
        "2xai",
        &imgs,
        &fps,
        &ParseOptions::all().into(),
        &ParseOptions::none().into(),
    );
    assert!(result.is_err());
}

#[test]
fn parse_meta_item_short_name_feature_pack() {
    let fps = feature_pack_registry();
    let fp = parse_feature_pack("ai", &fps).unwrap();
    let item = MetaItem::FeaturePack(fp);
    assert_eq!(item.short_name(), "ai 0.9.1");
}

#[test]
fn parse_meta_item_kind() {
    let imgs = wildfly_image_registry();
    let fps = feature_pack_registry();
    let wf = parse_meta_item("34", &imgs, &fps).unwrap();
    assert_eq!(wf.kind(), "wildfly");
    let fp = parse_meta_item("ai", &imgs, &fps).unwrap();
    assert_eq!(fp.kind(), "feature-pack");
}

#[test]
fn parse_meta_item_expression_roundtrip() {
    let imgs = wildfly_image_registry();
    let fps = feature_pack_registry();
    for input in &["34", "26.1", "ai", "grpc"] {
        let item = parse_meta_item(input, &imgs, &fps).unwrap();
        let reparsed = parse_meta_item(&item.expression(), &imgs, &fps).unwrap();
        assert_eq!(item, reparsed);
    }
}

#[test]
fn parse_meta_item_full_name() {
    let imgs = wildfly_image_registry();
    let fps = feature_pack_registry();
    let wf = parse_meta_item("34", &imgs, &fps).unwrap();
    assert_eq!(wf.full_name(), "WildFly 34.0");
    let fp = parse_meta_item("ai", &imgs, &fps).unwrap();
    assert_eq!(fp.full_name(), "AI Feature Pack 0.9.1");
}

#[test]
fn parse_meta_item_container_name() {
    let imgs = wildfly_image_registry();
    let fps = feature_pack_registry();
    let wf = parse_meta_item("34", &imgs, &fps).unwrap();
    assert_eq!(wf.container_name(), "340");
    let fp = parse_meta_item("ai", &imgs, &fps).unwrap();
    assert_eq!(fp.container_name(), "ai-0-9-1");
}

#[test]
fn parse_meta_item_port_offset_feature_pack() {
    let fps = feature_pack_registry();
    let fp = parse_feature_pack("ai", &fps).unwrap();
    let item = MetaItem::FeaturePack(fp);
    assert_eq!(item.port_offset(), 10_000);
}

#[test]
fn parse_multiplier_ok() {
    assert_eq!(extract_multiplier("2x10"), Some((2, "10")));
    assert_eq!(extract_multiplier("5x25.1"), Some((5, "25.1")));
    assert_eq!(extract_multiplier("1x30"), Some((1, "30")));
    assert_eq!(extract_multiplier("foo"), Some((1, "foo")));
}

#[test]
fn parse_multiplier_err() {
    assert_eq!(extract_multiplier("0x10"), None);
    assert_eq!(extract_multiplier("x25"), None);
    assert_eq!(extract_multiplier("25x"), None);
    assert_eq!(extract_multiplier("10xx20"), None);
}

#[test]
fn parse_multiplier_no_x() {
    assert_eq!(extract_multiplier("34"), Some((1, "34")));
    assert_eq!(extract_multiplier("dev"), Some((1, "dev")));
}

#[test]
fn parse_parse_wildfly_images_single() {
    let imgs = wildfly_image_registry();
    let items = parse_wildfly_images("34", &imgs, &ParseOptions::none().into()).unwrap();
    assert_eq!(items.len(), 1);
    assert_eq!(items[0].short_name(), "34.0");
}

#[test]
fn parse_parse_wildfly_images_multiple() {
    let imgs = wildfly_image_registry();
    let items = parse_wildfly_images("10,20,30", &imgs, &ParseOptions::none().into()).unwrap();
    assert_eq!(items.len(), 3);
}

#[test]
fn parse_parse_wildfly_images_dev() {
    let imgs = wildfly_image_registry();
    let items = parse_wildfly_images("dev", &imgs, &ParseOptions::none().into()).unwrap();
    assert_eq!(items.len(), 1);
    assert!(items[0].is_dev());
}

#[test]
fn parse_parse_wildfly_images_with_range() {
    let imgs = wildfly_image_registry();
    let items = parse_wildfly_images("20..22", &imgs, &ParseOptions::all().into()).unwrap();
    assert_eq!(items.len(), 3);
}

#[test]
fn parse_parse_wildfly_images_with_multiplier() {
    let imgs = wildfly_image_registry();
    let items = parse_wildfly_images("3x34", &imgs, &ParseOptions::all().into()).unwrap();
    assert_eq!(items.len(), 3);
    assert!(items.iter().all(|i| i.short_name() == "34.0"));
}

#[test]
fn parse_parse_wildfly_images_multiplied_range() {
    let imgs = wildfly_image_registry();
    let items = parse_wildfly_images("2x20..22", &imgs, &ParseOptions::all().into()).unwrap();
    assert_eq!(items.len(), 6);
}

#[test]
fn parse_parse_wildfly_images_rejects_feature_pack() {
    let imgs = wildfly_image_registry();
    assert!(parse_wildfly_images("ai", &imgs, &ParseOptions::none().into()).is_err());
}

#[test]
fn parse_parse_wildfly_images_sorted() {
    let imgs = wildfly_image_registry();
    let items = parse_wildfly_images("34,10,25", &imgs, &ParseOptions::none().into()).unwrap();
    let ids: Vec<u16> = items.iter().map(|i| i.identifier).collect();
    let mut sorted = ids.clone();
    sorted.sort();
    assert_eq!(ids, sorted);
}

#[test]
fn parse_parse_wildfly_images_empty_segments() {
    let imgs = wildfly_image_registry();
    let items = parse_wildfly_images(",34,,25,", &imgs, &ParseOptions::all().into()).unwrap();
    assert_eq!(items.len(), 2);
}

#[test]
fn parse_parse_wildfly_images_whitespace() {
    let imgs = wildfly_image_registry();
    let items = parse_wildfly_images(" 34 , 25 ", &imgs, &ParseOptions::all().into()).unwrap();
    assert_eq!(items.len(), 2);
}

#[test]
fn parse_parse_wildfly_images_multiple_errors() {
    let imgs = wildfly_image_registry();
    let result = parse_wildfly_images("foo,bar", &imgs, &ParseOptions::all().into());
    assert!(result.is_err());
    let err = result.unwrap_err().to_string();
    assert!(err.contains('\n'));
}

#[test]
fn parse_parse_wildfly_images_disabled_options() {
    let imgs = wildfly_image_registry();
    assert!(parse_wildfly_images("20..22", &imgs, &ParseOptions::none().into()).is_err());
    assert!(parse_wildfly_images("3x34", &imgs, &ParseOptions::none().into()).is_err());
}

#[test]
fn parse_parse_feature_packs_single() {
    let fps = feature_pack_registry();
    let items = parse_feature_packs("ai", &fps, &ParseOptions::none().into()).unwrap();
    assert_eq!(items.len(), 1);
    assert_eq!(items[0].shortcut, "ai");
}

#[test]
fn parse_parse_feature_packs_multiple() {
    let fps = feature_pack_registry();
    let items = parse_feature_packs("ai,grpc", &fps, &ParseOptions::none().into()).unwrap();
    assert_eq!(items.len(), 2);
}

#[test]
fn parse_parse_feature_packs_versioned() {
    let fps = feature_pack_registry();
    let items = parse_feature_packs("ai:0.9.0", &fps, &ParseOptions::none().into()).unwrap();
    assert_eq!(items.len(), 1);
    assert_eq!(items[0].version.to_string(), "0.9.0");
}

#[test]
fn parse_parse_feature_packs_with_multiplier() {
    let fps = feature_pack_registry();
    let items = parse_feature_packs("2xai", &fps, &ParseOptions::all().into()).unwrap();
    assert_eq!(items.len(), 2);
    assert!(items.iter().all(|fp| fp.shortcut == "ai"));
}

#[test]
fn parse_parse_feature_packs_rejects_image_version() {
    let fps = feature_pack_registry();
    assert!(parse_feature_packs("34", &fps, &ParseOptions::none().into()).is_err());
}

#[test]
fn parse_parse_feature_packs_rejects_range() {
    let fps = feature_pack_registry();
    let result = parse_feature_packs("ai..grpc", &fps, &ParseOptions::all().into());
    assert!(result.is_err());
    let err = result.unwrap_err().to_string();
    assert!(err.contains("range syntax is not supported"));
}

#[test]
fn parse_parse_feature_packs_sorted() {
    let fps = feature_pack_registry();
    let items = parse_feature_packs("grpc,ai", &fps, &ParseOptions::none().into()).unwrap();
    let offsets: Vec<u16> = items.iter().map(|fp| fp.port_offset()).collect();
    let mut sorted = offsets.clone();
    sorted.sort();
    assert_eq!(offsets, sorted);
}

#[test]
fn parse_parse_feature_packs_empty_segments() {
    let fps = feature_pack_registry();
    let items = parse_feature_packs(",ai,,grpc,", &fps, &ParseOptions::all().into()).unwrap();
    assert_eq!(items.len(), 2);
}

#[test]
fn parse_parse_feature_packs_whitespace() {
    let fps = feature_pack_registry();
    let items = parse_feature_packs(" ai , grpc ", &fps, &ParseOptions::all().into()).unwrap();
    assert_eq!(items.len(), 2);
}

#[test]
fn parse_parse_feature_packs_multiple_errors() {
    let fps = feature_pack_registry();
    let result = parse_feature_packs("foo,bar", &fps, &ParseOptions::all().into());
    assert!(result.is_err());
    let err = result.unwrap_err().to_string();
    assert!(err.contains('\n'));
}

#[test]
fn parse_port_offsets_no_overlap() {
    let wf_max = 990u16;
    let fp_min = 10_000u16;
    assert!(wf_max < fp_min);
}
