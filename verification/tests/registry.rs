use versite::order::{
    compare_tags, order_parsed, parse_semver_like, semver_candidates, semver_like_text,
};
use versite::versions::{DocumentError, Version, VersionWithAliases, Versions, VersionsIter};

use std::cmp::Ordering;

fn strings(items: &[&str]) -> Vec<String> {
    items.iter().map(|s| s.to_string()).collect()
}

fn listed_tags(registry: &Versions) -> Vec<String> {
    registry
        .listing_order()
        .into_iter()
        .map(|i| registry.versions[i].tag.clone())
        .collect()
}

fn entry_tuples(doc: &[VersionWithAliases]) -> Vec<(String, Option<String>, Vec<String>)> {
    doc.iter()
        .map(|e| (e.version.clone(), e.title.clone(), e.aliases.clone()))
        .collect()
}

fn entries_from_json(json: &str) -> Vec<VersionWithAliases> {
    let value: serde_json::Value = serde_json::from_str(json).unwrap();
    value
        .as_array()
        .unwrap()
        .iter()
        .map(|item| VersionWithAliases {
            version: item["version"].as_str().unwrap().to_string(),
            title: item["title"].as_str().map(|t| t.to_string()),
            aliases: item["aliases"]
                .as_array()
                .unwrap()
                .iter()
                .map(|a| a.as_str().unwrap().to_string())
                .collect(),
        })
        .collect()
}

#[test]
fn order_semver_and_dev_versions() {
    let registry = Versions {
        versions: vec![
            Version { tag: "1.2.3".into(), title: None },
            Version { tag: "dev".into(), title: None },
            Version { tag: "v1.10.0".into(), title: None },
            Version { tag: "1.2.10".into(), title: None },
            Version { tag: "main".into(), title: None },
            Version { tag: "v0.8_or_older".into(), title: None },
        ],
        aliases: Vec::new(),
    };
    let sorted: Vec<(String, Option<String>)> = registry
        .listing_order()
        .into_iter()
        .map(|i| (registry.versions[i].tag.clone(), registry.versions[i].title.clone()))
        .collect();
    assert_eq!(
        sorted,
        vec![
            ("main".to_string(), None),
            ("dev".to_string(), None),
            ("v1.10.0".to_string(), None),
            ("1.2.10".to_string(), None),
            ("1.2.3".to_string(), None),
            ("v0.8_or_older".to_string(), None),
        ]
    );
}

#[test]
fn serialize_versions_sorted() {
    let mut versions = Versions::default();
    versions.add("1.0.0".into(), Some("1.0.0 title".into()), Vec::new());
    versions.add("v2.0.0".into(), None, strings(&["stable"]));
    versions.add("alpha".into(), Some("alpha title".into()), Vec::new());

    assert_eq!(
        entry_tuples(&versions.to_entries()),
        vec![
            ("alpha".to_string(), Some("alpha title".to_string()), vec![]),
            ("v2.0.0".to_string(), Some("v2.0.0".to_string()), strings(&["stable"])),
            ("1.0.0".to_string(), Some("1.0.0 title".to_string()), vec![]),
        ]
    );
}

#[test]
fn deserialize_versions_with_aliases() {
    let json = r#"[
            {"version":"dev","title":"Development","aliases":["latest"]},
            {"version":"1.0.0","title":"1.0.0","aliases":["stable"]}
        ]"#;
    let versions = Versions::from_entries(&entries_from_json(json)).unwrap();
    assert_eq!(
        entry_tuples(&versions.to_entries()),
        vec![
            ("dev".to_string(), Some("Development".to_string()), strings(&["latest"])),
            ("1.0.0".to_string(), Some("1.0.0".to_string()), strings(&["stable"])),
        ]
    );
}

#[test]
fn iterate_versions_with_aliases_pairs() {
    let mut versions = Versions::default();
    versions.add("1.0.0".into(), Some("1.0.0".into()), strings(&["stable"]));
    versions.add("dev".into(), Some("Development".into()), strings(&["latest"]));

    let mut it: VersionsIter = versions.iter();
    let mut view: Vec<(Vec<String>, Option<String>, String)> = Vec::new();
    while let Some((v, aliases)) = it.next() {
        view.push((aliases, v.title.clone(), v.tag.clone()));
    }
    assert_eq!(
        view,
        vec![
            (strings(&["latest"]), Some("Development".to_string()), "dev".to_string()),
            (strings(&["stable"]), Some("1.0.0".to_string()), "1.0.0".to_string()),
        ]
    );
    assert!(it.next().is_none());
}

#[test]
fn semver_like_tags_are_recognised() {
    assert_eq!(parse_semver_like("1.2.3"), Some("1.2.3".to_string()));
    assert_eq!(parse_semver_like("v1.10.0"), Some("1.10.0".to_string()));
    assert_eq!(parse_semver_like("Vv2.0.0"), Some("2.0.0".to_string()));
    assert_eq!(parse_semver_like("1.0.0-alpha+build"), Some("1.0.0-alpha+build".to_string()));
    assert_eq!(parse_semver_like("v0.8_or_older"), Some("0.8.0".to_string()));
    assert_eq!(parse_semver_like("1"), Some("1.0.0".to_string()));
    assert_eq!(parse_semver_like("1.2"), Some("1.2.0".to_string()));
}

#[test]
fn other_tags_are_not_semver_like() {
    assert_eq!(parse_semver_like("dev"), None);
    assert_eq!(parse_semver_like("main"), None);
    assert_eq!(parse_semver_like(""), None);
    assert_eq!(parse_semver_like("v"), None);
    assert_eq!(parse_semver_like("1..2"), None);
    assert_eq!(parse_semver_like(".1"), None);
    assert_eq!(parse_semver_like("1.2."), None);
    assert_eq!(parse_semver_like("1.2.3.4"), None);
    assert_eq!(parse_semver_like("01.2"), None);
    assert_eq!(parse_semver_like("x1.2.3"), None);
}

#[test]
fn newer_semver_tag_orders_first() {
    assert_eq!(compare_tags("1.2.10", "1.2.3"), Ordering::Less);
    assert_eq!(compare_tags("1.2.3", "1.2.10"), Ordering::Greater);
    assert_eq!(compare_tags("v2.0.0", "1.9.9"), Ordering::Less);
    assert_eq!(compare_tags("1.0.0", "1.0.0-rc.1"), Ordering::Less);
    assert_eq!(compare_tags("v1.0.0", "1.0.0"), Ordering::Equal);
    assert_eq!(compare_tags("1.0", "1.0.0"), Ordering::Equal);
}

#[test]
fn plain_tag_orders_before_semver_tag() {
    assert_eq!(compare_tags("zzz", "0.0.1"), Ordering::Less);
    assert_eq!(compare_tags("aaa", "999.0.0"), Ordering::Less);
    assert_eq!(compare_tags("0.0.1", "zzz"), Ordering::Greater);
}

#[test]
fn plain_tags_order_in_reverse() {
    assert_eq!(compare_tags("main", "dev"), Ordering::Less);
    assert_eq!(compare_tags("dev", "main"), Ordering::Greater);
    assert_eq!(compare_tags("dev", "dev"), Ordering::Equal);
    assert_eq!(compare_tags("dev", "development"), Ordering::Greater);
    assert_eq!(compare_tags("é", "z"), Ordering::Less);
}

#[test]
fn version_compares_by_tag_alone() {
    let a = Version::new("1.0.0".into(), Some("first".into()));
    let b = Version::new("v1.0.0".into(), None);
    assert_eq!(a.cmp(&b), Ordering::Equal);
    assert!(!a.listed_after(&b));
    let c = Version::new("2.0.0".into(), None);
    assert!(a.listed_after(&c));
    assert!(!c.listed_after(&a));
}

#[test]
fn version_is_shown_with_its_title() {
    let a = Version::new("1.0.0".into(), Some("First".into()));
    assert_eq!(a.to_string(), "1.0.0 (First)");
    assert_eq!(a.display_title(), "First");
    let b = Version::new("dev".into(), None);
    assert_eq!(b.to_string(), "dev");
    assert_eq!(b.display_title(), "dev");
}

#[test]
fn lookup_by_tag_and_alias() {
    let mut versions = Versions::default();
    versions.add("1.0.0".into(), Some("One".into()), strings(&["stable", "latest"]));
    versions.add("dev".into(), None, strings(&["latest"]));
    assert_eq!(versions.by_tag("1.0.0").unwrap().title, Some("One".to_string()));
    assert!(versions.by_tag("2.0.0").is_none());
    assert_eq!(versions.by_alias("stable").unwrap().tag, "1.0.0");
    assert_eq!(versions.by_alias("latest").unwrap().tag, "dev");
    assert!(versions.by_alias("dev").is_none());
}

#[test]
fn alias_may_point_to_a_missing_tag() {
    let registry = Versions {
        versions: vec![Version::new("1.0.0".into(), None)],
        aliases: vec![("ghost".to_string(), "0.1.0".to_string())],
    };
    assert!(registry.by_alias("ghost").is_none());
    assert_eq!(registry.netlify_rewrites("latest".into()), "/ghost/* /0.1.0/:splat 200\n");
    let doc = registry.to_entries();
    assert_eq!(entry_tuples(&doc), vec![("1.0.0".to_string(), Some("1.0.0".to_string()), vec![])]);
}

#[test]
fn add_replaces_the_version_and_rebinds_aliases() {
    let mut versions = Versions::default();
    versions.add("1.0.0".into(), Some("One".into()), strings(&["latest"]));
    versions.add("2.0.0".into(), None, strings(&["latest", "next"]));
    let returned = versions.add("1.0.0".into(), Some("Uno".into()), strings(&["stable"])).unwrap();
    assert_eq!(returned.tag, "1.0.0");
    assert_eq!(returned.title, Some("Uno".to_string()));
    assert_eq!(versions.versions.len(), 2);
    assert_eq!(versions.versions[0].tag, "1.0.0");
    assert_eq!(versions.versions[0].title, Some("Uno".to_string()));
    assert_eq!(
        versions.aliases,
        vec![
            ("latest".to_string(), "2.0.0".to_string()),
            ("next".to_string(), "2.0.0".to_string()),
            ("stable".to_string(), "1.0.0".to_string()),
        ]
    );
}

#[test]
fn add_twice_is_add_once() {
    let mut once = Versions::default();
    once.add("dev".into(), None, strings(&["latest"]));
    once.add("1.0.0".into(), Some("One".into()), strings(&["stable", "latest", "stable"]));
    let mut twice = once.clone();
    twice.add("1.0.0".into(), Some("One".into()), strings(&["stable", "latest", "stable"]));
    assert_eq!(once.aliases, twice.aliases);
    assert_eq!(listed_tags(&once), listed_tags(&twice));
    assert_eq!(entry_tuples(&once.to_entries()), entry_tuples(&twice.to_entries()));
    assert_eq!(twice.versions.len(), 2);
}

#[test]
fn search_finds_the_tag_or_everything_for_an_alias() {
    let mut versions = Versions::default();
    versions.add("1.0.0".into(), None, strings(&["stable"]));
    versions.add("dev".into(), None, Vec::new());
    let by_tag: Vec<&str> = versions.search("dev").into_iter().map(|v| v.tag.as_str()).collect();
    assert_eq!(by_tag, vec!["dev"]);
    let by_alias: Vec<&str> = versions.search("stable").into_iter().map(|v| v.tag.as_str()).collect();
    assert_eq!(by_alias, vec!["1.0.0", "dev"]);
    assert!(versions.search("nothing").is_empty());
}

#[test]
fn duplicate_tag_is_refused() {
    let items = vec![
        VersionWithAliases { version: "1.0.0".into(), title: Some("a".into()), aliases: vec![] },
        VersionWithAliases { version: "dev".into(), title: Some("dev".into()), aliases: vec![] },
        VersionWithAliases { version: "1.0.0".into(), title: Some("b".into()), aliases: vec![] },
    ];
    let err = Versions::from_entries(&items).unwrap_err();
    assert_eq!(err.to_string(), "duplicate version tag");
    match err {
        DocumentError::DuplicateTag(tag) => assert_eq!(tag, "1.0.0"),
        other => panic!("unexpected {:?}", other),
    }
    let fine = vec![
        VersionWithAliases {
            version: "1.0.0".into(),
            title: Some("1.0.0".into()),
            aliases: strings(&["a", "a"]),
        },
        VersionWithAliases {
            version: "v1.0.0".into(),
            title: Some("One".into()),
            aliases: strings(&["a"]),
        },
    ];
    let registry = Versions::from_entries(&fine).unwrap();
    assert_eq!(registry.versions.len(), 2);
    assert_eq!(registry.versions[0].title, Some("1.0.0".to_string()));
    assert_eq!(registry.versions[1].title, Some("One".to_string()));
    assert_eq!(registry.aliases, vec![("a".to_string(), "v1.0.0".to_string())]);
}

#[test]
fn missing_title_is_refused() {
    let items = entries_from_json(r#"[{"version":"1.0.0","aliases":[]}]"#);
    let err = Versions::from_entries(&items).unwrap_err();
    assert_eq!(err.to_string(), "missing field `title`");
    match err {
        DocumentError::MissingTitle(tag) => assert_eq!(tag, "1.0.0"),
        other => panic!("unexpected {:?}", other),
    }
    let both = vec![
        VersionWithAliases { version: "dev".into(), title: Some("d".into()), aliases: vec![] },
        VersionWithAliases { version: "dev".into(), title: Some("e".into()), aliases: vec![] },
        VersionWithAliases { version: "next".into(), title: None, aliases: vec![] },
    ];
    assert!(matches!(
        Versions::from_entries(&both),
        Err(DocumentError::MissingTitle(tag)) if tag == "next"
    ));
    assert!(Versions::from_git(Some(&both)).is_err());
}

#[test]
fn missing_document_is_an_empty_registry() {
    let registry = Versions::from_git(None).unwrap();
    assert!(registry.versions.is_empty());
    assert!(registry.aliases.is_empty());
    let items =
        vec![VersionWithAliases { version: "dev".into(), title: Some("Dev".into()), aliases: vec![] }];
    let loaded = Versions::from_git(Some(&items)).unwrap();
    assert_eq!(loaded.versions.len(), 1);
    let twice = vec![
        VersionWithAliases { version: "dev".into(), title: Some("Dev".into()), aliases: vec![] },
        VersionWithAliases { version: "dev".into(), title: Some("Dev".into()), aliases: vec![] },
    ];
    assert!(matches!(Versions::from_git(Some(&twice)), Err(DocumentError::DuplicateTag(_))));
}

#[test]
fn readings_of_a_tag_are_told_apart_from_the_parser() {
    assert_eq!(semver_candidates("v1.2.3"), ("1.2.3".to_string(), Some("1.2.3".to_string())));
    assert_eq!(semver_candidates("Vv1"), ("1".to_string(), Some("1.0.0".to_string())));
    assert_eq!(
        semver_candidates("v0.8_or_older"),
        ("0.8_or_older".to_string(), Some("0.8.0".to_string()))
    );
    assert_eq!(semver_candidates("1.2.3.4"), ("1.2.3.4".to_string(), Some("1.2.3.4".to_string())));
    assert_eq!(semver_candidates("dev"), ("dev".to_string(), None));
    assert_eq!(semver_candidates("1..2"), ("1..2".to_string(), None));
    assert_eq!(semver_candidates("1.x"), ("1.x".to_string(), None));
    assert_eq!(semver_candidates(""), ("".to_string(), None));
}

#[test]
fn semver_like_text_follows_the_parser_answers() {
    assert_eq!(semver_like_text("v2.0.0", true, false), Some("2.0.0".to_string()));
    assert_eq!(semver_like_text("v2.0.0", true, true), Some("2.0.0".to_string()));
    assert_eq!(semver_like_text("v0.8_or_older", false, true), Some("0.8.0".to_string()));
    assert_eq!(semver_like_text("1.2", false, true), Some("1.2.0".to_string()));
    assert_eq!(semver_like_text("1.2", false, false), None);
    assert_eq!(semver_like_text("dev", false, true), None);
    assert_eq!(semver_like_text("dev", false, false), None);
    assert_eq!(semver_like_text("1..2", false, true), None);
}

#[test]
fn order_parsed_has_three_tiers() {
    let v2 = Some("2.0.0".to_string());
    let v1 = Some("1.2.3".to_string());
    assert_eq!(order_parsed("v2.0.0", &v2, "1.2.3", &v1, Ordering::Greater), Ordering::Less);
    assert_eq!(order_parsed("1.2.3", &v1, "v2.0.0", &v2, Ordering::Less), Ordering::Greater);
    assert_eq!(order_parsed("1.2.3", &v1, "1.2.3", &v1, Ordering::Equal), Ordering::Equal);
    assert_eq!(order_parsed("dev", &None, "1.2.3", &v1, Ordering::Equal), Ordering::Less);
    assert_eq!(order_parsed("dev", &None, "1.2.3", &v1, Ordering::Greater), Ordering::Less);
    assert_eq!(order_parsed("1.2.3", &v1, "zzz", &None, Ordering::Less), Ordering::Greater);
    assert_eq!(order_parsed("main", &None, "dev", &None, Ordering::Equal), Ordering::Less);
    assert_eq!(order_parsed("dev", &None, "main", &None, Ordering::Less), Ordering::Greater);
    assert_eq!(order_parsed("dev", &None, "dev", &None, Ordering::Greater), Ordering::Equal);
}

#[test]
fn document_round_trip_keeps_versions_titles_and_aliases() {
    let mut versions = Versions::default();
    versions.add("1.2.3".into(), None, Vec::new());
    versions.add("v2.0.0".into(), Some("Two".into()), strings(&["stable", "latest"]));
    versions.add("dev".into(), None, strings(&["next"]));
    let doc = versions.to_entries();
    let back = Versions::from_entries(&doc).unwrap();
    assert_eq!(entry_tuples(&back.to_entries()), entry_tuples(&doc));
    assert_eq!(back.by_alias("stable").unwrap().tag, "v2.0.0");
    assert_eq!(back.by_tag("1.2.3").unwrap().title, Some("1.2.3".to_string()));
}

#[test]
fn document_lists_newest_first_with_resolved_titles() {
    let mut versions = Versions::default();
    versions.add("1.2.3".into(), None, Vec::new());
    versions.add("v2.0.0".into(), None, strings(&["stable"]));
    assert_eq!(
        entry_tuples(&versions.to_entries()),
        vec![
            ("v2.0.0".to_string(), Some("v2.0.0".to_string()), strings(&["stable"])),
            ("1.2.3".to_string(), Some("1.2.3".to_string()), vec![]),
        ]
    );
}

#[test]
fn redirects_end_with_the_catch_all() {
    let mut versions = Versions::default();
    versions.add("dev".into(), None, strings(&["latest"]));
    versions.add("1.0.0".into(), None, strings(&["stable"]));
    let text = versions.netlify_rewrites("latest".into());
    let lines: Vec<&str> = text.lines().collect();
    assert_eq!(lines.len(), 3);
    assert!(lines[..2].contains(&"/latest/* /dev/:splat 200"));
    assert!(lines[..2].contains(&"/stable/* /1.0.0/:splat 200"));
    assert_eq!(lines[2], "/* /dev/:splat 200");
    assert_eq!(
        text,
        "/latest/* /dev/:splat 200\n/stable/* /1.0.0/:splat 200\n/* /dev/:splat 200\n"
    );
}

#[test]
fn redirects_have_no_catch_all_for_an_unbound_default() {
    let mut versions = Versions::default();
    versions.add("dev".into(), None, strings(&["next"]));
    versions.add("1.0.0".into(), None, strings(&["stable"]));
    let text = versions.netlify_rewrites("latest".into());
    assert_eq!(text, "/next/* /dev/:splat 200\n/stable/* /1.0.0/:splat 200\n");
    assert_eq!(Versions::default().netlify_rewrites("latest".into()), "");
}

#[test]
fn aliases_for_a_tag_come_in_binding_order() {
    let mut versions = Versions::default();
    versions.add("1.0.0".into(), None, strings(&["b", "a"]));
    versions.add("dev".into(), None, strings(&["c"]));
    assert_eq!(versions.aliases_for("1.0.0"), strings(&["b", "a"]));
    assert_eq!(versions.aliases_for("dev"), strings(&["c"]));
    assert!(versions.aliases_for("none").is_empty());
}
