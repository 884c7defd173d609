use confer::keygen_release::{changelog_sections, parse_semver_prefix, select_sections};

const CHANGELOG: &str = "# Changelog\n\nAll notable changes.\n\n## 0.7.0\n\n- new\n\n## 0.6.8 (abc123)\n- fix\n\n## Unreleased?\n- x\n";

#[test]
fn changelog_parses_into_newest_first_sections() {
    let sections = changelog_sections(CHANGELOG);
    assert!(!sections.is_empty(), "the embedded CHANGELOG should parse into sections");
    let top = parse_semver_prefix(&sections[0].0);
    if let Some(top) = top {
        for (v, _) in &sections[1..] {
            if let Some(vv) = parse_semver_prefix(v) {
                assert!(top >= vv, "sections must be newest-first ({top:?} vs {vv:?})");
            }
        }
    }
    for (heading, body) in &sections {
        assert!(body.starts_with("## "), "section body must start with its heading");
        assert!(!body.contains("# Changelog\n"), "the file title must not leak into a section");
        assert!(!heading.is_empty());
    }
}

#[test]
fn semver_prefix_orders_versions_and_ignores_non_numeric() {
    assert!(parse_semver_prefix("0.6.8") > parse_semver_prefix("0.6.7"));
    assert!(parse_semver_prefix("0.7.0") > parse_semver_prefix("0.6.99"));
    assert!(parse_semver_prefix("1.0.0") > parse_semver_prefix("0.99.99"));
    assert_eq!(parse_semver_prefix("0.6.8 (abc123)"), Some((0, 6, 8)));
    assert_eq!(parse_semver_prefix("0.6"), Some((0, 6, 0)));
    assert_eq!(parse_semver_prefix("Unreleased"), None);
}

#[test]
fn sections_carry_heading_and_body() {
    let s = changelog_sections(CHANGELOG);
    assert_eq!(s.len(), 3);
    assert_eq!(s[0].0, "0.7.0");
    assert_eq!(s[0].1, "## 0.7.0\n\n- new\n\n");
    assert_eq!(s[1].0, "0.6.8 (abc123)");
    assert_eq!(s[2].1, "## Unreleased?\n- x\n");
    assert!(changelog_sections("no headings\n").is_empty());
}

#[test]
fn selection_by_since_all_or_newest() {
    let s = changelog_sections(CHANGELOG);
    assert_eq!(select_sections(&s, &None, false).len(), 1);
    assert_eq!(select_sections(&s, &None, true).len(), 3);
    let newer = select_sections(&s, &Some("0.6.8".into()), false);
    assert_eq!(newer.iter().map(|x| x.0.as_str()).collect::<Vec<_>>(), vec!["0.7.0", "Unreleased?"]);
    assert_eq!(select_sections(&s, &Some("garbage".into()), false).len(), 3);
}
