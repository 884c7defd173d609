use confer::alias::{conflict, homoglyph_risk, normalize, resolve, Role, Roster};

fn role(display: &str, host: &str, desc: &str, aliases: &[&str]) -> Role {
    Role {
        display: Some(display.into()),
        host: Some(host.into()),
        desc: if desc.is_empty() { None } else { Some(desc.to_string()) },
        aliases: aliases.iter().map(|s| s.to_string()).collect(),
        status: None,
        pubkey: None,
    }
}

fn fixture() -> Roster {
    let mut m = Roster::new();
    m.insert("bob".into(), role("Mobile Reader", "host-b.local", "mobile reader app", &["mobile agent", "spare box"]));
    m.insert("carol".into(), role("Design Studio", "host-a.local", "document layout + typesetting", &["design agent"]));
    m
}

#[test]
fn homoglyph_risk_flags_mixed_latin_cyrillic_not_legit_names() {
    assert!(homoglyph_risk("ali\u{0441}e"));
    assert!(homoglyph_risk("A\u{0430}ron"));
    assert!(!homoglyph_risk("alice"));
    assert!(!homoglyph_risk("José"));
    assert!(!homoglyph_risk("Confer / confer repo"));
    assert!(!homoglyph_risk("Алиса"));
}

#[test]
fn resolve_loose_phrases() {
    let r = fixture();
    assert_eq!(resolve(&r, "my mobile agent")[0].id, "bob");
    assert_eq!(resolve(&r, "the spare box one")[0].id, "bob");
    assert_eq!(resolve(&r, "design")[0].id, "carol");
    assert_eq!(resolve(&r, "the reader app")[0].id, "bob");
    assert_eq!(resolve(&r, "typesetting")[0].id, "carol");
}

#[test]
fn conflict_blocks_collisions_not_distinct() {
    let r = fixture();
    assert!(conflict(&r, "carol", "mobile agent").is_some());
    assert!(conflict(&r, "carol", "bob").is_some());
    assert!(conflict(&r, "carol", "spare  box").is_some());
    assert!(conflict(&r, "carol", "printer").is_none());
    assert!(conflict(&r, "bob", "mobile agent").is_none());
}

#[test]
fn collision_is_directional_superset_ok_subset_still_blocked() {
    let mut r = Roster::new();
    r.insert("arch-orbit".into(), role("Architecture Orbit", "athena.local", "architecture", &[]));
    assert!(conflict(&r, "orbit", "Orbit Prime").is_none());
    assert!(conflict(&r, "graph-orbit", "Graph Orbit").is_none());
    assert!(conflict(&r, "orbit", "Orbit").is_some());
    assert!(conflict(&r, "x", "Architecture").is_some());
    assert!(conflict(&r, "x", "architecture orbit").is_some());
    assert!(conflict(&r, "x", "Orbit Architecture").is_some());
}

#[test]
fn normalize_folds_case_punctuation_and_space() {
    assert_eq!(normalize("  Spare--Box! "), "spare box");
    assert_eq!(normalize("Mobile_Agent"), "mobile agent");
    assert_eq!(normalize(""), "");
}

#[test]
fn resolve_ranks_and_returns_nothing_for_unknown() {
    let r = fixture();
    assert!(resolve(&r, "zzz qqq").is_empty());
    let m = resolve(&r, "bob");
    assert_eq!(m[0].id, "bob");
}

#[test]
fn conflict_reports_who_holds_the_name() {
    let r = fixture();
    let (holder, _ident, _why) = conflict(&r, "carol", "mobile agent").unwrap();
    assert_eq!(holder, "bob");
}
