use confer::clonehome::{
    clone_dir, hub_dir_name, hub_tag, key_tag, resolve_by_tags, resolve, role_dir_name, root, same_key, slug, split_tag,
    Candidate,
};

#[test]
fn slug_is_readable_but_path_safe() {
    assert_eq!(slug("alice"), "alice");
    assert_eq!(slug("carol-role"), "carol-role");
    assert_eq!(slug("Carol_Role"), "carol_role");
    assert_eq!(slug("../../etc/passwd"), "etc-passwd");
    assert_eq!(slug("a  b\tc"), "a-b-c");
    assert_eq!(slug("héllo"), "h-llo");
    assert_eq!(slug("--weird--"), "weird");
    assert_eq!(slug(""), "x");
    assert_eq!(slug("!!!"), "x");
    assert!(slug(&"z".repeat(200)).len() <= 24);
    assert!(!slug("../x").contains('/'));
}

#[test]
fn tag_is_deterministic_hyphen_free_lowercase_hex() {
    let a = hub_tag("root-commit-sha-abc");
    assert_eq!(a, hub_tag("root-commit-sha-abc"));
    assert_ne!(a, hub_tag("root-commit-sha-xyz"));
    assert_eq!(a.len(), 12);
    assert!(!a.contains('-'));
    assert!(a.chars().all(|c| c.is_ascii_hexdigit() && !c.is_ascii_uppercase()));
}

#[test]
fn split_tag_grabs_the_last_part_even_with_hyphenated_slug() {
    assert_eq!(split_tag("carol-role-1a2b3c4d5e6f"), Some(("carol-role".to_string(), "1a2b3c4d5e6f".to_string())));
    assert_eq!(split_tag("alice-aabbccddeeff"), Some(("alice".to_string(), "aabbccddeeff".to_string())));
    assert_eq!(split_tag("x-000000000000"), Some(("x".to_string(), "000000000000".to_string())));
    assert_eq!(split_tag("notagseparator"), None);
}

#[test]
fn key_tag_is_environment_stable_and_ignores_the_comment() {
    let a = key_tag("ssh-ed25519 AAAAC3NzBODYMATERIAL helper@host-a");
    let b = key_tag("ssh-ed25519 AAAAC3NzBODYMATERIAL someone@else");
    assert_eq!(a, b);
    assert_ne!(a, key_tag("ssh-ed25519 DIFFERENTBODYMATERIAL x"));
    assert!(!a.contains('-') && a.len() == 12);
}

#[test]
fn dir_names_compose_and_round_trip() {
    let name = hub_dir_name("Team Hub!", "some-root-sha");
    let (prefix, tag) = split_tag(&name).unwrap();
    assert_eq!(prefix, "team-hub");
    assert_eq!(tag, hub_tag("some-root-sha"));
}

fn cand(hub_dir: &str, role_dir: &str, pubkey: Option<&str>) -> Candidate {
    Candidate {
        hub_dir: hub_dir.into(),
        role_dir: role_dir.into(),
        dirs: true,
        identity_file: true,
        pubkey: pubkey.map(String::from),
    }
}

#[test]
fn resolve_matches_by_tag_and_verifies_the_key() {
    let pk = "ssh-ed25519 REALKEY x";
    let ht = hub_tag("root-sha");
    let kt = key_tag(pk);
    let good = cand(&format!("team-hub-{ht}"), &format!("helper-renamed-{kt}"), Some("ssh-ed25519 REALKEY other-comment"));
    let evil = cand(&format!("h-{ht}"), &format!("evil-{kt}"), Some("ssh-ed25519 EVILKEY y"));
    assert_eq!(resolve("root-sha", pk, &[good]), Some(0));
    assert_eq!(resolve("root-sha", pk, &[evil]), None, "a tag match with the wrong key is no match");
    let twin_a = cand(&format!("team-hub-{ht}"), &format!("real-{kt}"), Some(pk));
    let twin_b = cand(&format!("team-hub-{ht}"), &format!("imposter-{kt}"), Some(pk));
    assert_eq!(resolve("root-sha", pk, &[twin_a, twin_b]), None, "ambiguous tag must fail closed");
    let keyless = cand(&format!("h-{ht}"), &format!("planted-{kt}"), None);
    assert_eq!(resolve("root-sha", pk, &[keyless]), None);
    let foreign = cand("backup-2024", "stuff-notahextag", Some(pk));
    assert_eq!(resolve_by_tags(&[foreign], &ht, &kt, None), None);
}

#[test]
fn managed_paths_join_under_the_clones_home() {
    assert_eq!(root("/home/me"), "/home/me/.confer/clones");
    assert_eq!(root("/home/me/"), "/home/me/.confer/clones");
    let d = clone_dir("/home/me", "Team Hub", "root-sha", "alice", "ssh-ed25519 K x");
    assert_eq!(d, format!("/home/me/.confer/clones/{}/{}", hub_dir_name("Team Hub", "root-sha"), role_dir_name("alice", "ssh-ed25519 K x")));
}

#[test]
fn same_key_compares_key_material_only() {
    assert!(same_key("ssh-ed25519 K a@b", "ssh-ed25519 K c@d"));
    assert!(!same_key("ssh-ed25519 K a@b", "ssh-ed25519 L a@b"));
}

#[test]
fn resolve_matches_by_tag_despite_a_relabeled_prefix() {
    let hub_t = "3f9a1c024b8e";
    let key_t = "1a2b3c4d5e6f";
    let mine = cand(&format!("team-hub-{hub_t}"), &format!("helper-renamed-{key_t}"), None);
    let mut peer = cand(&format!("team-hub-{hub_t}"), "carol-999999999999", None);
    peer.identity_file = false;
    let cs = [mine, peer];
    assert_eq!(resolve_by_tags(&cs, hub_t, key_t, None), Some(0));
    assert_eq!(resolve_by_tags(&cs, hub_t, "ffffffffffff", None), None);
    assert_eq!(resolve_by_tags(&cs, "ffffffffffff", key_t, None), None);
    assert_eq!(resolve_by_tags(&[], hub_t, key_t, None), None);
}

#[test]
fn resolve_fails_closed_when_two_clones_share_a_key_tag() {
    let hub_t = "3f9a1c024b8e";
    let key_t = "1a2b3c4d5e6f";
    let cs = [
        cand(&format!("team-hub-{hub_t}"), &format!("real-{key_t}"), None),
        cand(&format!("team-hub-{hub_t}"), &format!("imposter-{key_t}"), None),
    ];
    assert_eq!(resolve_by_tags(&cs, hub_t, key_t, None), None, "ambiguous tag must fail closed");
}

#[test]
fn resolve_verifies_the_pubkey_not_just_the_tag() {
    let hub_t = "aaaaaaaaaaaa";
    let key_t = "bbbbbbbbbbbb";
    let cs = [
        cand(&format!("h-{hub_t}"), &format!("real-{key_t}"), Some("ssh-ed25519 REALKEY x")),
        cand(&format!("h-{hub_t}"), &format!("evil-{key_t}"), Some("ssh-ed25519 EVILKEY y")),
    ];
    assert_eq!(resolve_by_tags(&cs, hub_t, key_t, Some("ssh-ed25519 REALKEY other-comment")), Some(0));
    assert_eq!(resolve_by_tags(&cs, hub_t, key_t, Some("ssh-ed25519 STRANGER z")), None);
}

#[test]
fn resolve_rejects_a_pubkeyless_clone_when_a_key_is_expected() {
    let hub_t = "cccccccccccc";
    let key_t = "dddddddddddd";
    let cs = [cand(&format!("h-{hub_t}"), &format!("planted-{key_t}"), None)];
    assert_eq!(resolve_by_tags(&cs, hub_t, key_t, Some("ssh-ed25519 SOMEKEY x")), None);
    assert!(resolve_by_tags(&cs, hub_t, key_t, None).is_some());
}

#[test]
fn resolve_recovers_pubkey_from_signing_key_for_a_legacy_clone() {
    // The key recovered from the legacy clone's `<signing_key>.pub` is what the candidate records.
    let hub_t = "eeeeeeeeeeee";
    let key_t = "ffffffffffff";
    let cs = [cand(&format!("h-{hub_t}"), &format!("legacy-{key_t}"), Some("ssh-ed25519 LEGACYKEY host"))];
    assert_eq!(resolve_by_tags(&cs, hub_t, key_t, Some("ssh-ed25519 LEGACYKEY other")), Some(0));
    assert_eq!(resolve_by_tags(&cs, hub_t, key_t, Some("ssh-ed25519 OTHERKEY z")), None);
}

#[test]
fn resolve_ignores_a_foreign_dir_with_a_non_tag_suffix() {
    let cs = [cand("backup-2024", "stuff-notahextag", None)];
    assert_eq!(resolve_by_tags(&cs, "2024", "notahextag", None), None);
}

#[test]
fn resolve_skips_a_bare_tag_colliding_dir_that_is_not_a_clone() {
    let hub_t = "aaaaaaaaaaaa";
    let key_t = "bbbbbbbbbbbb";
    let mut c = cand(&format!("h-{hub_t}"), &format!("imposter-{key_t}"), None);
    c.identity_file = false;
    assert_eq!(resolve_by_tags(&[c], hub_t, key_t, None), None);
}

#[test]
fn slug_is_canonical_and_a_fixed_point() {
    for label in ["../../etc", "a--b", "Hello, World!", "..", "ok_name-2", "ÀÉ.x.y"] {
        let s = slug(label);
        assert!(!s.contains("--"));
        assert!(!s.contains(".."));
        assert_eq!(slug(&s), s);
    }
    assert_eq!(slug("a--b"), "a-b");
}

#[test]
fn same_key_is_an_equivalence_on_examples() {
    let a = "ssh-ed25519 K x";
    let b = "ssh-ed25519 K y";
    assert!(same_key(a, b) && same_key(b, a) && same_key(a, a));
    assert!(!same_key(a, "ssh-ed25519 J x"));
    assert_eq!(key_tag(a), key_tag(b));
}
