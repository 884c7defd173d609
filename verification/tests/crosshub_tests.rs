use confer::crosshub::{fallback_fingerprint, fingerprint, appearances, hub_dirs, hub_label, is_ephemeral, prune, record, root_sha, Membership};

fn m(dir: &str, role: &str) -> Membership {
    Membership { dir: dir.into(), role: role.into() }
}

#[test]
fn ephemeral_matches_scratchpad_test_hubs_only() {
    assert!(is_ephemeral("/private/tmp/agent-501/x/scratchpad/tasklayer/wd"));
    assert!(is_ephemeral("/var/folders/tw/x/T/sess/scratchpad/hub"));
    assert!(!is_ephemeral("/private/var/folders/tw/x/T/confer-cli-5118-clone-carol-41"));
    assert!(!is_ephemeral("/Users/me/git/team-hub"));
    assert!(!is_ephemeral("/Users/me/git/proj/team-hub"));
    assert!(!is_ephemeral("/home/me/scratchpad-notes"));
}

#[test]
fn prune_drops_gone_and_ephemeral_dirs() {
    let hubs = vec![m("/a", "x"), m("/gone", "y"), m("/tmp/q/scratchpad/h", "z"), m("/b", "w")];
    let (kept, changed) = prune(&hubs, &vec![true, false, true, true]);
    assert!(changed);
    assert_eq!(kept.iter().map(|m| m.dir.as_str()).collect::<Vec<_>>(), vec!["/a", "/b"]);
    let (same, changed) = prune(&kept, &vec![true, true]);
    assert!(!changed);
    assert_eq!(same.len(), 2);
}

#[test]
fn record_is_idempotent_and_skips_empty_roles() {
    let mut hubs = vec![m("/a", "x")];
    assert!(!record(&mut hubs, "/b".into(), ""));
    assert!(record(&mut hubs, "/b".into(), "y"));
    assert!(!record(&mut hubs, "/b".into(), "y"));
    assert_eq!(hubs.len(), 2);
}

#[test]
fn hub_dirs_collapse_clones_of_one_hub_and_skip_non_hubs() {
    let hubs = vec![m("/c1", "x"), m("/c1", "y"), m("/c2", "x"), m("/notahub", "x"), m("/c3", "x")];
    let is_hub = vec![true, true, true, false, true];
    let roots = vec![Some("r1".to_string()), Some("r1".to_string()), Some("r1".to_string()), None, None];
    assert_eq!(hub_dirs(&hubs, &is_hub, &roots), vec!["/c1".to_string(), "/c3".to_string()]);
}

#[test]
fn hub_label_prefers_owner_repo_then_local_name() {
    assert_eq!(hub_label(&Some("git@github.com:codeshrew/team-hub.git".into()), &Some("hub".into()), &None), "codeshrew/team-hub");
    assert_eq!(hub_label(&Some("https://github.com/o/r.git.git ".into()), &None, &None), "o/r");
    assert_eq!(
        hub_label(&None, &Some("team-hub".into()), &Some("0123456789abcdef".into())),
        "team-hub (local 01234567)"
    );
    assert_eq!(hub_label(&Some("solo".into()), &None, &None), "hub (local)");
}

#[test]
fn root_sha_is_the_first_word() {
    assert_eq!(root_sha("abc123\n").as_deref(), Some("abc123"));
    assert_eq!(root_sha("  first second\n").as_deref(), Some("first"));
    assert_eq!(root_sha(" \n"), None);
}

#[test]
fn appearances_index_keys_once_with_distinct_places() {
    let hubs = vec![
        ("team/a".to_string(), vec![("alice".to_string(), Some("K1".to_string())), ("bob".to_string(), None)]),
        ("team/b".to_string(), vec![("alice2".to_string(), Some("K1".to_string())), ("carol".to_string(), Some("K2".to_string()))]),
        ("team/a".to_string(), vec![("alice".to_string(), Some("K1".to_string()))]),
    ];
    let idx = appearances(&hubs);
    assert_eq!(idx.len(), 2);
    assert_eq!(idx[0].0, "K1");
    assert_eq!(
        idx[0].1,
        vec![("team/a".to_string(), "alice".to_string()), ("team/b".to_string(), "alice2".to_string())]
    );
    assert_eq!(idx[1].0, "K2");
    assert_eq!(idx[1].1, vec![("team/b".to_string(), "carol".to_string())]);
}

#[test]
fn fallback_fingerprint_takes_the_material_tail_by_chars() {
    assert_eq!(fallback_fingerprint("ssh-ed25519 AAAAC3NzaC1lZDI1NTE5 me@box"), "key:…ZDI1NTE5");
    assert_eq!(fallback_fingerprint("short"), "key:…short");
    assert_eq!(fallback_fingerprint("ssh-ed25519 ééééééééé"), "key:…éééééééé");
}

#[test]
fn fingerprint_prefers_ssh_keygen_sha256() {
    let pk = "ssh-ed25519 AAAAC3NzaC1lZDI1NTE5 me@box";
    let out = Some("256 SHA256:abcDEF123 me@box (ED25519)\n".to_string());
    assert_eq!(fingerprint(pk, &out), "SHA256:abcDEF123");
    assert_eq!(fingerprint(pk, &Some("garbage".to_string())), "key:…ZDI1NTE5");
    assert_eq!(fingerprint(pk, &None), "key:…ZDI1NTE5");
}
