use confer::arm::{may_replace, resolve_clone, ArmPick, WatchState};
use confer::autoheal::{
    pick_grok_session, GrokSession, add_target, owned_by_session, ownership, prune, retarget, session_from, set_enabled, stale_targets, Ownership,
    Registry, Target,
};

fn t(session: Option<&str>, role: &str) -> Target {
    Target { hub: "/x".into(), role: role.into(), session: session.map(String::from) }
}

fn at(hub: &str, role: &str, session: Option<&str>) -> Target {
    Target { hub: hub.into(), role: role.into(), session: session.map(String::from) }
}

const SESSION_ENV_KEYS: [&str; 2] = ["CLAUDE_CODE_SESSION_ID", "GROK_SESSION_ID"];

fn lookup(get: impl Fn(&str) -> Option<String>) -> Vec<Option<String>> {
    SESSION_ENV_KEYS.iter().map(|k| get(k)).collect()
}

#[test]
fn scoping_owns_my_session_and_my_role_but_never_a_peer() {
    let me_s = Some("sess-A".to_string());
    let me_r = Some("alice".to_string());
    assert!(owned_by_session(&t(Some("sess-A"), "alice"), &me_s, &me_r));
    assert!(owned_by_session(&t(Some("sess-OLD"), "alice"), &me_s, &me_r));
    assert!(owned_by_session(&t(None, "alice"), &me_s, &me_r));
    assert!(!owned_by_session(&t(Some("sess-B"), "carol"), &me_s, &me_r));
    assert!(!owned_by_session(&t(None, "carol"), &me_s, &me_r));
}

#[test]
fn session_from_tries_each_harness_key_in_order() {
    let g = |k: &str| if k == "GROK_SESSION_ID" { Some("grok-1".to_string()) } else { None };
    assert_eq!(session_from(&lookup(g)).as_deref(), Some("grok-1"));
    let both = |k: &str| match k {
        "CLAUDE_CODE_SESSION_ID" => Some("cc-1".to_string()),
        "GROK_SESSION_ID" => Some("grok-1".to_string()),
        _ => None,
    };
    assert_eq!(session_from(&lookup(both)).as_deref(), Some("cc-1"));
    let empty_claude = |k: &str| match k {
        "CLAUDE_CODE_SESSION_ID" => Some(String::new()),
        "GROK_SESSION_ID" => Some("grok-1".to_string()),
        _ => None,
    };
    assert_eq!(session_from(&lookup(empty_claude)).as_deref(), Some("grok-1"));
    assert_eq!(session_from(&lookup(|_| None)), None);
}

#[test]
fn ownership_basis_distinguishes_session_from_role_fallback() {
    let me_s = Some("sess-A".to_string());
    let me_r = Some("alice".to_string());
    assert_eq!(ownership(&t(Some("sess-A"), "alice"), &me_s, &me_r), Some(Ownership::Session));
    assert_eq!(ownership(&t(Some("sess-OLD"), "alice"), &me_s, &me_r), Some(Ownership::Role));
    assert_eq!(ownership(&t(None, "alice"), &me_s, &me_r), Some(Ownership::Role));
    assert_eq!(ownership(&t(Some("sess-B"), "carol"), &me_s, &me_r), None);
}

#[test]
fn no_identity_owns_nothing_rather_than_over_listing() {
    let none: Option<String> = None;
    assert!(!owned_by_session(&t(Some("sess-A"), "alice"), &none, &none));
    assert!(!owned_by_session(&t(None, "alice"), &none, &none));
    let me_r = Some("alice".to_string());
    assert!(owned_by_session(&t(None, "alice"), &none, &me_r));
    assert!(!owned_by_session(&t(None, "carol"), &none, &me_r));
}

#[test]
fn may_replace_protects_only_an_unconfirmed_healthy_watcher() {
    assert!(!may_replace(WatchState::Healthy, false, false), "unconfirmed healthy → refuse");
    assert!(may_replace(WatchState::Healthy, true, false), "session-confirmed healthy → replace");
    assert!(may_replace(WatchState::Healthy, false, true), "--force healthy → replace");
    for s in [WatchState::NotWatching, WatchState::Stale, WatchState::Outdated, WatchState::OtherHost] {
        assert!(may_replace(s, false, false), "{s:?} always replaces");
    }
}

#[test]
fn set_enabled_keeps_targets() {
    let mut r = Registry { enabled: false, targets: vec![at("/h", "alice", None)] };
    set_enabled(&mut r, true);
    assert!(r.enabled);
    assert_eq!(r.targets.len(), 1);
    set_enabled(&mut r, false);
    assert!(!r.enabled);
}

#[test]
fn add_target_records_then_takes_ownership_then_is_idempotent() {
    let mut r = Registry { enabled: true, targets: vec![] };
    assert!(!add_target(&mut r, "/h", "", Some("s1".into())), "an empty role records nothing");
    assert!(r.targets.is_empty());
    assert!(add_target(&mut r, "/h", "alice", Some("s1".into())));
    assert_eq!(r.targets.len(), 1);
    assert!(!add_target(&mut r, "/h", "alice", Some("s1".into())), "same session again: no change");
    assert!(add_target(&mut r, "/h", "alice", Some("s2".into())), "a new session takes ownership");
    assert_eq!(r.targets.len(), 1);
    assert_eq!(r.targets[0].session.as_deref(), Some("s2"));
    assert!(add_target(&mut r, "/h", "bob", None));
    assert_eq!(r.targets.len(), 2);
}

#[test]
fn retarget_moves_every_target_at_the_old_hub() {
    let mut r = Registry {
        enabled: true,
        targets: vec![at("/old", "alice", Some("s")), at("/other", "bob", None), at("/old", "carol", None)],
    };
    assert!(retarget(&mut r, "/old", "/new"));
    assert_eq!(r.targets[0].hub, "/new");
    assert_eq!(r.targets[1].hub, "/other");
    assert_eq!(r.targets[2].hub, "/new");
    assert_eq!(r.targets[0].session.as_deref(), Some("s"));
    assert!(!retarget(&mut r, "/old", "/new"), "nothing left at the old path");
}

#[test]
fn stale_and_prune_split_by_presence() {
    let mut r = Registry {
        enabled: true,
        targets: vec![at("/a", "alice", None), at("/gone", "bob", None), at("/c", "carol", None)],
    };
    let present = vec![true, false, true];
    let stale = stale_targets(&r, &present);
    assert_eq!(stale.len(), 1);
    assert_eq!(stale[0].hub, "/gone");
    assert_eq!(r.targets.len(), 3, "listing stale targets removes nothing");
    let removed = prune(&mut r, &present);
    assert_eq!(removed.len(), 1);
    assert_eq!(removed[0].role, "bob");
    assert_eq!(r.targets.iter().map(|t| t.role.as_str()).collect::<Vec<_>>(), vec!["alice", "carol"]);
    let again = prune(&mut r, &vec![true, true]);
    assert!(again.is_empty());
    assert_eq!(r.targets.len(), 2);
}

#[test]
fn arm_resolves_one_owned_clone_or_refuses_to_guess() {
    let me_s = Some("sess-A".to_string());
    let targets = vec![at("/h1", "alice", Some("sess-A")), at("/h2", "carol", Some("sess-B"))];
    match resolve_clone(&targets, &me_s, &None) {
        ArmPick::One(h) => assert_eq!(h, "/h1"),
        _ => panic!("expected one clone"),
    }
    let none: Vec<Target> = vec![at("/h2", "carol", Some("sess-B"))];
    assert!(matches!(resolve_clone(&none, &me_s, &None), ArmPick::Nothing));
    let two = vec![at("/h2", "alice", Some("sess-A")), at("/h1", "alice", Some("sess-A")), at("/h1", "alice", None)];
    match resolve_clone(&two, &me_s, &None) {
        ArmPick::Several(v) => {
            assert_eq!(v, vec![("/h1".to_string(), "alice".to_string()), ("/h2".to_string(), "alice".to_string())]);
        }
        _ => panic!("expected several"),
    }
    let role = Some("alice".to_string());
    let mixed = vec![at("/h1", "alice", None), at("/h3", "carol", Some("sess-A"))];
    match resolve_clone(&mixed, &me_s, &role) {
        ArmPick::One(h) => assert_eq!(h, "/h1"),
        _ => panic!("the named role narrows to one"),
    }
}

fn grok(id: &str, pid: u64, cwd: &str) -> GrokSession {
    GrokSession { session_id: Some(id.into()), pid: Some(pid), cwd: Some(cwd.into()) }
}

#[test]
fn pick_grok_session_matches_narrowly_or_declines() {
    let j = vec![grok("s-anc", 4242, "/w/a"), grok("s-cwd", 9999, "/w/b")];
    // (1) pid-ancestor wins, even when cwd points elsewhere.
    let anc: Vec<u32> = vec![1, 4242];
    assert_eq!(pick_grok_session(&j, &anc, &Some("/w/zzz".into())).as_deref(), Some("s-anc"));
    // (2) no ancestor match → the SOLE entry sharing our cwd.
    let none: Vec<u32> = vec![];
    assert_eq!(pick_grok_session(&j, &none, &Some("/w/b".into())).as_deref(), Some("s-cwd"));
    // ambiguous (no ancestor, cwd matches nothing, >1 entry) → None, never a guess.
    assert_eq!(pick_grok_session(&j, &none, &Some("/w/zzz".into())), None);
    // (3) a single object (not array), no ancestor/cwd match → the sole entry.
    let one = vec![grok("solo", 7, "/w/x")];
    assert_eq!(pick_grok_session(&one, &none, &Some("/nope".into())).as_deref(), Some("solo"));
    // empty / non-object-or-array → None.
    assert_eq!(pick_grok_session(&vec![], &none, &None), None);
}

#[test]
fn grok_pick_declines_two_ancestors_and_two_cwd_matches() {
    let j = vec![grok("a", 1, "/w"), grok("b", 2, "/w"), grok("c", 3, "/x")];
    assert_eq!(pick_grok_session(&j, &vec![1, 2], &Some("/x".into())).as_deref(), Some("c"));
    assert_eq!(pick_grok_session(&j, &vec![1, 2], &Some("/w".into())), None);
    assert_eq!(pick_grok_session(&j, &vec![3], &None).as_deref(), Some("c"));
}
