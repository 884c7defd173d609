use confer::api::{
    refs_scope, refs_target, RefsScope,
    abbr_of, allowed_hubs, color_of, lang_of, memoized_staleness, parse_qs, resolve_hub_idx, trust_of, urldecode,
    verified_of, Staleness, StalenessCache, StalenessKey,
};

#[test]
fn parse_qs_decodes_percent_and_plus() {
    let q = parse_qs("/api/refs?target=repo%3Apath%23L1-2&note=a+b");
    assert_eq!(q.get("target").unwrap(), "repo:path#L1-2");
    assert_eq!(q.get("note").unwrap(), "a b");
}

#[test]
fn abbr_and_color_are_deterministic() {
    assert_eq!(abbr_of("Bob"), "BO");
    assert_eq!(abbr_of("*"), "??");
    assert_eq!(color_of("bob"), color_of("bob"));
}

#[test]
fn verified_of_maps_closed_vocabulary() {
    assert_eq!(verified_of("verified"), "signed");
    assert_eq!(verified_of("first-sight"), "first-sight");
    assert_eq!(verified_of("unverified"), "unverified");
    assert_eq!(verified_of("mismatch"), "unverified");
}

#[test]
fn lang_of_maps_common_extensions() {
    assert_eq!(lang_of("src/main.rs"), "rust");
    assert_eq!(lang_of("a/b.tsx"), "tsx");
    assert_eq!(lang_of("README"), "text");
}

fn key(n: usize) -> StalenessKey {
    ("repo".to_string(), format!("sha{n}"), "path.rs".to_string(), None, None)
}

#[test]
fn memoized_staleness_computes_a_repeated_key_only_once() {
    let mut cache = StalenessCache::new();
    let mut calls = 0;
    let (st1, capped1) = memoized_staleness(&mut cache, 100, key(1), || {
        calls += 1;
        Staleness::Current
    });
    let (st2, capped2) = memoized_staleness(&mut cache, 100, key(1), || {
        calls += 1;
        Staleness::Current
    });
    assert_eq!(calls, 1, "the second lookup of the same key must hit the cache, not recompute");
    assert_eq!(st1, Staleness::Current);
    assert_eq!(st2, Staleness::Current);
    assert!(!capped1 && !capped2);
}

#[test]
fn memoized_staleness_refuses_past_the_cap() {
    let mut cache = StalenessCache::new();
    for i in 0..5 {
        let (_, capped) = memoized_staleness(&mut cache, 5, key(i), || Staleness::Current);
        assert!(!capped, "under the cap must compute normally");
    }
    assert_eq!(cache.len(), 5);
    let mut called = false;
    let (st, capped) = memoized_staleness(&mut cache, 5, key(99), || {
        called = true;
        Staleness::Current
    });
    assert!(!called, "over the cap must not invoke compute (no git spawn)");
    assert!(capped);
    assert_eq!(st, Staleness::Unknown);
}

#[test]
fn memoized_staleness_cached_hit_bypasses_the_cap() {
    let mut cache = StalenessCache::new();
    let (_, capped) = memoized_staleness(&mut cache, 1, key(1), || Staleness::Changed);
    assert!(!capped);
    let (_, capped) = memoized_staleness(&mut cache, 1, key(2), || Staleness::Current);
    assert!(capped, "cache already at cap=1, a second distinct key must be refused");
    let (st, capped) = memoized_staleness(&mut cache, 1, key(1), || Staleness::Current);
    assert!(!capped);
    assert_eq!(st, Staleness::Changed, "repeated key must still return its originally cached value");
}

#[test]
fn urldecode_edge_cases() {
    assert_eq!(urldecode("%41%2b"), "A+");
    assert_eq!(urldecode("%zz"), "%zz");
    assert_eq!(urldecode("100%"), "100%");
    assert_eq!(urldecode("%+F"), "\u{f}");
    assert_eq!(urldecode("%C3%A9"), "é");
    assert_eq!(urldecode("%FF"), "\u{fffd}");
}

#[test]
fn parse_qs_last_value_wins_and_bare_keys() {
    let q = parse_qs("/x?a=1&&b&a=2");
    assert_eq!(q.get("a").as_deref(), Some("2"));
    assert_eq!(q.get("b").as_deref(), Some(""));
    assert_eq!(q.get("c"), None);
    assert_eq!(q.pairs.len(), 2);
    assert!(parse_qs("/no-query").pairs.is_empty());
}

#[test]
fn hub_resolution_and_scope() {
    let ids = vec!["o/a".to_string(), "o/b".to_string()];
    assert_eq!(resolve_hub_idx(&ids, &parse_qs("/x?hub=o/b"), None), Some(1));
    assert_eq!(resolve_hub_idx(&ids, &parse_qs("/x?hub=o/z"), Some(0)), None);
    assert_eq!(resolve_hub_idx(&ids, &parse_qs("/x?hub="), Some(1)), Some(1));
    assert_eq!(resolve_hub_idx(&ids, &parse_qs("/x"), None), Some(0));
    assert_eq!(resolve_hub_idx(&vec![], &parse_qs("/x"), None), None);
    assert_eq!(allowed_hubs(vec!["a".into()], false, vec!["a".into(), "b".into()]), vec!["a".to_string()]);
    assert_eq!(allowed_hubs(vec!["a".into()], true, vec!["a".into(), "b".into()]).len(), 2);
    assert_eq!(trust_of("mismatch"), "mismatch");
    assert_eq!(trust_of("other"), "unverified");
}

#[test]
fn refs_scope_honours_all_hubs_only_with_operator_consent() {
    let ids = vec!["a".to_string(), "b".to_string()];
    let q = parse_qs("/api/refs?target=r%3Ap&allHubs=1");
    assert_eq!(refs_target(&q).as_deref(), Some("r:p"));
    assert!(matches!(refs_scope(&ids, &q, None, true), Ok(RefsScope::Every)));
    match refs_scope(&ids, &q, None, false) {
        Err(e) => {
            assert_eq!(e.status, 400);
            assert_eq!(e.message, "allHubs=1 requires the server to be started with --all-hubs");
        }
        Ok(_) => panic!("must refuse"),
    }
    let q = parse_qs("/api/refs?target=&hub=b");
    assert_eq!(refs_target(&q), None);
    assert!(matches!(refs_scope(&ids, &q, Some(0), false), Ok(RefsScope::One(1))));
    let q = parse_qs("/api/refs?hub=zzz&allHubs=0");
    match refs_scope(&ids, &q, None, true) {
        Err(e) => assert_eq!((e.status, e.message), (404, "unknown hub")),
        Ok(_) => panic!("unknown hub"),
    }
    let q = parse_qs("/api/refs?allHubs=true");
    assert!(matches!(refs_scope(&ids, &q, Some(1), true), Ok(RefsScope::Every)));
}

#[test]
fn urldecode_reads_plus_as_space_and_abbr_uppercases() {
    assert_eq!(urldecode("a+b"), "a b");
    assert_eq!(urldecode("caf%C3%A9"), "café");
    assert_eq!(abbr_of("ab-cd"), "AB");
    assert_eq!(abbr_of("  x"), "X");
    assert_eq!(lang_of("dir.d/.bashrc"), "text");
    assert_eq!(lang_of("lib.mjs"), "javascript");
}
