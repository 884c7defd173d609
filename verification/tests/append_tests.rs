use confer::append::{
    check_body, check_fields, check_head, classify_explicit, classify_implicit_head, default_audience, default_summary,
    gate_on_hunks, integrity_gate, is_full_hex, looks_like_hex, parse_hunks, parse_range, parse_ref, split_comma_targets,
    valid_slug, AppendError, AppendFields, CodeRef, GateVerdict, Hunk, NameKind, Prior, RefError, RefKind,
};

#[test]
fn comma_targets_split_trim_and_drop_empties() {
    assert_eq!(split_comma_targets(vec!["a,b,c".into()]), vec!["a", "b", "c"]);
    assert_eq!(split_comma_targets(vec!["a".into(), "b, c".into()]), vec!["a", "b", "c"]);
    assert_eq!(split_comma_targets(vec!["a,,".into(), "".into()]), vec!["a"]);
    assert!(split_comma_targets(vec![]).is_empty());
    assert_eq!(split_comma_targets(vec!["all".into()]), vec!["all"]);
}

#[test]
fn parse_ref_handles_repo_path_sha_and_range() {
    let r = parse_ref("proj:docs/design.md@6c513dca").unwrap();
    assert_eq!(r.repo, "proj");
    assert_eq!(r.path, "docs/design.md");
    assert_eq!(r.sha, "6c513dca");
    assert_eq!(r.range, None);
    let d = parse_ref("proj:docs/design.md").unwrap();
    assert_eq!(d.sha, "HEAD");
    let ranged = parse_ref("app:src/main.rs@abc#L10-L42").unwrap();
    assert_eq!(ranged.path, "src/main.rs");
    assert_eq!(ranged.sha, "abc");
    assert_eq!(ranged.range, Some([10, 42]));
    let one = parse_ref("app:src/main.rs@abc#L46").unwrap();
    assert_eq!(one.range, Some([46, 46]));
    assert!(parse_ref("no-colon").is_err());
    assert!(parse_ref("repo:").is_err());
    assert!(parse_ref(":path").is_err());
}

#[test]
fn parse_range_errors_on_malformed() {
    assert_eq!(parse_range("10-42").unwrap(), [10, 42]);
    assert_eq!(parse_range("L10-L42").unwrap(), [10, 42]);
    assert_eq!(parse_range("46").unwrap(), [46, 46]);
    assert_eq!(parse_range("L46").unwrap(), [46, 46]);
    assert!(parse_range("L10-Lx").is_err());
    assert!(parse_range("Lx").is_err());
    assert!(parse_range("").is_err());
    assert!(parse_range("99999999999999999999-2").is_err());
}

#[test]
fn parse_ref_reports_each_problem() {
    assert_eq!(parse_ref("Bad_Repo:path").err(), Some(RefError::Repo));
    assert_eq!(parse_ref("repo:pa\u{7}th").err(), Some(RefError::ControlInPath));
    assert_eq!(parse_ref("repo:path#Lx").err(), Some(RefError::Range));
    assert_eq!(parse_ref("repo:path@sha#L1-2").unwrap().range, Some([1, 2]));
}

#[test]
fn slugs_and_hex() {
    assert!(valid_slug("a-1"));
    assert!(!valid_slug("-a"));
    assert!(!valid_slug("A"));
    assert!(!valid_slug(&"a".repeat(65)));
    assert!(is_full_hex(&"a".repeat(40)));
    assert!(!is_full_hex(&"g".repeat(40)));
    assert!(looks_like_hex("abcd") && !looks_like_hex("abc") && !looks_like_hex("main"));
}

#[test]
fn ref_kinds_classify_and_apply() {
    assert!(matches!(classify_explicit("abcd12", true, true), RefKind::Detached));
    assert!(matches!(classify_explicit("main", true, true), RefKind::Branch(ref n) if n == "main"));
    assert!(matches!(classify_explicit("v1", false, true), RefKind::Tag(ref n) if n == "v1"));
    assert!(matches!(classify_explicit("v1", false, false), RefKind::Detached));
    assert!(matches!(classify_implicit_head(Some("".into()), Some("v2".into())), RefKind::Tag(ref n) if n == "v2"));
    let mut r: CodeRef = parse_ref("p:f").unwrap();
    RefKind::Branch("dev".into()).apply(&mut r);
    assert_eq!(r.ref_type.as_deref(), Some("branch"));
    assert_eq!(r.ref_name.as_deref(), Some("dev"));
    RefKind::Detached.apply(&mut r);
    assert_eq!(r.ref_type.as_deref(), Some("detached"));
    assert_eq!(r.ref_name, None);
}

#[test]
fn hunks_parse_and_gate() {
    let diff = "diff --git a/f b/f\n@@ -3,0 +4,2 @@ ctx\n+x\n+y\n@@ -20 +22,3 @@\nnoise\n@@ broken\n";
    let hs = parse_hunks(diff);
    assert_eq!(hs, vec![Hunk { old_len: 0, new_start: 4, new_len: 2 }, Hunk { old_len: 1, new_start: 22, new_len: 3 }]);
    match gate_on_hunks(&hs, Some([10, 12]), None) {
        GateVerdict::Remapped { range, note } => {
            assert_eq!(range, [8, 10]);
            assert_eq!(note, "range remapped L10-12 → L8-10: uncommitted insertion above");
        }
        _ => panic!("expected a remap"),
    }
    match gate_on_hunks(&hs, Some([3, 5]), None) {
        GateVerdict::Dirty { reason } => assert_eq!(reason, "uncommitted changes overlapping L3-5"),
        _ => panic!("expected dirty"),
    }
    assert!(matches!(gate_on_hunks(&hs, None, None), GateVerdict::Dirty { .. }));
    assert!(matches!(gate_on_hunks(&vec![], Some([1, 9]), Some(5)), GateVerdict::Dirty { .. }));
    assert!(matches!(gate_on_hunks(&vec![], Some([1, 4]), Some(5)), GateVerdict::Clean));
    assert!(matches!(integrity_gate(false, true, &None, None, None), GateVerdict::Untracked { ignored: true }));
    assert!(matches!(integrity_gate(true, false, &None, Some([1, 2]), None), GateVerdict::Clean));
}

fn fields(t: &str, to: &[&str]) -> AppendFields {
    AppendFields {
        msg_type: t.into(),
        to: to.iter().map(|s| s.to_string()).collect(),
        cc: vec![],
        of: None,
        supersedes: None,
        summary: "s".into(),
        resolution: None,
        defer: false,
        topic: None,
    }
}

#[test]
fn append_checks_come_in_order() {
    assert_eq!(check_head(false, &None, &vec![], false, &None).err(), Some(AppendError::UnknownType));
    assert_eq!(check_head(true, &Some("urgent".into()), &vec![], false, &None).err(), Some(AppendError::BadPriority));
    assert_eq!(check_head(true, &None, &vec!["nocolon".into()], false, &None).err(), Some(AppendError::BadRef(RefError::Shape)));
    assert_eq!(check_head(true, &None, &vec![], true, &None).err(), Some(AppendError::PatchNeedsRepo));
    assert_eq!(check_head(true, &Some("high".into()), &vec!["p:f#1".into()], false, &None).unwrap().len(), 1);
    assert_eq!(check_fields(&fields("request", &[]), "alice").err(), Some(AppendError::RequestNeedsTo));
    assert_eq!(check_fields(&fields("done", &[]), "alice").err(), Some(AppendError::NeedsOf));
    let mut f = fields("done", &[]);
    f.of = Some("01ABC".into());
    f.resolution = Some(" wont-do ".into());
    assert_eq!(check_fields(&f, "alice").unwrap(), (Some("wont-do".to_string()), "general".to_string()));
    f.resolution = Some("maybe".into());
    assert_eq!(check_fields(&f, "alice").err(), Some(AppendError::BadResolution));
    let mut n = fields("note", &["all"]);
    n.resolution = Some("wont-do".into());
    assert_eq!(check_fields(&n, "alice").err(), Some(AppendError::ResolutionNotDone));
    assert_eq!(check_fields(&fields("note", &[]), "all").err(), Some(AppendError::ReservedName(NameKind::Role)));
    assert_eq!(check_fields(&fields("note", &["Bad Target"]), "alice").err(), Some(AppendError::BadTarget));
    let mut d = fields("note", &[]);
    d.defer = true;
    assert_eq!(check_fields(&d, "alice").err(), Some(AppendError::DeferNotRequest));
}

#[test]
fn body_checks() {
    assert_eq!(check_body("note", " - ", "s", false), Err(AppendError::EmptyBody));
    assert_eq!(check_body("done", "", "s", false), Ok(()));
    assert_eq!(check_body("note", "", "s", true), Ok(()));
    assert_eq!(check_body("note", "ok\u{1b}[31m", "s", false), Err(AppendError::ControlInBody('\u{1b}')));
    assert_eq!(check_body("note", "line\n\tok", "s\u{7}", false), Err(AppendError::ControlInSummary('\u{7}')));
}

#[test]
fn audience_defaults() {
    let req = Prior { from: "bob".into(), to: vec!["alice".into()] };
    assert_eq!(default_audience("done", vec![], true, &Some(req), &None, "alice"), vec!["bob".to_string()]);
    let mine = Prior { from: "alice".into(), to: vec!["alice".into(), "all".into(), "carol".into()] };
    assert_eq!(default_audience("note", vec![], true, &None, &Some(mine), "alice"), vec!["carol".to_string()]);
    let peer = Prior { from: "dave".into(), to: vec![] };
    assert_eq!(default_audience("note", vec![], true, &None, &Some(peer), "alice"), vec!["dave".to_string()]);
    assert_eq!(default_audience("note", vec!["x".into()], true, &None, &None, "alice"), vec!["x".to_string()]);
    assert_eq!(default_summary("done", &Some("duplicate".into())), "duplicate");
    assert_eq!(default_summary("blocked", &None), "blocked/waiting");
    assert_eq!(default_summary("note", &None), "note");
}
