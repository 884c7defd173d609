use confer::alias::normalize;
use confer::append::{
    contested_claim, delivery, fits_gate, integrity_gate_checked, parse_ref, pin_decision, pin_ref, receipt, Delivery,
    GateVerdict, Hunk, Pin, RevParse, DEFERRED_NOTICE, NOT_SYNCED_TAIL, TOO_LARGE,
};
use confer::envelope::frame_with;
use confer::gitcmd::Committed;
use confer::text::sanitize_term;
use confer::groups::Groups;

#[test]
fn normalize_lowercases_beyond_ascii() {
    assert_eq!(normalize("  Spare--Box! "), "spare box");
    assert_eq!(normalize("JOS\u{c9}"), "jos\u{e9}");
    assert_eq!(normalize("Ärger ÜBER Öl"), "ärger über öl");
}

#[test]
fn a_pushed_send_touches_the_signal() {
    let d = delivery(&Ok(Committed::Synced), "01abc");
    assert_eq!(d, Delivery::Synced);
    assert!(d.touches_signal());
    assert!(!d.removes_file());
}

#[test]
fn a_deferred_send_is_still_sent() {
    let d = delivery(&Ok(Committed::DeferredLocal), "01abc");
    assert_eq!(d, Delivery::Deferred);
    assert!(!d.touches_signal());
    assert!(!d.removes_file());
    assert!(DEFERRED_NOTICE.contains("hub push deferred"));
}

#[test]
fn an_uncommitted_send_fails_and_removes_the_file() {
    let d = delivery(&Err("lock held".to_string()), "01abc");
    assert!(d.removes_file());
    assert!(!d.touches_signal());
    match d {
        Delivery::NotSent(m) => assert_eq!(
            m,
            "did NOT send 01abc — not committed (lock held); the clone may be busy. Retry, e.g. `timeout 60 confer append …`."
        ),
        _ => panic!("expected NotSent"),
    }
}

#[test]
fn receipt_names_the_sizes_and_the_missing_sync() {
    assert_eq!(receipt("01abc", "note", 12, 340, true), "confer: sent 01abc (note type, summary 12 chars, body 340 chars)");
    let r = receipt("01abc", "ask", 0, 5, false);
    assert_eq!(r, format!("confer: sent 01abc (ask type, summary 0 chars, body 5 chars){}", NOT_SYNCED_TAIL));
}

#[test]
fn pin_decision_follows_the_sha_the_clone_and_allow_dirty() {
    let full = "0123456789abcdef0123456789abcdef01234567";
    assert_eq!(pin_decision("r", "p", full, false, false), Ok(Pin::AsTyped));
    assert_eq!(pin_decision("r", "p", "HEAD", true, false), Ok(Pin::Resolve));
    assert_eq!(pin_decision("r", "p", "abc1234", true, true), Ok(Pin::Resolve));
    match pin_decision("web", "src/a.rs", "main", false, true) {
        Ok(Pin::Unresolved(w)) => {
            assert!(w.starts_with("--ref web:src/a.rs@main: no local clone resolvable"));
            assert!(w.ends_with("(`confer repos map web <path>`) for a durable pin."));
        }
        other => panic!("unexpected {:?}", other),
    }
    let e = pin_decision("web", "src/a.rs", "main", false, false).unwrap_err();
    assert!(e.starts_with("cannot pin --ref web:src/a.rs@main: no local clone of 'web' is mapped"));
    assert!(e.ends_with("or use --allow-dirty to store it as unresolved."));
}

#[test]
fn sanitize_term_strips_escapes() {
    assert_eq!(sanitize_term("ev\u{1b}[31mil\u{7}", false), "ev[31mil");
    assert_eq!(sanitize_term("a\nb\tc\rd", false), "abcd");
    assert_eq!(sanitize_term("a\nb\tc\rd", true), "a\nb\tcd");
    assert_eq!(sanitize_term("plain José", false), "plain José");
}

#[test]
fn frame_header_cannot_carry_escapes() {
    let out = frame_with("n1", "body", "Mal\u{1b}]0;x\u{7}lory", "mal", "✓ verified", None, None);
    assert!(out.starts_with("⟦untrusted:n1 · ✓ verified · from Mal]0;xlory [mal]⟧\n"));
    assert!(!out.contains('\u{1b}'));
}

#[test]
fn groups_redefinition_keeps_one_entry_per_name() {
    let mut g = Groups::new();
    g.insert("ops".to_string(), vec!["a".to_string()]);
    g.insert("dev".to_string(), vec!["b".to_string()]);
    g.insert("ops".to_string(), vec!["c".to_string()]);
    assert_eq!(g.entries.len(), 2);
    assert_eq!(g.entries[0].1, vec!["c".to_string()]);
}

#[test]
fn send_result_fails_a_deferred_send_but_names_it() {
    assert_eq!(delivery(&Ok(Committed::Synced), "01abc").send_result("01abc"), Ok(()));
    assert_eq!(
        delivery(&Ok(Committed::DeferredLocal), "01abc").send_result("01abc"),
        Err("message 01abc committed locally but not synced to the hub".to_string())
    );
    let e = delivery(&Err("busy".to_string()), "01abc").send_result("01abc").unwrap_err();
    assert!(e.starts_with("did NOT send 01abc — not committed (busy)"));
}

#[test]
fn a_claim_that_lost_the_race_is_warned() {
    let cs = vec!["alice".to_string(), "bob".to_string()];
    assert_eq!(
        contested_claim(&cs, "bob", "01req"),
        Some("confer: ⚠ contested claim — 'alice' already claimed 01req (owns by fold order). Yield (append a note and stand down) or coordinate to avoid duplicate work.".to_string())
    );
    assert_eq!(contested_claim(&cs, "alice", "01req"), None);
    assert_eq!(contested_claim(&vec!["bob".to_string()], "bob", "01req"), None);
}

#[test]
fn pin_ref_stores_a_full_sha_or_unresolved() {
    let full = "0123456789abcdef0123456789abcdef01234567";
    let mut r = parse_ref(&format!("web:src/a.rs@{full}")).unwrap();
    assert_eq!(pin_ref(&mut r, true, false, &None), Ok(None));
    assert_eq!(r.sha, full);

    let mut r = parse_ref("web:src/a.rs@main").unwrap();
    let rp = RevParse { success: true, stdout: format!("{full}\n"), dir: "/c".into(), shallow: false };
    assert_eq!(pin_ref(&mut r, true, false, &Some(rp)), Ok(None));
    assert_eq!(r.sha, full);

    let mut r = parse_ref("web:src/a.rs@nope").unwrap();
    let rp = RevParse { success: false, stdout: String::new(), dir: "/c".into(), shallow: true };
    assert_eq!(
        pin_ref(&mut r, true, false, &Some(rp)),
        Err("cannot resolve --ref web:src/a.rs@nope in /c (shallow clone — fetch with `--unshallow` or deepen to reach it) (unknown revision)".to_string())
    );
    assert_eq!(r.sha, "nope");

    let mut r = parse_ref("web:src/a.rs@abc1234").unwrap();
    let w = pin_ref(&mut r, false, true, &None).unwrap().unwrap();
    assert!(w.contains("stored as unresolved"));
    assert_eq!(r.sha, "unresolved");
    assert_eq!(r.rev, Some("abc1234".to_string()));

    let mut r = parse_ref("web:src/a.rs@abc1234").unwrap();
    assert!(pin_ref(&mut r, false, false, &None).unwrap_err().starts_with("cannot pin --ref web:src/a.rs@abc1234"));
    assert_eq!(r.sha, "abc1234");
}

#[test]
fn checked_gate_refuses_what_it_cannot_compute() {
    let d = Some("@@ -1,0 +1,2 @@\n".to_string());
    assert!(matches!(integrity_gate_checked(true, false, &d, Some([10, 12]), None), GateVerdict::Remapped { .. }));
    let huge = Some(format!("@@ -1,0 +1,{} @@\n", u64::MAX));
    match integrity_gate_checked(true, false, &huge, Some([10, 12]), None) {
        GateVerdict::Dirty { reason } => assert_eq!(reason, TOO_LARGE),
        _ => panic!("expected Dirty"),
    }
    let ok: Vec<Hunk> = vec![Hunk { old_len: 0, new_start: 1, new_len: 2 }];
    assert!(fits_gate(&ok, Some([10, 12])));
    assert!(!fits_gate(&vec![Hunk { old_len: 0, new_start: 1, new_len: u64::MAX }], None));
}
