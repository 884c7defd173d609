use confer::alias::{Role, Roster};
use confer::identity::{
    card_text, describe_plan, display_taken_message, liveness_prefix, rename_plan, skip_message,
    split_card, status_edit, who_line, who_notes, whois_lines, CardTrust, DescribeError,
    DescribeRequest, Heartbeat, Live, RenameError, StatusEdit, WhoRow, WhoisMatch,
};

fn role(display: Option<&str>, desc: Option<&str>, aliases: &[&str]) -> Role {
    Role {
        display: display.map(String::from),
        host: None,
        desc: desc.map(String::from),
        aliases: aliases.iter().map(|a| a.to_string()).collect(),
        status: None,
        pubkey: None,
    }
}

fn roster() -> Roster {
    let mut r = Roster::new();
    r.insert("backend".into(), role(Some("Bea"), Some("api work"), &["bea"]));
    r.insert("frontend".into(), role(Some("Fred"), None, &["freddy"]));
    r
}

fn row() -> WhoRow {
    WhoRow {
        id: "backend".into(),
        display: "Bea".into(),
        desc: None,
        expected_host: None,
        last_ts: None,
        last_host: None,
        heartbeat: None,
        xhub: vec![],
        trust: CardTrust::Unverified,
        status: None,
    }
}

#[test]
fn liveness_prefix_shows_glyph_word_and_hour() {
    assert_eq!(liveness_prefix(&None), "  ");
    let hb = Heartbeat { live: Live::Up, last_seen: "2024-05-01T12:34:56Z".into() };
    assert_eq!(liveness_prefix(&Some(hb)), "● watching (hb 12:34) · ");
    let short = Heartbeat { live: Live::Down, last_seen: "garbled".into() };
    assert_eq!(liveness_prefix(&Some(short)), "✕ down (hb garbled) · ");
    let stale = Heartbeat { live: Live::Stale, last_seen: "2024-05-01T12:3Ä:56Z".into() };
    assert_eq!(liveness_prefix(&Some(stale)), "○ idle (hb 2024-05-01T12:3Ä:56Z) · ");
}

#[test]
fn who_line_composes_every_column() {
    assert_eq!(who_line(&row()), "  · Bea [backend] — no messages");
    let mut r = row();
    r.desc = Some("api work".into());
    r.expected_host = Some("box".into());
    r.last_ts = Some("2024-05-01T10:00:00Z".into());
    r.last_host = Some("laptop".into());
    r.heartbeat = Some(Heartbeat { live: Live::Up, last_seen: "2024-05-01T12:34:56Z".into() });
    r.xhub = vec![("o/other".into(), "be".into()), ("o/third".into(), "api".into())];
    r.trust = CardTrust::Verified;
    r.status = Some("dormant".into());
    assert_eq!(
        who_line(&r),
        "● watching (hb 12:34) · ✓ Bea — api work [backend] (expected on box)  ≡ o/other:be, o/third:api — last posted 2024-05-01T10:00:00Z on laptop  ⟨dormant⟩ ⚠ still heartbeating"
    );
    r.trust = CardTrust::Mismatch;
    r.heartbeat = None;
    r.last_host = None;
    assert!(who_line(&r).ends_with("— last posted 2024-05-01T10:00:00Z  ‼ CARD KEY MISMATCH — this card was re-keyed; do not trust its name/host/desc"));
    r.trust = CardTrust::Verified;
    r.status = Some("active".into());
    assert!(who_line(&r).ends_with("last posted 2024-05-01T10:00:00Z"));
}

#[test]
fn who_notes_explain_marks_and_rejections() {
    let mut a = row();
    a.trust = CardTrust::FirstSight;
    let b = row();
    let notes = who_notes(&vec![a, b], &vec!["x".into(), "y".into()]);
    assert_eq!(notes.len(), 3);
    assert!(notes[0].starts_with("  (⚠ = first-sight key"));
    assert!(notes[1].starts_with("  (· = card not cryptographically verified"));
    assert!(notes[2].starts_with("  ‼ presence REJECTED for: x, y — a forged/replayed heartbeat"));
    let mut v = row();
    v.trust = CardTrust::Verified;
    assert!(who_notes(&vec![v], &vec![]).is_empty());
}

#[test]
fn whois_marks_the_best_match_and_warns_on_untrusted_cards() {
    let none = whois_lines("the boss", &vec![]);
    assert_eq!(
        none,
        vec!["no role matches \"the boss\". Try `confer who`, or teach it: the agent runs `confer describe --add-alias \"the boss\"`.".to_string()]
    );
    let m = |id: &str, t: CardTrust| WhoisMatch { id: id.into(), display: id.to_uppercase(), desc: None, trust: t };
    let ms = vec![
        WhoisMatch { id: "a".into(), display: "A".into(), desc: Some("does a".into()), trust: CardTrust::Verified },
        m("b", CardTrust::Mismatch),
        m("c", CardTrust::FirstSight),
        m("d", CardTrust::Unverified),
        m("e", CardTrust::Verified),
    ];
    let lines = whois_lines("x", &ms);
    assert_eq!(lines.len(), 4);
    assert_eq!(lines[0], "→ A [a] — does a");
    assert!(lines[1].starts_with("  B [b]  ‼ this card was RE-KEYED"));
    assert!(lines[2].starts_with("  C [c]  ⚠ first-sight key"));
    assert_eq!(lines[3], "  D [d]  (· unverified card — name/desc advisory)");
}

#[test]
fn status_edit_treats_no_status_as_active() {
    assert_eq!(status_edit(&None, "active"), StatusEdit::Already);
    assert_eq!(status_edit(&None, "dormant"), StatusEdit::Write);
    assert_eq!(status_edit(&Some("dormant".into()), "dormant"), StatusEdit::Already);
    assert_eq!(status_edit(&Some("dormant".into()), "active"), StatusEdit::Clear);
    assert_eq!(status_edit(&Some("retired".into()), "dormant"), StatusEdit::Write);
}

#[test]
fn card_text_and_split_card_round_trip() {
    assert_eq!(card_text("display: Bea\n", "  \n"), "---\ndisplay: Bea\n---\n");
    assert_eq!(card_text("display: Bea\n", "\nHello\n\n"), "---\ndisplay: Bea\n---\n\nHello\n");
    let c = split_card("---\ndisplay: Bea\n---\n\nHello\n");
    assert!(c.fenced);
    assert_eq!(c.yaml, "display: Bea\n");
    assert_eq!(c.body, "Hello");
    let bom = split_card("\u{FEFF}---  \r\npubkey: k\r\n---\r\n");
    assert!(bom.fenced);
    assert_eq!(bom.yaml, "pubkey: k\n");
    assert_eq!(bom.body, "");
    let plain = split_card("just notes\n");
    assert!(!plain.fenced);
    assert_eq!(plain.body, "just notes\n");
    let unclosed = split_card("---\na: 1\nb: 2");
    assert_eq!(unclosed.yaml, "a: 1\nb: 2\n");
}

#[test]
fn rename_keeps_the_old_name_and_announces_a_change() {
    assert_eq!(rename_plan("   ", &Some("backend".into()), "Bea").err(), Some(RenameError::EmptyName));
    let p = rename_plan("  Beatrix ", &Some("backend".into()), "Bea").unwrap();
    assert_eq!(p.name, "Beatrix");
    assert_eq!(p.add_aliases, vec!["beatrix".to_string(), "bea".to_string()]);
    let (text, summary) = p.broadcast.unwrap();
    assert!(text.starts_with("Peer rename: role backend now displays as 'Beatrix' (previous names still resolve as aliases)."));
    assert_eq!(summary, "renamed: backend now displays as 'Beatrix'");
    let same = rename_plan("bea", &Some("backend".into()), "Bea").unwrap();
    assert_eq!(same.add_aliases, vec!["bea".to_string()]);
    assert!(same.broadcast.is_none());
    let from_id = rename_plan("Bee", &Some("backend".into()), "backend").unwrap();
    assert_eq!(from_id.add_aliases, vec!["bee".to_string()]);
    let unknown = rename_plan("Bee", &None, "").unwrap();
    assert_eq!(unknown.add_aliases, vec!["bee".to_string()]);
    assert!(unknown.broadcast.is_none());
}

fn req() -> DescribeRequest {
    DescribeRequest { desc: None, display: None, add_alias: vec![], remove_alias: vec![], force: false }
}

#[test]
fn describe_refuses_bad_display_names() {
    let r = roster();
    let mut q = req();
    assert!(q.is_query());
    q.display = Some("  ".into());
    assert!(matches!(describe_plan(&r, "backend", &vec![], &q), Err(DescribeError::EmptyDisplay)));
    q.display = Some("B\u{0435}a".into());
    assert!(matches!(describe_plan(&r, "backend", &vec![], &q), Err(DescribeError::HomoglyphDisplay)));
    q.display = Some("Fred".into());
    match describe_plan(&r, "backend", &vec![], &q) {
        Err(DescribeError::DisplayTaken(who, s, why)) => {
            assert_eq!(who, "frontend");
            let msg = display_taken_message(&r, "Fred", &(who, s, why));
            assert!(msg.starts_with("display 'Fred' "));
            assert!(msg.ends_with(" (Fred [frontend]); pick another or pass --force"));
        }
        _ => panic!("expected a collision"),
    }
    q.force = true;
    let e = describe_plan(&r, "backend", &vec![], &q).ok().unwrap();
    assert_eq!(e.display.as_deref(), Some("Fred"));
    assert!(e.changed);
}

#[test]
fn describe_edits_desc_and_aliases() {
    let r = roster();
    let mut q = req();
    q.desc = Some("api work".into());
    let e = describe_plan(&r, "backend", &vec!["bea".into()], &q).ok().unwrap();
    assert_eq!(e.desc, None);
    assert!(!e.changed);

    q.desc = Some("payments".into());
    q.remove_alias = vec![" BEA ".into(), "nope".into()];
    q.add_alias = vec!["Bea Two".into(), "  ".into(), "bea two".into(), "freddy".into()];
    let e = describe_plan(&r, "backend", &vec!["bea".into()], &q).ok().unwrap();
    assert_eq!(e.desc.as_deref(), Some("payments"));
    assert_eq!(e.removed, vec!["BEA".to_string()]);
    assert_eq!(e.added, vec!["Bea Two".to_string()]);
    assert_eq!(e.aliases, vec!["Bea Two".to_string()]);
    assert_eq!(e.skipped.len(), 1);
    assert_eq!(e.skipped[0].0, "freddy");
    let note = skip_message(&r, &e.skipped[0].0, &e.skipped[0].1);
    assert!(note.starts_with("confer describe: skipping alias 'freddy' — it "));
    assert!(note.ends_with("(Fred [frontend]). Use --force to add anyway."));
    assert!(e.changed);
}

#[test]
fn who_and_whois_strip_terminal_escapes() {
    let mut r = row();
    r.display = "B\u{1b}[1mea".into();
    r.desc = Some("d\u{7}esc".into());
    r.last_ts = Some("t".into());
    r.last_host = Some("h\u{1b}ost".into());
    let l = who_line(&r);
    assert!(!l.contains('\u{1b}') && !l.contains('\u{7}'));
    assert!(l.contains(" B[1mea — desc [backend]"));
    assert!(l.contains("last posted t on host"));
    let ms = vec![WhoisMatch { id: "a".into(), display: "A\u{1b}".into(), desc: Some("x\u{1b}y".into()), trust: CardTrust::Verified }];
    assert_eq!(whois_lines("a", &ms)[0], "→ A [a] — xy");
}
