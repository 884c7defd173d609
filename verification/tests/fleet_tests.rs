use confer::fleet::{
    bump, fleet_order, fleet_report, header, row_text, update_hint, version_lines, Bump, FleetRow,
    NO_BUILDS, NO_PRESENCE,
};
use confer::identity::Live;

fn row(role: &str, live: Live, build: Option<&str>, grade: &str, compat: Option<bool>) -> FleetRow {
    FleetRow {
        role: role.into(),
        host: "box".into(),
        live,
        build: build.map(String::from),
        grade: grade.into(),
        compat,
        age_secs: Some(125),
    }
}

#[test]
fn update_hints_per_grade() {
    assert_eq!(update_hint("major"), "⚠ MAJOR update — reconnect to adopt promptly");
    assert_eq!(update_hint("patch"), "update available (patch) — reconnect when convenient");
    assert_eq!(update_hint("drift"), "build drift — reconnect to adopt");
    assert_eq!(update_hint("current"), "");
}

#[test]
fn order_is_live_first_then_role_and_stable() {
    let rows = vec![
        row("zed", Live::Down, None, "unknown", None),
        row("bob", Live::Up, None, "unknown", None),
        row("amy", Live::Stale, None, "unknown", None),
        row("amy", Live::Up, None, "unknown", None),
        row("bob", Live::Up, None, "current", None),
    ];
    assert_eq!(fleet_order(&rows), vec![3, 1, 4, 2, 0]);
}

#[test]
fn row_line_pads_and_flags() {
    let r = row("backend", Live::Up, Some("0.4.1 abc"), "minor", Some(false));
    assert_eq!(
        row_text(&r),
        "  ● up      2m ago  backend          box          0.4.1 abc  [minor behind]  ✗ BELOW FLOOR"
    );
    let mut u = row("x", Live::Stale, None, "rebuild", None);
    u.age_secs = None;
    u.host = "a-very-long-hostname".into();
    assert_eq!(row_text(&u), "  ○ stale        ?  x                a-very-long-hostname unknown");
}

#[test]
fn report_summarizes_builds_floor_and_bump() {
    assert_eq!(header(&None, &None), "fleet version audit — hub pins (none)");
    assert_eq!(header(&Some("0.4.1 abc".into()), &Some(">=0.4.0".into())), "fleet version audit — hub pins 0.4.1 abc · requires >=0.4.0");
    let empty = fleet_report(&vec![], &vec![], &None, &None, &None, &None, "sha", "me");
    assert_eq!(empty[1], NO_PRESENCE);

    let rows = vec![
        row("b", Live::Up, Some("0.4.1"), "current", Some(true)),
        row("a", Live::Up, Some("0.4.0"), "patch", Some(true)),
        row("c", Live::Up, None, "unknown", None),
        row("d", Live::Down, Some("0.3.0"), "minor", Some(false)),
    ];
    let idx = fleet_order(&rows);
    let lines = fleet_report(
        &rows,
        &idx,
        &Some("0.4.1".into()),
        &Some(">=0.4.0".into()),
        &Some(("0.4.0".into(), false)),
        &Some("old".into()),
        "new",
        "me",
    );
    assert_eq!(lines.len(), 1 + 4 + 6);
    assert!(lines[1].contains(" a "));
    assert_eq!(lines[5], "\n4 agent(s), 3 live.");
    assert_eq!(lines[6], "⚠ reporting agents are split across 2 builds: 0.4.0, 0.4.1");
    assert!(lines[7].starts_with("  (1 live agent(s) not yet reporting a build"));
    assert_eq!(lines[8], "✓ all live agents satisfy the floor >=0.4.0.");
    assert_eq!(lines[9], "↑ every live agent is ≥ 0.4.0 — raise the floor with `confer require --bump` (sets >=0.4.0).");
    assert!(lines[10].starts_with("\n⟳ your watch here is running old but new is installed"));

    let one = vec![row("a", Live::Up, Some("0.4.1"), "current", Some(false))];
    let lines = fleet_report(&one, &fleet_order(&one), &None, &Some(">=0.5".into()), &Some(("0.4.1".into(), false)), &None, "x", "me");
    assert_eq!(lines[3], "✓ all 1 reporting agent(s) are on the same build (0.4.1) — up to date.");
    assert_eq!(lines[4], "⚠ below the floor >=0.5: a");
    assert_eq!(lines.len(), 5);

    let quiet = vec![row("a", Live::Up, None, "unknown", None)];
    let lines = fleet_report(&quiet, &fleet_order(&quiet), &None, &None, &None, &None, "x", "me");
    assert_eq!(lines[3], NO_BUILDS);
}

#[test]
fn bump_only_advances() {
    assert!(matches!(bump(&None, 0, false), Bump::NoLiveBuild));
    assert!(matches!(bump(&Some("0.4.0".into()), 2, false), Bump::Stragglers(2)));
    assert!(matches!(bump(&Some("0.4.0".into()), 0, true), Bump::AlreadyThere));
    match bump(&Some("0.4.0".into()), 0, false) {
        Bump::Write(w) => assert_eq!(w, ">=0.4.0"),
        _ => panic!("expected a write"),
    }
}

#[test]
fn version_lines_by_grade() {
    assert_eq!(version_lines(&None, "current", &None, "s"), vec!["hub pin: none".to_string()]);
    assert_eq!(version_lines(&Some("0.4.1".into()), "ahead", &None, "s"), vec!["hub pin: 0.4.1 — you're ahead (fine)".to_string()]);
    let behind = version_lines(&Some("0.4.1".into()), "minor", &Some("old".into()), "new");
    assert_eq!(behind[0], "hub pin: 0.4.1 — minor (update available (minor) — reconnect to adopt)");
    assert_eq!(behind[1], "adopt:   confer reconnect --role <you>");
    assert!(behind[2].starts_with("watcher: running an older build (old) than this binary (new)"));
    assert_eq!(version_lines(&None, "x", &Some("".into()), "new").len(), 1);
}

#[test]
fn row_text_strips_escapes_from_the_host() {
    let mut r = row("api", Live::Up, Some("1.0"), "current", None);
    r.host = "b\u{1b}[0mox".into();
    let t = row_text(&r);
    assert!(!t.contains('\u{1b}'));
    assert!(t.contains(" b[0mox "));
}
