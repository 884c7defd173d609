use confer::arm::WatchState;
use confer::autoheal::{Registry, Target};
use confer::heal::{
    heal_nudges, rewatch_plan, roster_block, roster_hubs, session_context, RosterEntry, TargetCheck,
    WatchMode, ARM_NOTE, NO_TARGETS, SAFETY_KERNEL, SKILLS_RESYNCED,
};

fn target(hub: &str, role: &str, session: Option<&str>) -> Target {
    Target { hub: hub.into(), role: role.into(), session: session.map(String::from) }
}

fn check(present: bool, mode: WatchMode, state: WatchState) -> TargetCheck {
    TargetCheck { hub_present: present, hub_name: None, mode, state, watcher_version: None }
}

fn entry(id: &str, display: &str, aliases: &[&str]) -> RosterEntry {
    RosterEntry {
        id: id.into(),
        display: display.into(),
        aliases: aliases.iter().map(|a| a.to_string()).collect(),
    }
}

#[test]
fn nudges_cover_only_my_broken_watchers() {
    let reg = Registry {
        enabled: true,
        targets: vec![
            target("/h/a", "me", Some("s1")),
            target("/h/b", "peer", Some("s2")),
            target("/h/gone", "me", Some("s1")),
            target("/h/c", "me", Some("s1")),
            target("/h/d", "me", Some("s1")),
            target("/h/e", "me", None),
        ],
    };
    let mut outdated = check(true, WatchMode::Reactive, WatchState::Outdated);
    outdated.watcher_version = Some("abc123".into());
    let checks = vec![
        check(true, WatchMode::Reactive, WatchState::NotWatching),
        check(true, WatchMode::Reactive, WatchState::NotWatching),
        check(false, WatchMode::Reactive, WatchState::NotWatching),
        check(true, WatchMode::Off, WatchState::Stale),
        check(true, WatchMode::Reactive, WatchState::Healthy),
        outdated,
    ];
    let (nudges, stale) = heal_nudges(&reg, &checks, &Some("s1".into()), &Some("me".into()), "def456");
    assert_eq!(stale, 1);
    assert_eq!(nudges.len(), 2);
    assert!(nudges[0].starts_with("• role 'me' @ /h/a: not running → re-arm"));
    assert!(nudges[0].ends_with("manual: cd /h/a && confer arm"));
    assert!(nudges[1].starts_with("• role 'me' @ /h/e: outdated (watcher on confer abc123, yours is def456) →"));
}

#[test]
fn roster_block_is_sorted_and_first_entry_wins() {
    let es = vec![
        entry("zed", "Zed", &[]),
        entry("amy", "Amy", &["a", "the boss"]),
        entry("zed", "Other Zed", &["z"]),
    ];
    let b = roster_block(&es);
    assert!(b.starts_with("Fleet roster — resolve any peer"));
    assert!(b.ends_with(":\n• amy = Amy (aka a, the boss)\n• zed = Zed"));
    assert_eq!(roster_block(&vec![]), "");
}

#[test]
fn roster_hubs_sorted_and_deduplicated() {
    let reg = Registry {
        enabled: true,
        targets: vec![target("/h/b", "x", None), target("/h/a", "y", None), target("/h/b", "z", None)],
    };
    assert_eq!(roster_hubs(&reg), vec!["/h/a".to_string(), "/h/b".to_string()]);
}

#[test]
fn session_context_sections() {
    let off = Registry { enabled: false, targets: vec![] };
    assert_eq!(session_context(&off, &vec![], &None, &None, "x", &vec![], true, "startup"), None);

    let reg = Registry { enabled: true, targets: vec![target("/h/a", "me", None), target("/h/gone", "me", None)] };
    let checks = vec![
        check(true, WatchMode::Reactive, WatchState::Stale),
        check(false, WatchMode::Reactive, WatchState::Stale),
    ];
    let ctx = session_context(&reg, &checks, &None, &Some("me".into()), "x", &vec![], false, "compact").unwrap();
    let parts: Vec<&str> = ctx.split("\n\n").collect();
    assert_eq!(parts.len(), 3);
    assert_eq!(parts[0], SAFETY_KERNEL);
    assert!(parts[1].starts_with("After compaction you may have lost track"));
    assert!(parts[1].contains("\n• role 'me' @ /h/a: stale (a compaction orphan) →"));
    assert!(parts[2].starts_with("note: 1 watch-registry target(s) point at a hub dir"));

    let quiet = Registry { enabled: true, targets: vec![] };
    let ctx = session_context(&quiet, &vec![], &None, &None, "x", &vec![entry("a", "A", &[])], true, "startup").unwrap();
    assert_eq!(
        ctx,
        format!("{SAFETY_KERNEL}\n\n{}• a = A\n\n{SKILLS_RESYNCED}", confer::heal::ROSTER_LEAD)
    );
}

#[test]
fn rewatch_plans_by_mode_and_flags_an_ambiguous_healthy_watcher() {
    let reg = Registry {
        enabled: true,
        targets: vec![
            target("/h/a", "me", Some("s1")),
            target("/h/b", "me", Some("old")),
            target("/h/c", "me", Some("s1")),
            target("/h/d", "me", Some("s1")),
            target("/h/e", "peer", Some("s9")),
        ],
    };
    let mut named = check(true, WatchMode::Reactive, WatchState::NotWatching);
    named.hub_name = Some("o/hub".into());
    let checks = vec![
        named,
        check(true, WatchMode::Reactive, WatchState::Healthy),
        check(true, WatchMode::Poll, WatchState::Healthy),
        check(true, WatchMode::Off, WatchState::Healthy),
        check(true, WatchMode::Reactive, WatchState::NotWatching),
    ];
    let lines = rewatch_plan(&reg, &checks, &Some("s1".into()), &Some("me".into()), &None);
    assert_eq!(lines.len(), 5);
    assert_eq!(lines[0], "• o/hub [me]: arm reactive → cd /h/a && confer watch --role me --replace");
    assert!(lines[1].starts_with("• /h/b [me]: ⚠ a HEALTHY watcher already holds this"));
    assert_eq!(lines[2], "• /h/c [me]: poll → loop `confer poll --role me` (watch=poll)");
    assert_eq!(lines[3], "• /h/d [me]: skip (watch=off)");
    assert_eq!(lines[4], ARM_NOTE);

    let only = rewatch_plan(&reg, &checks, &Some("s1".into()), &Some("me".into()), &Some("/h/c".into()));
    assert_eq!(only, vec!["• /h/c [me]: poll → loop `confer poll --role me` (watch=poll)".to_string()]);

    let none = rewatch_plan(&reg, &checks, &None, &None, &None);
    assert_eq!(none, vec![NO_TARGETS.to_string()]);
}

#[test]
fn roster_block_strips_terminal_escapes_from_peer_names() {
    let es = vec![entry("mal", "Ev\u{1b}[2Jil", &["x\u{9b}y", "ok"])];
    let b = roster_block(&es);
    assert!(b.ends_with("• mal = Ev[2Jil (aka xy, ok)"));
    assert!(!b.contains('\u{1b}'));
}
