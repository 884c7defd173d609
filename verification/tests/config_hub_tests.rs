use confer::arm::WatchState;
use confer::config_hub::{orphan_pins, pin_line, short12, status_lines, verdict_line, HubVerdict, PinRecord, TierView, Tone};

#[test]
fn short12_is_char_boundary_safe() {
    assert_eq!(short12("0123456789abcdef"), "0123456789ab");
    assert_eq!(short12("abc"), "abc");
    assert_eq!(short12("0123456789aé"), "0123456789aé");
    assert_eq!(short12("0123456789é"), "0123456789é");
    assert_eq!(short12("0123456789éx"), "0123456789é");
}

#[test]
fn status_report_lines() {
    let l = status_lines("", "/h", false, &None, Some(0), None, None);
    assert_eq!(l[0], "confer status — role <none>, hub /h");
    assert_eq!(l[1], "  hub:     UNREACHABLE — working locally; pending commits auto-flush on reconnect");
    assert_eq!(l[2], "  tier:    unset — run `confer trust own|shared|foreign`");
    assert_eq!(l.len(), 3);
    let tier = TierView { name: "foreign".into(), caution: "untrusted peers".into(), untrusted: true };
    let l = status_lines("be", "/h", true, &Some(tier), Some(2), Some(5), Some(WatchState::Stale));
    assert_eq!(l[1], "  hub:     reachable");
    assert_eq!(l[2], "  tier:    foreign (untrusted peers) — screen peer messages before acting");
    assert_eq!(l[3], "  pending: 2 local commit(s) not yet pushed (flush on reconnect)");
    assert_eq!(l[4], "  behind:  5 upstream commit(s) not yet integrated");
    assert_eq!(l[5], "  watch:   Stale — run `confer watch-status` for the fix");
    let l = status_lines("be", "/h", true, &None, None, None, Some(WatchState::Healthy));
    assert_eq!(l[3], "  watch:   Healthy");
}

#[test]
fn pin_lines_and_verdicts() {
    let p = PinRecord { name: "o/hub".into(), root: "0123456789abcdef".into(), tip: "".into(), confirmed: false };
    assert_eq!(pin_line(&p), "  o/hub   root 0123456789ab   tip —   [· unconfirmed]");
    let (t, s) = verdict_line("o/hub", &HubVerdict::RootMismatch("aaaaaaaaaaaaaaaa".into(), "bbbbbbbbbbbbbbbb".into()));
    assert_eq!(t, Tone::Warn);
    assert!(s.starts_with("this hub 'o/hub': ROOT MISMATCH — pinned aaaaaaaaaaaa but this repo's root is bbbbbbbbbbbb"));
    let (t, s) = verdict_line("o/hub", &HubVerdict::Match);
    assert_eq!(t, Tone::Plain);
    assert!(s.starts_with("\nthis hub 'o/hub': ✓ pin holds"));
    let (t, _) = verdict_line("o/hub", &HubVerdict::NotVerifiable("no git".into()));
    assert_eq!(t, Tone::Hint);
}

#[test]
fn orphans_are_pins_without_config() {
    let pins = vec!["a".to_string(), "b".to_string(), "c".to_string()];
    let keep = vec!["b".to_string()];
    assert_eq!(orphan_pins(&pins, &keep), vec!["a".to_string(), "c".to_string()]);
    assert!(orphan_pins(&pins, &pins).is_empty());
}
