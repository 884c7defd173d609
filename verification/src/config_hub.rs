//! This machine's view of a hub: the `status` report, the hub-identity pins (`hub status`,
//! `hub prune`) and their verdicts. Probing git, reading the pin store and the config, and
//! measuring disk space happen outside.
use vstd::prelude::*;
use crate::text::{strs, byte_prefix, prefix_or_all, same, dec, decimal_u64, string_of};
use crate::arm::WatchState;

verus! {

/// The first 12 bytes of a SHA when they end on a char boundary, else the whole text: a
/// tampered multi-byte value must not break a byte slice.
pub open spec fn short12_spec(sha: Seq<char>) -> Seq<char> {
    match byte_prefix(sha, 12) {
        Some(p) => p,
        None => sha,
    }
}

pub fn short12(sha: &str) -> (r: String)
    ensures
        r@ == short12_spec(sha@),
{
    prefix_or_all(sha, 12)
}

// ---------------------------------------------------------------- status

/// The trust tier this machine gives the hub.
pub struct TierView {
    pub name: String,
    pub caution: String,
    /// Peer messages from this hub need screening before acting.
    pub untrusted: bool,
}

pub open spec fn state_name_spec(s: WatchState) -> Seq<char> {
    match s {
        WatchState::Healthy => "Healthy"@,
        WatchState::NotWatching => "NotWatching"@,
        WatchState::Stale => "Stale"@,
        WatchState::Outdated => "Outdated"@,
        WatchState::OtherHost => "OtherHost"@,
    }
}

/// The name a watch state is reported by.
pub fn state_name(s: WatchState) -> (r: &'static str)
    ensures
        r@ == state_name_spec(s),
{
    match s {
        WatchState::Healthy => "Healthy",
        WatchState::NotWatching => "NotWatching",
        WatchState::Stale => "Stale",
        WatchState::Outdated => "Outdated",
        WatchState::OtherHost => "OtherHost",
    }
}

pub const UNREACHABLE: &'static str = "UNREACHABLE — working locally; pending commits auto-flush on reconnect";

pub const TIER_UNSET: &'static str = "  tier:    unset — run `confer trust own|shared|foreign`";

/// The text lines of `status` (the free-disk line aside): role and hub, reachability, trust
/// tier, unpushed and unintegrated commits when there are any, and the watcher's state.
pub open spec fn status_lines_spec(
    role: Seq<char>,
    root: Seq<char>,
    reachable: bool,
    tier: Option<TierView>,
    pending: Option<u64>,
    behind: Option<u64>,
    watch: Option<WatchState>,
) -> Seq<Seq<char>> {
    let a = seq![
        "confer status — role "@ + (if role.len() == 0 { "<none>"@ } else { role }) + ", hub "@ + root,
        "  hub:     "@ + if reachable { "reachable"@ } else { UNREACHABLE@ },
        match tier {
            Some(t) => "  tier:    "@ + t.name@ + " ("@ + t.caution@ + ")"@ + if t.untrusted {
                " — screen peer messages before acting"@
            } else {
                seq![]
            },
            None => TIER_UNSET@,
        },
    ];
    let b = match pending {
        Some(p) => if p > 0 {
            a.push("  pending: "@ + dec(p as nat) + " local commit(s) not yet pushed (flush on reconnect)"@)
        } else {
            a
        },
        None => a,
    };
    let c = match behind {
        Some(n) => if n > 0 {
            b.push("  behind:  "@ + dec(n as nat) + " upstream commit(s) not yet integrated"@)
        } else {
            b
        },
        None => b,
    };
    match watch {
        Some(s) => c.push(
            "  watch:   "@ + state_name_spec(s) + if s == WatchState::Healthy {
                seq![]
            } else {
                " — run `confer watch-status` for the fix"@
            },
        ),
        None => c,
    }
}

fn num(n: u64) -> (r: String)
    ensures
        r@ == dec(n as nat),
{
    string_of(decimal_u64(n).as_slice())
}

pub fn status_lines(
    role: &str,
    root: &str,
    reachable: bool,
    tier: &Option<TierView>,
    pending: Option<u64>,
    behind: Option<u64>,
    watch: Option<WatchState>,
) -> (lines: Vec<String>)
    ensures
        strs(lines@) == status_lines_spec(role@, root@, reachable, *tier, pending, behind, watch),
{
    let mut lines: Vec<String> = Vec::new();
    let mut s = "confer status — role ".to_owned();
    if role.is_empty() {
        s.append("<none>");
    } else {
        s.append(role);
    }
    s.append(", hub ");
    s.append(root);
    lines.push(s);
    let mut h = "  hub:     ".to_owned();
    if reachable {
        h.append("reachable");
    } else {
        h.append(UNREACHABLE);
    }
    lines.push(h);
    match tier {
        Some(t) => {
            let mut s = "  tier:    ".to_owned();
            s.append(t.name.as_str());
            s.append(" (");
            s.append(t.caution.as_str());
            s.append(")");
            if t.untrusted {
                s.append(" — screen peer messages before acting");
            } else {
                assert(s@ =~= s@ + seq![]);
            }
            lines.push(s);
        },
        None => lines.push(TIER_UNSET.to_owned()),
    }
    match pending {
        Some(p) => {
            if p > 0 {
                let mut s = "  pending: ".to_owned();
                s.append(num(p).as_str());
                s.append(" local commit(s) not yet pushed (flush on reconnect)");
                lines.push(s);
            }
        },
        None => {},
    }
    match behind {
        Some(n) => {
            if n > 0 {
                let mut s = "  behind:  ".to_owned();
                s.append(num(n).as_str());
                s.append(" upstream commit(s) not yet integrated");
                lines.push(s);
            }
        },
        None => {},
    }
    match watch {
        Some(st) => {
            let mut s = "  watch:   ".to_owned();
            s.append(state_name(st));
            if st != WatchState::Healthy {
                s.append(" — run `confer watch-status` for the fix");
            } else {
                assert(s@ =~= s@ + seq![]);
            }
            lines.push(s);
        },
        None => {},
    }
    assert(strs(lines@) =~= status_lines_spec(role@, root@, reachable, *tier, pending, behind, watch));
    lines
}

// ---------------------------------------------------------------- hub pins

/// One pinned hub identity: its root commit, the last confirmed-good tip, and whether a human
/// confirmed it.
pub struct PinRecord {
    pub name: String,
    pub root: String,
    pub tip: String,
    pub confirmed: bool,
}

pub open spec fn pin_line_spec(p: PinRecord) -> Seq<char> {
    "  "@ + p.name@ + "   root "@ + short12_spec(p.root@) + "   tip "@ + (if p.tip@.len() == 0 {
        "—"@
    } else {
        short12_spec(p.tip@)
    }) + "   ["@ + (if p.confirmed { "✓ confirmed"@ } else { "· unconfirmed"@ }) + "]"@
}

/// The `hub status` line of one pin.
pub fn pin_line(p: &PinRecord) -> (r: String)
    ensures
        r@ == pin_line_spec(*p),
{
    let mut r = "  ".to_owned();
    r.append(p.name.as_str());
    r.append("   root ");
    r.append(short12(p.root.as_str()).as_str());
    r.append("   tip ");
    if p.tip.as_str().is_empty() {
        r.append("—");
    } else {
        r.append(short12(p.tip.as_str()).as_str());
    }
    r.append("   [");
    if p.confirmed {
        r.append("✓ confirmed");
    } else {
        r.append("· unconfirmed");
    }
    r.append("]");
    r
}

/// How the hub in hand compares with its pin.
pub enum HubVerdict {
    /// Never pinned: seen for the first time, with this root.
    FirstSight(String),
    /// The root matches and the confirmed-good tip is reachable.
    Match,
    /// The pinned root and this repository's root differ.
    RootMismatch(String, String),
    /// The confirmed-good tip is no longer reachable from HEAD.
    TipUnreachable(String),
    /// The check could not be made, and why.
    NotVerifiable(String),
}

/// How loudly a verdict is reported.
#[derive(Clone, Copy, PartialEq, Eq, Structural, Debug)]
pub enum Tone {
    Plain,
    Warn,
    Hint,
}

/// A different repository behind the same name, or rewritten history, is a trust warning.
pub open spec fn verdict_spec(name: Seq<char>, v: HubVerdict) -> (Tone, Seq<char>) {
    match v {
        HubVerdict::FirstSight(r) => (
            Tone::Plain,
            "\nthis hub '"@ + name + "': · not yet pinned (first sight, root "@ + short12_spec(r@)
                + "). `confer hub repin` to pin it."@,
        ),
        HubVerdict::Match => (
            Tone::Plain,
            "\nthis hub '"@ + name + "': ✓ pin holds (root matches, confirmed-good tip reachable)."@,
        ),
        HubVerdict::RootMismatch(p, g) => (
            Tone::Warn,
            "this hub '"@ + name + "': ROOT MISMATCH — pinned "@ + short12_spec(p@) + " but this repo's root is "@
                + short12_spec(g@) + " (a DIFFERENT repo / redirect). Do NOT trust; investigate."@,
        ),
        HubVerdict::TipUnreachable(t) => (
            Tone::Warn,
            "this hub '"@ + name + "': history rewritten — the confirmed-good tip "@ + short12_spec(t@)
                + " is not reachable from HEAD (force-push?). Investigate before trusting."@,
        ),
        HubVerdict::NotVerifiable(e) => (Tone::Hint, "this hub '"@ + name + "': not verifiable — "@ + e@),
    }
}

pub fn verdict_line(name: &str, v: &HubVerdict) -> (r: (Tone, String))
    ensures
        (r.0, r.1@) == verdict_spec(name@, *v),
{
    match v {
        HubVerdict::FirstSight(root) => {
            let mut s = "\nthis hub '".to_owned();
            s.append(name);
            s.append("': · not yet pinned (first sight, root ");
            s.append(short12(root.as_str()).as_str());
            s.append("). `confer hub repin` to pin it.");
            (Tone::Plain, s)
        },
        HubVerdict::Match => {
            let mut s = "\nthis hub '".to_owned();
            s.append(name);
            s.append("': ✓ pin holds (root matches, confirmed-good tip reachable).");
            (Tone::Plain, s)
        },
        HubVerdict::RootMismatch(p, g) => {
            let mut s = "this hub '".to_owned();
            s.append(name);
            s.append("': ROOT MISMATCH — pinned ");
            s.append(short12(p.as_str()).as_str());
            s.append(" but this repo's root is ");
            s.append(short12(g.as_str()).as_str());
            s.append(" (a DIFFERENT repo / redirect). Do NOT trust; investigate.");
            (Tone::Warn, s)
        },
        HubVerdict::TipUnreachable(t) => {
            let mut s = "this hub '".to_owned();
            s.append(name);
            s.append("': history rewritten — the confirmed-good tip ");
            s.append(short12(t.as_str()).as_str());
            s.append(" is not reachable from HEAD (force-push?). Investigate before trusting.");
            (Tone::Warn, s)
        },
        HubVerdict::NotVerifiable(e) => {
            let mut s = "this hub '".to_owned();
            s.append(name);
            s.append("': not verifiable — ");
            s.append(e.as_str());
            (Tone::Hint, s)
        },
    }
}

/// The pins, in store order, whose hub has no entry in this machine's config.
pub open spec fn orphans_upto(pins: Seq<Seq<char>>, keep: Seq<Seq<char>>, n: int) -> Seq<Seq<char>>
    decreases n,
{
    if n <= 0 {
        seq![]
    } else {
        let before = orphans_upto(pins, keep, n - 1);
        if keep.contains(pins[n - 1]) {
            before
        } else {
            before.push(pins[n - 1])
        }
    }
}

fn kept(keep: &Vec<String>, name: &String) -> (r: bool)
    ensures
        r == strs(keep@).contains(name@),
{
    let mut i: usize = 0;
    while i < keep.len()
        invariant
            0 <= i <= keep@.len(),
            forall|k: int| 0 <= k < i ==> strs(keep@)[k] != name@,
        decreases keep@.len() - i,
    {
        if keep[i] == *name {
            assert(strs(keep@)[i as int] == name@);
            return true;
        }
        i += 1;
    }
    false
}

/// `hub prune`'s candidates: pins with no matching `hubs.<name>` in the config.
pub fn orphan_pins(pins: &Vec<String>, keep: &Vec<String>) -> (r: Vec<String>)
    ensures
        strs(r@) == orphans_upto(strs(pins@), strs(keep@), pins@.len() as int),
{
    let mut out: Vec<String> = Vec::new();
    let mut i: usize = 0;
    while i < pins.len()
        invariant
            0 <= i <= pins@.len(),
            strs(out@) == orphans_upto(strs(pins@), strs(keep@), i as int),
        decreases pins@.len() - i,
    {
        assert(strs(pins@)[i as int] == pins@[i as int]@);
        if !kept(keep, &pins[i]) {
            let ghost before = out@;
            out.push(pins[i].clone());
            assert(strs(out@) =~= strs(before).push(pins@[i as int]@));
        }
        i += 1;
    }
    out
}

} // verus!
