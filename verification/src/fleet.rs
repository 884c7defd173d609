//! The fleet version audit: each agent's published build against the hub's pin and version
//! floor, and whether the floor may be raised. Reading heartbeats, grading builds against the
//! pin and testing them against the floor (semver) happen outside.
use vstd::prelude::*;
use crate::text::opt_str;
use crate::text::{strs, join_seq, join_strings, lex_lt, less, chars_of, same, dec, decimal_u64, string_of, pad_left, pad_right, padded_left, padded_right, lemma_lex_lt_total, lemma_lex_lt_transitive};
use crate::identity::{Live, live_glyph, glyph};
use crate::inbox::{age_text, fmt_age};
use crate::sorted::{ascending, keys, kv, kkeys, sorted_insert, insert_first};

verus! {

// ---------------------------------------------------------------- grades

pub open spec fn update_hint_spec(grade: Seq<char>) -> Seq<char> {
    if grade == "major"@ {
        "⚠ MAJOR update — reconnect to adopt promptly"@
    } else if grade == "minor"@ {
        "update available (minor) — reconnect to adopt"@
    } else if grade == "patch"@ {
        "update available (patch) — reconnect when convenient"@
    } else if grade == "rebuild"@ {
        "newer build available (same version) — reconnect to adopt"@
    } else if grade == "drift"@ {
        "build drift — reconnect to adopt"@
    } else {
        ""@
    }
}

fn is(s: &str, lit: &str) -> (r: bool)
    ensures
        r == (s@ == lit@),
{
    same(chars_of(s).as_slice(), chars_of(lit).as_slice())
}

/// The human hint for how far this build is behind the hub pin.
pub fn update_hint(grade: &str) -> (r: &'static str)
    ensures
        r@ == update_hint_spec(grade@),
{
    if is(grade, "major") {
        "⚠ MAJOR update — reconnect to adopt promptly"
    } else if is(grade, "minor") {
        "update available (minor) — reconnect to adopt"
    } else if is(grade, "patch") {
        "update available (patch) — reconnect when convenient"
    } else if is(grade, "rebuild") {
        "newer build available (same version) — reconnect to adopt"
    } else if is(grade, "drift") {
        "build drift — reconnect to adopt"
    } else {
        ""
    }
}

/// Only a genuinely semver-behind build is flagged; a same-version rebuild cannot be graded
/// ahead or behind without ancestry.
pub open spec fn behind_flag(grade: Seq<char>) -> Seq<char> {
    if grade == "patch"@ || grade == "minor"@ || grade == "major"@ {
        "  ["@ + grade + " behind]"@
    } else {
        seq![]
    }
}

// ---------------------------------------------------------------- rows and their order

/// One agent in the audit, from its accepted heartbeat.
pub struct FleetRow {
    pub role: String,
    /// The host it runs on as its presence reports it (`?` when unknown); it is made
    /// terminal-safe when the line is built.
    pub host: String,
    pub live: Live,
    /// The label of the build it published.
    pub build: Option<String>,
    /// How that build grades against the hub pin (`unknown` without a build).
    pub grade: String,
    /// Whether it satisfies the hub's version floor, when both are known.
    pub compat: Option<bool>,
    /// Seconds since its last heartbeat, when that parses.
    pub age_secs: Option<i64>,
}

/// Live rows first, then by role.
pub open spec fn row_before(a: FleetRow, b: FleetRow) -> bool {
    (a.live == Live::Up && b.live != Live::Up) || ((a.live == Live::Up) == (b.live == Live::Up) && lex_lt(a.role@, b.role@))
}

pub open spec fn same_key(a: FleetRow, b: FleetRow) -> bool {
    (a.live == Live::Up) == (b.live == Live::Up) && a.role@ == b.role@
}

/// `idx` lists every row once, in the order a stable sort by (live first, role) leaves them.
pub open spec fn sorted_order(rows: Seq<FleetRow>, idx: Seq<usize>) -> bool {
    &&& idx.len() == rows.len()
    &&& forall|a: int| 0 <= a < idx.len() ==> (#[trigger] idx[a]) < rows.len()
    &&& forall|a: int, b: int| 0 <= a < b < idx.len() ==> idx[a] != idx[b]
    &&& forall|a: int, b: int|
        0 <= a < b < idx.len() ==> row_before(rows[idx[a] as int], rows[idx[b] as int]) || (same_key(
            rows[idx[a] as int],
            rows[idx[b] as int],
        ) && idx[a] < idx[b])
}

fn before(a: &FleetRow, b: &FleetRow) -> (r: bool)
    ensures
        r == row_before(*a, *b),
{
    let au = a.live == Live::Up;
    let bu = b.live == Live::Up;
    if au && !bu {
        return true;
    }
    if au != bu {
        return false;
    }
    less(chars_of(a.role.as_str()).as_slice(), chars_of(b.role.as_str()).as_slice())
}

/// Row `x` at index `i` goes before row `y` at index `j` in the stable order.
pub open spec fn ranks_before(rows: Seq<FleetRow>, i: int, j: int) -> bool {
    row_before(rows[i], rows[j]) || (same_key(rows[i], rows[j]) && i < j)
}

proof fn lemma_ranks_total(rows: Seq<FleetRow>, i: int, j: int)
    requires
        i != j,
    ensures
        ranks_before(rows, i, j) || ranks_before(rows, j, i),
{
    lemma_lex_lt_total(rows[i].role@, rows[j].role@);
}

proof fn lemma_ranks_transitive(rows: Seq<FleetRow>, i: int, j: int, k: int)
    requires
        ranks_before(rows, i, j),
        ranks_before(rows, j, k),
    ensures
        ranks_before(rows, i, k),
{
    lemma_lex_lt_transitive(rows[i].role@, rows[j].role@, rows[k].role@);
}
/// The audit order: live agents first, then by role, ties kept in input order.
pub fn fleet_order(rows: &Vec<FleetRow>) -> (idx: Vec<usize>)
    ensures
        sorted_order(rows@, idx@),
{
    let ghost rs = rows@;
    let mut idx: Vec<usize> = Vec::new();
    let mut i: usize = 0;
    while i < rows.len()
        invariant
            0 <= i <= rows@.len(),
            rs == rows@,
            idx@.len() == i,
            forall|a: int| 0 <= a < idx@.len() ==> (#[trigger] idx@[a]) < i,
            forall|a: int, b: int| 0 <= a < b < idx@.len() ==> idx@[a] != idx@[b],
            forall|a: int, b: int| 0 <= a < b < idx@.len() ==> ranks_before(rs, idx@[a] as int, idx@[b] as int),
        decreases rows@.len() - i,
    {
        let mut p: usize = 0;
        while p < idx.len() && !before(&rows[i], &rows[idx[p]])
            invariant
                0 <= p <= idx@.len(),
                i < rows@.len(),
                rs == rows@,
                forall|a: int| 0 <= a < idx@.len() ==> (#[trigger] idx@[a]) < i,
                forall|a: int| 0 <= a < p ==> !row_before(rs[i as int], #[trigger] rs[idx@[a] as int]),
            decreases idx@.len() - p,
        {
            p += 1;
        }
        let ghost old_idx = idx@;
        proof {
            assert forall|a: int| 0 <= a < p implies ranks_before(rs, #[trigger] old_idx[a] as int, i as int) by {
                lemma_ranks_total(rs, old_idx[a] as int, i as int);
            }
            if p < old_idx.len() {
                assert(ranks_before(rs, i as int, old_idx[p as int] as int));
            }
        }
        idx.insert(p, i);
        proof {
            let nv = idx@;
            assert(nv =~= old_idx.insert(p as int, i));
            assert forall|a: int, b: int| 0 <= a < b < nv.len() implies ranks_before(rs, nv[a] as int, nv[b] as int) by {
                if b < p {
                    assert(nv[a] == old_idx[a] && nv[b] == old_idx[b]);
                } else if b == p {
                    assert(nv[a] == old_idx[a]);
                } else if a == p {
                    assert(nv[b] == old_idx[b - 1]);
                    if b - 1 > p {
                        assert(ranks_before(rs, old_idx[p as int] as int, old_idx[b - 1] as int));
                        lemma_ranks_transitive(rs, i as int, old_idx[p as int] as int, old_idx[b - 1] as int);
                    }
                } else if a < p {
                    assert(nv[a] == old_idx[a] && nv[b] == old_idx[b - 1]);
                } else {
                    assert(nv[a] == old_idx[a - 1] && nv[b] == old_idx[b - 1]);
                }
            }
            assert forall|a: int, b: int| 0 <= a < b < nv.len() implies nv[a] != nv[b] by {
                if a == p {
                    assert(nv[b] == old_idx[b - 1]);
                } else if b == p {
                    assert(nv[a] == old_idx[a]);
                } else if a < p && b < p {
                    assert(nv[a] == old_idx[a] && nv[b] == old_idx[b]);
                } else if a < p {
                    assert(nv[a] == old_idx[a] && nv[b] == old_idx[b - 1]);
                } else {
                    assert(nv[a] == old_idx[a - 1] && nv[b] == old_idx[b - 1]);
                }
            }
            assert forall|a: int| 0 <= a < nv.len() implies (#[trigger] nv[a]) < i + 1 by {
                if a < p {
                    assert(nv[a] == old_idx[a]);
                } else if a > p {
                    assert(nv[a] == old_idx[a - 1]);
                }
            }
        }
        i += 1;
    }
    assert forall|a: int, b: int| 0 <= a < b < idx@.len() implies row_before(rs[idx@[a] as int], rs[idx@[b] as int]) || (
    same_key(rs[idx@[a] as int], rs[idx@[b] as int]) && idx@[a] < idx@[b]) by {
        assert(ranks_before(rs, idx@[a] as int, idx@[b] as int));
    }
    idx
}

// ---------------------------------------------------------------- the report

pub open spec fn live_word(l: Live) -> Seq<char> {
    match l {
        Live::Up => "up"@,
        Live::Stale => "stale"@,
        Live::Down => "down"@,
    }
}

/// One audit line: liveness, heartbeat age, role, host, build and its flags.
pub open spec fn row_line(r: FleetRow) -> Seq<char> {
    let age = match r.age_secs {
        Some(s) => age_text(s as int) + " ago"@,
        None => "?"@,
    };
    let bl = match r.build {
        Some(b) => b@,
        None => "unknown"@,
    };
    "  "@ + live_glyph(r.live) + " "@ + pad_right(live_word(r.live), 5) + " "@ + pad_left(age, 8) + "  "@ + pad_right(
        r.role@,
        16,
    ) + " "@ + pad_right(crate::text::term_safe(r.host@, false), 12) + " "@ + bl + behind_flag(r.grade@) + if r.compat == Some(false) {
        "  ✗ BELOW FLOOR"@
    } else {
        seq![]
    }
}

pub fn row_text(r: &FleetRow) -> (s: String)
    ensures
        s@ == row_line(*r),
{
    let mut s = "  ".to_owned();
    s.append(glyph(r.live));
    s.append(" ");
    let w = match r.live {
        Live::Up => "up",
        Live::Stale => "stale",
        Live::Down => "down",
    };
    let wp = padded_right(w, 5);
    s.append(wp.as_str());
    s.append(" ");
    let age = match r.age_secs {
        Some(x) => {
            let mut a = fmt_age(x);
            a.append(" ago");
            a
        },
        None => "?".to_owned(),
    };
    let ap = padded_left(age.as_str(), 8);
    s.append(ap.as_str());
    s.append("  ");
    let rp = padded_right(r.role.as_str(), 16);
    s.append(rp.as_str());
    s.append(" ");
    let safe_host = crate::text::sanitize_term(r.host.as_str(), false);
    let hp = padded_right(safe_host.as_str(), 12);
    s.append(hp.as_str());
    s.append(" ");
    match &r.build {
        Some(b) => s.append(b.as_str()),
        None => s.append("unknown"),
    }
    let g = r.grade.as_str();
    if is(g, "patch") || is(g, "minor") || is(g, "major") {
        let mut f = "  [".to_owned();
        f.append(g);
        f.append(" behind]");
        s.append(f.as_str());
    } else {
        assert(s@ =~= s@ + seq![]);
    }
    if r.compat == Some(false) {
        s.append("  ✗ BELOW FLOOR");
    } else {
        assert(s@ =~= s@ + seq![]);
    }
    s
}

/// The audit's first line.
pub open spec fn header_spec(pin: Option<Seq<char>>, require: Option<Seq<char>>) -> Seq<char> {
    "fleet version audit — hub pins "@ + (match pin {
        Some(p) => p,
        None => "(none)"@,
    }) + match require {
        Some(r) => " · requires "@ + r,
        None => seq![],
    }
}

pub fn header(pin: &Option<String>, require: &Option<String>) -> (s: String)
    ensures
        s@ == header_spec(opt_str(*pin), opt_str(*require)),
{
    let mut s = "fleet version audit — hub pins ".to_owned();
    match pin {
        Some(p) => s.append(p.as_str()),
        None => s.append("(none)"),
    }
    match require {
        Some(r) => {
            let mut t = " · requires ".to_owned();
            t.append(r.as_str());
            s.append(t.as_str());
        },
        None => {
            assert(s@ =~= s@ + seq![]);
        },
    }
    s
}

pub const NO_PRESENCE: &'static str = "  (no agent presence yet — peers publish their build on the watch heartbeat)";

pub const NO_BUILDS: &'static str = "no live agent has published a build yet (peers report on the watch heartbeat, once on a build-aware binary).";

/// What the first `n` rows (in audit order) add up to: how many are live, how many of those
/// report a build, their distinct builds in order, and the live roles below the floor.
pub struct Tally {
    pub live: nat,
    pub known: nat,
    pub builds: Seq<(Seq<char>, Seq<char>)>,
    pub below: Seq<Seq<char>>,
}

pub open spec fn tally(rs: Seq<FleetRow>, n: int) -> Tally
    decreases n,
{
    if n <= 0 {
        Tally { live: 0, known: 0, builds: seq![], below: seq![] }
    } else {
        let t = tally(rs, n - 1);
        let r = rs[n - 1];
        if r.live != Live::Up {
            t
        } else {
            Tally {
                live: t.live + 1,
                known: t.known + if r.build is Some { 1nat } else { 0nat },
                builds: match r.build {
                    Some(b) => sorted_insert(t.builds, b@, seq![]),
                    None => t.builds,
                },
                below: if r.compat == Some(false) { t.below.push(r.role@) } else { t.below },
            }
        }
    }
}

/// The rows in the order `idx` gives.
pub open spec fn in_order(rows: Seq<FleetRow>, idx: Seq<usize>) -> Seq<FleetRow> {
    idx.map_values(|k: usize| rows[k as int])
}

/// The summary under the rows. `suggest` is the lowest live build, with whether the floor
/// already equals `>=` it; the raise is suggested only when no live agent is below the floor
/// (else raising to the lowest build would lower it). `running` is the build of this
/// machine's watcher for `me`, when one runs.
pub open spec fn summary_spec(
    total: nat,
    t: Tally,
    require: Option<Seq<char>>,
    suggest: Option<(Seq<char>, bool)>,
    running: Option<Seq<char>>,
    built: Seq<char>,
    me: Seq<char>,
) -> Seq<Seq<char>> {
    let labels = kkeys(t.builds);
    let s1 = seq!["\n"@ + dec(total) + " agent(s), "@ + dec(t.live) + " live."@];
    let s2 = s1.push(
        if labels.len() == 0 {
            NO_BUILDS@
        } else if labels.len() == 1 {
            "✓ all "@ + dec(t.known) + " reporting agent(s) are on the same build ("@ + labels[0] + ") — up to date."@
        } else {
            "⚠ reporting agents are split across "@ + dec(labels.len()) + " builds: "@ + join_seq(labels, ", "@)
        },
    );
    let unknown = (t.live - t.known) as nat;
    let s3 = if unknown > 0 {
        s2.push(
            "  ("@ + dec(unknown)
                + " live agent(s) not yet reporting a build — they'll appear once re-armed on a build-aware binary)"@,
        )
    } else {
        s2
    };
    let s4 = match require {
        Some(r) => s3.push(
            if t.below.len() == 0 {
                "✓ all live agents satisfy the floor "@ + r + "."@
            } else {
                "⚠ below the floor "@ + r + ": "@ + join_seq(t.below, ", "@)
            },
        ),
        None => s3,
    };
    let s5 = match suggest {
        Some((min, already)) => if t.below.len() == 0 && !already {
            s4.push(
                "↑ every live agent is ≥ "@ + min + " — raise the floor with `confer require --bump` (sets >="@ + min
                    + ")."@,
            )
        } else {
            s4
        },
        None => s4,
    };
    match running {
        Some(w) => if w != built {
            s5.push(
                "\n⟳ your watch here is running "@ + w + " but "@ + built
                    + " is installed — restart to adopt: `confer watch --role "@ + me + " --replace`"@,
            )
        } else {
            s5
        },
        None => s5,
    }
}

proof fn lemma_tally_bounds(rs: Seq<FleetRow>, n: int)
    requires
        0 <= n,
    ensures
        tally(rs, n).known <= tally(rs, n).live <= n,
    decreases n,
{
    if n > 0 {
        lemma_tally_bounds(rs, n - 1);
    }
}

fn num(n: usize) -> (r: String)
    ensures
        r@ == dec(n as nat),
{
    let d = decimal_u64(n as u64);
    string_of(d.as_slice())
}

/// The whole text of the audit for `rows` shown in the order `idx` (from `fleet_order`).
pub fn fleet_report(
    rows: &Vec<FleetRow>,
    idx: &Vec<usize>,
    pin: &Option<String>,
    require: &Option<String>,
    suggest: &Option<(String, bool)>,
    running: &Option<String>,
    built: &str,
    me: &str,
) -> (lines: Vec<String>)
    requires
        idx@.len() == rows@.len(),
        forall|a: int| 0 <= a < idx@.len() ==> (#[trigger] idx@[a]) < rows@.len(),
    ensures
        strs(lines@) == ({
            let ordered = in_order(rows@, idx@);
            let head = seq![header_spec(opt_str(*pin), opt_str(*require))];
            if rows@.len() == 0 {
                head.push(NO_PRESENCE@)
            } else {
                head + ordered.map_values(|r: FleetRow| row_line(r)) + summary_spec(
                    rows@.len() as nat,
                    tally(ordered, ordered.len() as int),
                    opt_str(*require),
                    match suggest {
                        Some(p) => Some((p.0@, p.1)),
                        None => None,
                    },
                    opt_str(*running),
                    built@,
                    me@,
                )
            }
        }),
{
    let ghost ordered = in_order(rows@, idx@);
    let mut lines: Vec<String> = Vec::new();
    lines.push(header(pin, require));
    if rows.len() == 0 {
        lines.push(NO_PRESENCE.to_owned());
        return lines;
    }
    let ghost head = strs(lines@);
    let mut live: usize = 0;
    let mut known: usize = 0;
    let mut builds: Vec<(String, String)> = Vec::new();
    let mut below: Vec<String> = Vec::new();
    let mut k: usize = 0;
    while k < idx.len()
        invariant
            0 <= k <= idx@.len(),
            idx@.len() == rows@.len(),
            forall|a: int| 0 <= a < idx@.len() ==> (#[trigger] idx@[a]) < rows@.len(),
            ordered == in_order(rows@, idx@),
            strs(lines@) == head + ordered.take(k as int).map_values(|r: FleetRow| row_line(r)),
            live as nat == tally(ordered, k as int).live,
            known as nat == tally(ordered, k as int).known,
            ascending(keys(builds@)),
            kv(builds@) == tally(ordered, k as int).builds,
            strs(below@) == tally(ordered, k as int).below,
        decreases idx@.len() - k,
    {
        proof {
            lemma_tally_bounds(ordered, k as int);
        }
        let r = &rows[idx[k]];
        assert(ordered[k as int] == *r);
        let ghost before = lines@;
        lines.push(row_text(r));
        assert(ordered.take(k + 1).map_values(|r: FleetRow| row_line(r)) =~= ordered.take(k as int).map_values(
            |r: FleetRow| row_line(r),
        ).push(row_line(*r)));
        assert(strs(lines@) =~= strs(before).push(row_line(*r)));
        if r.live == Live::Up {
            live += 1;
            match &r.build {
                Some(b) => {
                    known += 1;
                    insert_first(&mut builds, b.clone(), String::new());
                },
                None => {},
            }
            if r.compat == Some(false) {
                let ghost bb = below@;
                below.push(r.role.clone());
                assert(strs(below@) =~= strs(bb).push(r.role@));
            }
        }
        k += 1;
    }
    assert(ordered.take(idx@.len() as int) =~= ordered);
    let ghost t = tally(ordered, ordered.len() as int);
    proof {
        lemma_tally_bounds(ordered, ordered.len() as int);
    }
    let mut labels: Vec<String> = Vec::new();
    let mut j: usize = 0;
    while j < builds.len()
        invariant
            0 <= j <= builds@.len(),
            labels@.len() == j,
            strs(labels@) == keys(builds@).take(j as int),
        decreases builds@.len() - j,
    {
        let ghost bl = labels@;
        labels.push(builds[j].0.clone());
        assert(keys(builds@)[j as int] == builds@[j as int].0@);
        assert(strs(labels@) =~= keys(builds@).take(j + 1));
        j += 1;
    }
    assert(keys(builds@).take(builds@.len() as int) =~= keys(builds@));
    assert(keys(builds@) =~= kkeys(kv(builds@)));
    let mut s = "\n".to_owned();
    s.append(num(rows.len()).as_str());
    s.append(" agent(s), ");
    s.append(num(live).as_str());
    s.append(" live.");
    lines.push(s);
    if labels.len() == 0 {
        lines.push(NO_BUILDS.to_owned());
    } else if labels.len() == 1 {
        let mut s = "✓ all ".to_owned();
        s.append(num(known).as_str());
        s.append(" reporting agent(s) are on the same build (");
        s.append(labels[0].as_str());
        s.append(") — up to date.");
        lines.push(s);
    } else {
        let mut s = "⚠ reporting agents are split across ".to_owned();
        s.append(num(labels.len()).as_str());
        s.append(" builds: ");
        s.append(join_strings(&labels, ", ").as_str());
        lines.push(s);
    }
    let unknown = live - known;
    if unknown > 0 {
        let mut s = "  (".to_owned();
        s.append(num(unknown).as_str());
        s.append(" live agent(s) not yet reporting a build — they'll appear once re-armed on a build-aware binary)");
        lines.push(s);
    }
    match require {
        Some(r) => {
            if below.len() == 0 {
                let mut s = "✓ all live agents satisfy the floor ".to_owned();
                s.append(r.as_str());
                s.append(".");
                lines.push(s);
            } else {
                let mut s = "⚠ below the floor ".to_owned();
                s.append(r.as_str());
                s.append(": ");
                s.append(join_strings(&below, ", ").as_str());
                lines.push(s);
            }
        },
        None => {},
    }
    match suggest {
        Some(p) => {
            if below.len() == 0 && !p.1 {
                let mut s = "↑ every live agent is ≥ ".to_owned();
                s.append(p.0.as_str());
                s.append(" — raise the floor with `confer require --bump` (sets >=");
                s.append(p.0.as_str());
                s.append(").");
                lines.push(s);
            }
        },
        None => {},
    }
    match running {
        Some(w) => {
            if !same(chars_of(w.as_str()).as_slice(), chars_of(built).as_slice()) {
                let mut s = "\n⟳ your watch here is running ".to_owned();
                s.append(w.as_str());
                s.append(" but ");
                s.append(built);
                s.append(" is installed — restart to adopt: `confer watch --role ");
                s.append(me);
                s.append(" --replace`");
                lines.push(s);
            }
        },
        None => {},
    }
    assert(strs(lines@) =~= head + ordered.map_values(|r: FleetRow| row_line(r)) + summary_spec(
        rows@.len() as nat,
        t,
        opt_str(*require),
        match suggest {
            Some(p) => Some((p.0@, p.1)),
            None => None,
        },
        opt_str(*running),
        built@,
        me@,
    ));
    lines
}

// ---------------------------------------------------------------- raising the floor

/// What `require --bump` does.
pub enum Bump {
    /// No live agent published a semver build: nothing to raise the floor to.
    NoLiveBuild,
    /// Some live agents are below the current floor: raising to the lowest build would lower
    /// it. The count.
    Stragglers(usize),
    /// The floor already is `>=` the lowest live build.
    AlreadyThere,
    /// Write this requirement.
    Write(String),
}

/// `--bump` only ever advances the floor: to `>=` the lowest live signed build, refused while
/// any live agent is below the current floor. `min` is that lowest build, `below` how many
/// live builds miss the current floor, `already` whether the floor equals `>=min`.
pub open spec fn bump_ok(r: Bump, min: Option<Seq<char>>, below: nat, already: bool) -> bool {
    match min {
        None => r is NoLiveBuild,
        Some(m) => if below > 0 {
            r == Bump::Stragglers(below as usize)
        } else if already {
            r is AlreadyThere
        } else {
            r matches Bump::Write(w) && w@ == ">="@ + m
        },
    }
}

pub fn bump(min: &Option<String>, below: usize, already: bool) -> (r: Bump)
    ensures
        bump_ok(r, opt_str(*min), below as nat, already),
{
    match min {
        None => Bump::NoLiveBuild,
        Some(m) => {
            if below > 0 {
                Bump::Stragglers(below)
            } else if already {
                Bump::AlreadyThere
            } else {
                let mut w = ">=".to_owned();
                w.append(m.as_str());
                Bump::Write(w)
            }
        },
    }
}

// ---------------------------------------------------------------- this binary's version

/// What `version` says of this build against the hub pin: none, current, ahead, or behind
/// with the hint and how to adopt; and, when this machine's watcher runs another build, that.
pub open spec fn version_lines_spec(pin: Option<Seq<char>>, grade: Seq<char>, watcher: Option<Seq<char>>, built: Seq<char>) -> Seq<Seq<char>> {
    let a: Seq<Seq<char>> = match pin {
        None => seq!["hub pin: none"@],
        Some(p) => if grade == "current"@ {
            seq!["hub pin: "@ + p + " — current"@]
        } else if grade == "ahead"@ {
            seq!["hub pin: "@ + p + " — you're ahead (fine)"@]
        } else {
            seq![
                "hub pin: "@ + p + " — "@ + grade + " ("@ + update_hint_spec(grade) + ")"@,
                "adopt:   confer reconnect --role <you>"@,
            ]
        },
    };
    match watcher {
        Some(w) => if w != built && w.len() > 0 {
            a.push(
                "watcher: running an older build ("@ + w + ") than this binary ("@ + built
                    + ") — re-arm with `confer watch --replace`"@,
            )
        } else {
            a
        },
        None => a,
    }
}

pub fn version_lines(pin: &Option<String>, grade: &str, watcher: &Option<String>, built: &str) -> (lines: Vec<String>)
    ensures
        strs(lines@) == version_lines_spec(opt_str(*pin), grade@, opt_str(*watcher), built@),
{
    let mut lines: Vec<String> = Vec::new();
    match pin {
        None => lines.push("hub pin: none".to_owned()),
        Some(p) => {
            let mut s = "hub pin: ".to_owned();
            s.append(p.as_str());
            if is(grade, "current") {
                s.append(" — current");
                lines.push(s);
            } else if is(grade, "ahead") {
                s.append(" — you're ahead (fine)");
                lines.push(s);
            } else {
                s.append(" — ");
                s.append(grade);
                s.append(" (");
                s.append(update_hint(grade));
                s.append(")");
                lines.push(s);
                lines.push("adopt:   confer reconnect --role <you>".to_owned());
            }
        },
    }
    match watcher {
        Some(w) => {
            if !same(chars_of(w.as_str()).as_slice(), chars_of(built).as_slice()) && !w.as_str().is_empty() {
                let mut s = "watcher: running an older build (".to_owned();
                s.append(w.as_str());
                s.append(") than this binary (");
                s.append(built);
                s.append(") — re-arm with `confer watch --replace`");
                lines.push(s);
            }
        },
        None => {},
    }
    assert(strs(lines@) =~= version_lines_spec(opt_str(*pin), grade@, opt_str(*watcher), built@));
    lines
}

} // verus!
