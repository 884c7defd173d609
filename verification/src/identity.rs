//! Roles as peers see them: the `who` and `whois` listings, renaming, lifecycle status, and
//! the role-card edits `describe` and `set-status` make. Loading the roster, verifying cards
//! and heartbeats, making text safe for a terminal, and writing and committing cards happen
//! outside; what is shown and what is written is decided here.
use vstd::prelude::*;
use crate::text::opt_str;
use crate::text::{sanitize_term, term_safe, strs, join_seq, join_strings, byte_range, range_or_all, trim, trimmed, chars_of, string_of, eq_ic, eq_ignore_ascii_case, same};

verus! {

// ---------------------------------------------------------------- liveness and trust marks

/// How recently a role's watcher last beat.
#[derive(Clone, Copy, PartialEq, Eq, Structural, Debug)]
pub enum Live {
    Up,
    Stale,
    Down,
}

pub open spec fn live_glyph(l: Live) -> Seq<char> {
    match l {
        Live::Up => "●"@,
        Live::Stale => "○"@,
        Live::Down => "✕"@,
    }
}

/// The liveness glyph: `●` up, `○` stale, `✕` down.
pub fn glyph(l: Live) -> (r: &'static str)
    ensures
        r@ == live_glyph(l),
{
    match l {
        Live::Up => "●",
        Live::Stale => "○",
        Live::Down => "✕",
    }
}

pub open spec fn live_word(l: Live) -> Seq<char> {
    match l {
        Live::Up => "watching"@,
        Live::Stale => "idle"@,
        Live::Down => "down"@,
    }
}

/// How far a role card can be trusted: signed by the pinned key, signed by a key seen for the
/// first time, not signed, or signed by a key other than the pinned one.
#[derive(Clone, Copy, PartialEq, Eq, Structural, Debug)]
pub enum CardTrust {
    Unverified,
    FirstSight,
    Verified,
    Mismatch,
}

pub open spec fn trust_glyph_spec(t: CardTrust) -> Seq<char> {
    match t {
        CardTrust::Unverified => "·"@,
        CardTrust::FirstSight => "⚠"@,
        CardTrust::Verified => "✓"@,
        CardTrust::Mismatch => "‼"@,
    }
}

/// The card-trust glyph, the same vocabulary as the message feed.
pub fn trust_glyph(t: CardTrust) -> (r: &'static str)
    ensures
        r@ == trust_glyph_spec(t),
{
    match t {
        CardTrust::Unverified => "·",
        CardTrust::FirstSight => "⚠",
        CardTrust::Verified => "✓",
        CardTrust::Mismatch => "‼",
    }
}

/// A role's latest accepted heartbeat.
pub struct Heartbeat {
    pub live: Live,
    /// When it beat, as RFC 3339 text.
    pub last_seen: String,
}

/// The `HH:MM` of a heartbeat time: bytes 11 to 16 when they fall on char boundaries, else
/// the whole text.
pub open spec fn hb_spec(seen: Seq<char>) -> Seq<char> {
    match byte_range(seen, 11, 16) {
        Some(p) => p,
        None => seen,
    }
}

/// The `● watching (hb HH:MM) · ` prefix of a `who` line; two spaces without a heartbeat.
pub open spec fn liveness_prefix_spec(h: Option<Heartbeat>) -> Seq<char> {
    match h {
        None => "  "@,
        Some(b) => live_glyph(b.live) + " "@ + live_word(b.live) + " (hb "@ + hb_spec(b.last_seen@) + ") · "@,
    }
}

pub fn liveness_prefix(h: &Option<Heartbeat>) -> (r: String)
    ensures
        r@ == liveness_prefix_spec(*h),
{
    match h {
        None => "  ".to_owned(),
        Some(b) => {
            let mut r = glyph(b.live).to_owned();
            r.append(" ");
            let w = match b.live {
                Live::Up => "watching",
                Live::Stale => "idle",
                Live::Down => "down",
            };
            r.append(w);
            r.append(" (hb ");
            let hb = range_or_all(b.last_seen.as_str(), 11, 16);
            r.append(hb.as_str());
            r.append(") · ");
            r
        },
    }
}

// ---------------------------------------------------------------- who

/// One row of `who`, its peer-written texts already made safe for a terminal.
pub struct WhoRow {
    pub id: String,
    pub display: String,
    pub desc: Option<String>,
    pub expected_host: Option<String>,
    pub last_ts: Option<String>,
    pub last_host: Option<String>,
    pub heartbeat: Option<Heartbeat>,
    /// The other hubs where the same key appears, as `(hub label, role id)`.
    pub xhub: Vec<(String, String)>,
    pub trust: CardTrust,
    /// The lifecycle status the card declares.
    pub status: Option<String>,
}

pub const MISMATCH_MARK: &'static str = "  ‼ CARD KEY MISMATCH — this card was re-keyed; do not trust its name/host/desc";

/// An optional peer-written field, made terminal-safe, between `pre` and `post`.
pub open spec fn opt_piece(o: Option<String>, pre: Seq<char>, post: Seq<char>) -> Seq<char> {
    match o {
        Some(s) => pre + term_safe(s@, false) + post,
        None => seq![],
    }
}

pub open spec fn xhub_piece(x: Seq<(String, String)>) -> Seq<char> {
    if x.len() == 0 {
        seq![]
    } else {
        "  ≡ "@ + join_seq(x.map_values(|p: (String, String)| p.0@ + ":"@ + p.1@), ", "@)
    }
}

pub open spec fn seen_piece(ts: Option<String>, host: Option<String>) -> Seq<char> {
    match (ts, host) {
        (Some(t), Some(h)) => "last posted "@ + t@ + " on "@ + term_safe(h@, false),
        (Some(t), None) => "last posted "@ + t@,
        _ => "no messages"@,
    }
}

/// A declared status is honoured only on a verified card, and `active` (the default) is not
/// shown.
pub open spec fn shown_status(trust: CardTrust, status: Option<String>) -> Option<Seq<char>> {
    if trust == CardTrust::Verified {
        match status {
            Some(s) => if s@ == "active"@ { None } else { Some(s@) },
            None => None,
        }
    } else {
        None
    }
}

/// A dormant or retired role that still heartbeats is flagged.
pub open spec fn status_piece(shown: Option<Seq<char>>, beating: bool) -> Seq<char> {
    match shown {
        Some(s) => if beating {
            "  ⟨"@ + term_safe(s, false) + "⟩ ⚠ still heartbeating"@
        } else {
            "  ⟨"@ + term_safe(s, false) + "⟩"@
        },
        None => seq![],
    }
}

pub open spec fn beating(h: Option<Heartbeat>) -> bool {
    h matches Some(b) && b.live == Live::Up
}

/// A `who` line: liveness, card trust, name and description, id, expected host, the same key
/// in other hubs, last post, declared status, and a loud mark on a re-keyed card. Every
/// card-written text (name, description, hosts, status) is made terminal-safe.
pub open spec fn who_line_spec(r: WhoRow) -> Seq<char> {
    liveness_prefix_spec(r.heartbeat) + trust_glyph_spec(r.trust) + " "@ + term_safe(r.display@, false) + opt_piece(r.desc, " — "@, seq![])
        + " ["@ + r.id@ + "]"@ + opt_piece(r.expected_host, " (expected on "@, ")"@) + xhub_piece(r.xhub@) + " — "@
        + seen_piece(r.last_ts, r.last_host) + status_piece(shown_status(r.trust, r.status), beating(r.heartbeat))
        + if r.trust == CardTrust::Mismatch { MISMATCH_MARK@ } else { seq![] }
}

fn append_opt(out: &mut String, o: &Option<String>, pre: &str, post: &str)
    ensures
        final(out)@ == old(out)@ + opt_piece(*o, pre@, post@),
{
    match o {
        Some(s) => {
            out.append(pre);
            let safe = sanitize_term(s.as_str(), false);
            out.append(safe.as_str());
            out.append(post);
        },
        None => {},
    }
}

fn xhub_text(x: &Vec<(String, String)>) -> (r: String)
    ensures
        r@ == xhub_piece(x@),
{
    if x.len() == 0 {
        return String::new();
    }
    let mut parts: Vec<String> = Vec::new();
    let mut i: usize = 0;
    while i < x.len()
        invariant
            0 <= i <= x@.len(),
            parts@.len() == i,
            strs(parts@) == x@.map_values(|p: (String, String)| p.0@ + ":"@ + p.1@).take(i as int),
        decreases x@.len() - i,
    {
        let mut p = x[i].0.clone();
        p.append(":");
        p.append(x[i].1.as_str());
        let ghost pv = p@;
        let ghost before = parts@;
        parts.push(p);
        assert(parts@ == before.push(p));
        assert(strs(parts@)[i as int] == pv);
        assert(strs(parts@) =~= x@.map_values(|p: (String, String)| p.0@ + ":"@ + p.1@).take(i + 1));
        i += 1;
    }
    assert(x@.map_values(|p: (String, String)| p.0@ + ":"@ + p.1@).take(x@.len() as int) =~= x@.map_values(
        |p: (String, String)| p.0@ + ":"@ + p.1@,
    ));
    let mut r = "  ≡ ".to_owned();
    let j = join_strings(&parts, ", ");
    r.append(j.as_str());
    r
}

fn is_active(s: &str) -> (r: bool)
    ensures
        r == (s@ == "active"@),
{
    same(chars_of(s).as_slice(), chars_of("active").as_slice())
}

fn status_text(trust: CardTrust, status: &Option<String>, beating: bool) -> (r: String)
    ensures
        r@ == status_piece(shown_status(trust, *status), beating),
{
    if trust != CardTrust::Verified {
        return String::new();
    }
    match status {
        Some(s) => {
            if is_active(s.as_str()) {
                String::new()
            } else {
                let mut r = "  ⟨".to_owned();
                let safe = sanitize_term(s.as_str(), false);
                r.append(safe.as_str());
                if beating {
                    r.append("⟩ ⚠ still heartbeating");
                } else {
                    r.append("⟩");
                }
                r
            }
        },
        None => String::new(),
    }
}

/// The `who` line of one role.
pub fn who_line(r: &WhoRow) -> (s: String)
    ensures
        s@ == who_line_spec(*r),
{
    proof {
        reveal_strlit("");
        assert(""@ =~= Seq::<char>::empty());
    }
    let mut s = liveness_prefix(&r.heartbeat);
    s.append(trust_glyph(r.trust));
    s.append(" ");
    let disp = sanitize_term(r.display.as_str(), false);
    s.append(disp.as_str());
    append_opt(&mut s, &r.desc, " — ", "");
    s.append(" [");
    s.append(r.id.as_str());
    s.append("]");
    append_opt(&mut s, &r.expected_host, " (expected on ", ")");
    let x = xhub_text(&r.xhub);
    s.append(x.as_str());
    s.append(" — ");
    let seen = seen_text(&r.last_ts, &r.last_host);
    s.append(seen.as_str());
    let beats = match &r.heartbeat {
        Some(b) => b.live == Live::Up,
        None => false,
    };
    let st = status_text(r.trust, &r.status, beats);
    s.append(st.as_str());
    append_mismatch(&mut s, r.trust);
    s
}

fn seen_text(ts: &Option<String>, host: &Option<String>) -> (r: String)
    ensures
        r@ == seen_piece(*ts, *host),
{
    match (ts, host) {
        (Some(t), Some(h)) => {
            let mut r = "last posted ".to_owned();
            r.append(t.as_str());
            r.append(" on ");
            let safe = sanitize_term(h.as_str(), false);
            r.append(safe.as_str());
            r
        },
        (Some(t), None) => {
            let mut r = "last posted ".to_owned();
            r.append(t.as_str());
            r
        },
        _ => "no messages".to_owned(),
    }
}

fn append_mismatch(out: &mut String, t: CardTrust)
    ensures
        final(out)@ == old(out)@ + if t == CardTrust::Mismatch { MISMATCH_MARK@ } else { seq![] },
{
    if t == CardTrust::Mismatch {
        out.append(MISMATCH_MARK);
    } else {
        assert(out@ =~= out@ + seq![]);
    }
}

fn append_warn(out: &mut String, t: CardTrust)
    ensures
        final(out)@ == old(out)@ + whois_warn(t),
{
    match t {
        CardTrust::Mismatch => out.append(WHOIS_MISMATCH),
        CardTrust::FirstSight => out.append(WHOIS_FIRST_SIGHT),
        CardTrust::Unverified => out.append(WHOIS_UNVERIFIED),
        CardTrust::Verified => {
            assert(out@ =~= out@ + seq![]);
        },
    }
}

pub const FIRST_SIGHT_NOTE: &'static str = "  (⚠ = first-sight key, signed but NOT yet confirmed out-of-band — check the fingerprint, then `confer confirm-key <role>`)";

pub const UNVERIFIED_NOTE: &'static str = "  (· = card not cryptographically verified — treat its name/desc/host as advisory; ✓ = signed by the pinned key)";

pub const REJECTED_TAIL: &'static str = " — a forged/replayed heartbeat (unsigned-but-pinned, wrong key, or timestamp went backwards). Their liveness is shown as aged-out, not trusted.";

pub open spec fn any_trust(rows: Seq<WhoRow>, t: CardTrust) -> bool {
    exists|i: int| 0 <= i < rows.len() && (#[trigger] rows[i]).trust == t
}

/// The notes under the `who` lines: what `⚠` and `·` mean when a row shows one, and the
/// roles whose heartbeat was rejected.
pub open spec fn who_notes_spec(rows: Seq<WhoRow>, rejected: Seq<Seq<char>>) -> Seq<Seq<char>> {
    let a: Seq<Seq<char>> = if any_trust(rows, CardTrust::FirstSight) { seq![FIRST_SIGHT_NOTE@] } else { seq![] };
    let b = if any_trust(rows, CardTrust::Unverified) { a.push(UNVERIFIED_NOTE@) } else { a };
    if rejected.len() > 0 {
        b.push("  ‼ presence REJECTED for: "@ + join_seq(rejected, ", "@) + REJECTED_TAIL@)
    } else {
        b
    }
}

pub fn who_notes(rows: &Vec<WhoRow>, rejected: &Vec<String>) -> (notes: Vec<String>)
    ensures
        strs(notes@) == who_notes_spec(rows@, strs(rejected@)),
{
    let mut first_sight = false;
    let mut unverified = false;
    let mut i: usize = 0;
    while i < rows.len()
        invariant
            0 <= i <= rows@.len(),
            first_sight == exists|k: int| 0 <= k < i && (#[trigger] rows@[k]).trust == CardTrust::FirstSight,
            unverified == exists|k: int| 0 <= k < i && (#[trigger] rows@[k]).trust == CardTrust::Unverified,
        decreases rows@.len() - i,
    {
        if rows[i].trust == CardTrust::FirstSight {
            first_sight = true;
        }
        if rows[i].trust == CardTrust::Unverified {
            unverified = true;
        }
        i += 1;
    }
    let mut notes: Vec<String> = Vec::new();
    if first_sight {
        notes.push(FIRST_SIGHT_NOTE.to_owned());
    }
    if unverified {
        notes.push(UNVERIFIED_NOTE.to_owned());
    }
    if rejected.len() > 0 {
        let mut s = "  ‼ presence REJECTED for: ".to_owned();
        let j = join_strings(rejected, ", ");
        s.append(j.as_str());
        s.append(REJECTED_TAIL);
        notes.push(s);
    }
    assert(strs(notes@) =~= who_notes_spec(rows@, strs(rejected@)));
    notes
}

// ---------------------------------------------------------------- whois

/// A role a phrase resolved to, in rank order; its card-written texts are made terminal-safe
/// when the line is built.
pub struct WhoisMatch {
    pub id: String,
    pub display: String,
    pub desc: Option<String>,
    pub trust: CardTrust,
}

pub const WHOIS_MISMATCH: &'static str = "  ‼ this card was RE-KEYED — the name/desc may be an impostor's; verify out-of-band before trusting";

pub const WHOIS_FIRST_SIGHT: &'static str = "  ⚠ first-sight key — confirm out-of-band (`confer confirm-key`) before trusting this name";

pub const WHOIS_UNVERIFIED: &'static str = "  (· unverified card — name/desc advisory)";

/// A name resolves through peer-writable card fields, so an untrusted card says so.
pub open spec fn whois_warn(t: CardTrust) -> Seq<char> {
    match t {
        CardTrust::Mismatch => WHOIS_MISMATCH@,
        CardTrust::FirstSight => WHOIS_FIRST_SIGHT@,
        CardTrust::Unverified => WHOIS_UNVERIFIED@,
        CardTrust::Verified => seq![],
    }
}

/// One `whois` line: the best match is marked `→`.
pub open spec fn whois_line_spec(first: bool, m: WhoisMatch) -> Seq<char> {
    (if first { "→"@ } else { " "@ }) + " "@ + term_safe(m.display@, false) + " ["@ + m.id@ + "]"@ + opt_piece(m.desc, " — "@, seq![])
        + whois_warn(m.trust)
}

/// What `whois` prints for its ranked matches: the best four, or a hint when there is none.
pub open spec fn whois_spec(phrase: Seq<char>, ms: Seq<WhoisMatch>) -> Seq<Seq<char>> {
    if ms.len() == 0 {
        seq![
            "no role matches \""@ + phrase + "\". Try `confer who`, or teach it: the agent runs `confer describe --add-alias \""@
                + phrase + "\"`."@,
        ]
    } else {
        Seq::new(
            if ms.len() < 4 { ms.len() } else { 4 },
            |i: int| whois_line_spec(i == 0, ms[i]),
        )
    }
}

pub fn whois_lines(phrase: &str, ms: &Vec<WhoisMatch>) -> (lines: Vec<String>)
    ensures
        strs(lines@) == whois_spec(phrase@, ms@),
{
    let mut lines: Vec<String> = Vec::new();
    if ms.len() == 0 {
        let mut s = "no role matches \"".to_owned();
        s.append(phrase);
        s.append("\". Try `confer who`, or teach it: the agent runs `confer describe --add-alias \"");
        s.append(phrase);
        s.append("\"`.");
        lines.push(s);
        assert(strs(lines@) =~= whois_spec(phrase@, ms@));
        return lines;
    }
    proof {
        reveal_strlit("");
        assert(""@ =~= Seq::<char>::empty());
    }
    let n: usize = if ms.len() < 4 { ms.len() } else { 4 };
    let mut i: usize = 0;
    while i < n
        invariant
            0 <= i <= n,
            n <= ms@.len(),
            n == (if ms@.len() < 4 { ms@.len() } else { 4 }),
            lines@.len() == i,
            ""@ == Seq::<char>::empty(),
            forall|k: int| 0 <= k < i ==> (#[trigger] lines@[k])@ == whois_line_spec(k == 0, ms@[k]),
        decreases n - i,
    {
        let m = &ms[i];
        let mut s = if i == 0 { "→".to_owned() } else { " ".to_owned() };
        s.append(" ");
        let disp = sanitize_term(m.display.as_str(), false);
        s.append(disp.as_str());
        s.append(" [");
        s.append(m.id.as_str());
        s.append("]");
        append_opt(&mut s, &m.desc, " — ", "");
        append_warn(&mut s, m.trust);
        lines.push(s);
        i += 1;
    }
    assert(strs(lines@) =~= whois_spec(phrase@, ms@));
    lines
}

// ---------------------------------------------------------------- status

/// What setting a lifecycle status does to the card.
#[derive(Clone, Copy, PartialEq, Eq, Structural, Debug)]
pub enum StatusEdit {
    /// The card already says so: nothing to write.
    Already,
    /// `active`, the default: drop the field.
    Clear,
    /// Write the new status.
    Write,
}

/// A card without a status is `active`.
pub open spec fn status_edit_spec(current: Option<Seq<char>>, value: Seq<char>) -> StatusEdit {
    let cur = match current {
        Some(c) => c,
        None => "active"@,
    };
    if cur == value {
        StatusEdit::Already
    } else if value == "active"@ {
        StatusEdit::Clear
    } else {
        StatusEdit::Write
    }
}

pub fn status_edit(current: &Option<String>, value: &str) -> (r: StatusEdit)
    ensures
        r == status_edit_spec(opt_str(*current), value@),
{
    let v = chars_of(value);
    let is_same = match current {
        Some(c) => same(chars_of(c.as_str()).as_slice(), v.as_slice()),
        None => is_active(value),
    };
    if is_same {
        StatusEdit::Already
    } else if is_active(value) {
        StatusEdit::Clear
    } else {
        StatusEdit::Write
    }
}

// ---------------------------------------------------------------- the card file

/// A role card's text: the frontmatter fenced by `---` lines, then the trimmed body when
/// there is one.
pub open spec fn card_text_spec(yaml: Seq<char>, body: Seq<char>) -> Seq<char> {
    if trim(body).len() == 0 {
        "---\n"@ + yaml + "---\n"@
    } else {
        "---\n"@ + yaml + "---\n\n"@ + trim(body) + "\n"@
    }
}

pub fn card_text(yaml: &str, body: &str) -> (r: String)
    ensures
        r@ == card_text_spec(yaml@, body@),
{
    let b = trimmed(chars_of(body).as_slice());
    let mut r = "---\n".to_owned();
    r.append(yaml);
    if b.len() == 0 {
        r.append("---\n");
    } else {
        r.append("---\n\n");
        let bs = string_of(b.as_slice());
        r.append(bs.as_str());
        r.append("\n");
    }
    r
}

// ---------------------------------------------------------------- rename

/// Why a rename was refused.
#[derive(Clone, Copy, PartialEq, Eq, Structural, Debug)]
pub enum RenameError {
    /// The name is empty once trimmed.
    EmptyName,
}

/// What a rename does: the display name to set, the aliases to add (the new name, and the old
/// display so a name in use keeps resolving), and the note announcing it to peers, when the
/// display really changes.
pub struct RenamePlan {
    pub name: String,
    pub add_aliases: Vec<String>,
    /// The peer broadcast: text and summary.
    pub broadcast: Option<(String, String)>,
}

pub open spec fn rename_aliases_spec(name: Seq<char>, me: Option<Seq<char>>, old: Seq<char>) -> Seq<Seq<char>> {
    let first = seq![crate::doctor::lowercase(name)];
    if me is Some && old.len() > 0 && !eq_ic(old, name) && !eq_ic(old, me->0) {
        first.push(crate::doctor::lowercase(old))
    } else {
        first
    }
}

pub open spec fn rename_text(me: Seq<char>, name: Seq<char>) -> Seq<char> {
    "Peer rename: role "@ + me + " now displays as '"@ + name
        + "' (previous names still resolve as aliases). Resolve any peer reference with `confer whois <name>` at use — don't rely on a cached display name."@
}

pub open spec fn rename_summary(me: Seq<char>, name: Seq<char>) -> Seq<char> {
    "renamed: "@ + me + " now displays as '"@ + name + "'"@
}

/// `me` is the role renaming itself when it could be resolved, `old` its current display.
pub open spec fn rename_ok(p: RenamePlan, name: Seq<char>, me: Option<Seq<char>>, old: Seq<char>) -> bool {
    let n = trim(name);
    &&& p.name@ == n
    &&& strs(p.add_aliases@) == rename_aliases_spec(n, me, old)
    &&& match p.broadcast {
        Some(b) => me is Some && !eq_ic(old, n) && b.0@ == rename_text(me->0, n) && b.1@ == rename_summary(me->0, n),
        None => !(me is Some && !eq_ic(old, n)),
    }
}

pub fn rename_plan(name: &str, me: &Option<String>, old: &str) -> (r: Result<RenamePlan, RenameError>)
    ensures
        r is Err <==> trim(name@).len() == 0,
        r matches Ok(p) ==> rename_ok(p, name@, opt_str(*me), old@),
        r matches Ok(p) ==> (crate::text::all_ascii(trim(name@)) ==> p.add_aliases@[0]@ == trim(name@).map_values(
            |c: char| crate::text::ascii_lower(c),
        )),
        r matches Ok(p) ==> (p.add_aliases@.len() == 2 && crate::text::all_ascii(old@) ==> p.add_aliases@[1]@
            == old@.map_values(|c: char| crate::text::ascii_lower(c))),
{
    let n = string_of(trimmed(chars_of(name).as_slice()).as_slice());
    if n.as_str().is_empty() {
        return Err(RenameError::EmptyName);
    }
    let mut add: Vec<String> = Vec::new();
    add.push(crate::doctor::to_lowercase(n.as_str()));
    let changed = !eq_ignore_ascii_case(old, n.as_str());
    match me {
        Some(m) => {
            if !old.is_empty() && changed && !eq_ignore_ascii_case(old, m.as_str()) {
                add.push(crate::doctor::to_lowercase(old));
            }
        },
        None => {},
    }
    let broadcast = match me {
        Some(m) => {
            if changed {
                let mut text = "Peer rename: role ".to_owned();
                text.append(m.as_str());
                text.append(" now displays as '");
                text.append(n.as_str());
                text.append("' (previous names still resolve as aliases). Resolve any peer reference with `confer whois <name>` at use — don't rely on a cached display name.");
                let mut summary = "renamed: ".to_owned();
                summary.append(m.as_str());
                summary.append(" now displays as '");
                summary.append(n.as_str());
                summary.append("'");
                Some((text, summary))
            } else {
                None
            }
        },
        None => None,
    };
    let p = RenamePlan { name: n, add_aliases: add, broadcast };
    assert(strs(p.add_aliases@) =~= rename_aliases_spec(trim(name@), opt_str(*me), old@));
    Ok(p)
}


// ---------------------------------------------------------------- describe

/// What `describe` was asked to change.
pub struct DescribeRequest {
    pub desc: Option<String>,
    pub display: Option<String>,
    pub add_alias: Vec<String>,
    pub remove_alias: Vec<String>,
    /// Add names even when they collide with another role's.
    pub force: bool,
}

impl DescribeRequest {
    /// Nothing to change: `describe` then shows the card instead.
    pub fn is_query(&self) -> (r: bool)
        ensures
            r == (self.desc is None && self.display is None && self.add_alias@.len() == 0 && self.remove_alias@.len() == 0),
    {
        self.desc.is_none() && self.display.is_none() && self.add_alias.len() == 0 && self.remove_alias.len() == 0
    }
}

/// Why `describe` refused to touch the card.
pub enum DescribeError {
    /// `--display` is empty once trimmed.
    EmptyDisplay,
    /// The display name mixes Latin with Cyrillic or Greek look-alikes.
    HomoglyphDisplay,
    /// The display name collides with another role's name: the role, its name, and how.
    DisplayTaken(String, String, String),
}

/// The card edit `describe` makes.
pub struct CardEdit {
    /// The display name to set.
    pub display: Option<String>,
    /// The description to set.
    pub desc: Option<String>,
    /// The aliases after the edit.
    pub aliases: Vec<String>,
    /// The removals that took an alias away.
    pub removed: Vec<String>,
    /// The aliases added.
    pub added: Vec<String>,
    /// The aliases not added because they collide, each with the collision.
    pub skipped: Vec<(String, (String, String, String))>,
    /// Whether anything changes.
    pub changed: bool,
}

/// The description the roster holds for `me`.
pub open spec fn roster_desc(roster: crate::alias::Roster, me: Seq<char>) -> Option<Seq<char>> {
    match crate::alias::card_of(roster, me) {
        Some(r) => opt_str(r.desc),
        None => None,
    }
}

/// `al` without the aliases equal to `r` ignoring ASCII case (`Vec::retain`).
pub open spec fn without(al: Seq<Seq<char>>, r: Seq<char>) -> Seq<Seq<char>>
    decreases al.len(),
{
    if al.len() == 0 {
        seq![]
    } else {
        let w = without(al.drop_last(), r);
        if eq_ic(al.last(), r) {
            w
        } else {
            w.push(al.last())
        }
    }
}

/// The aliases after the first `n` removals (each trimmed), and those removals that took
/// something away.
pub open spec fn removals(al: Seq<Seq<char>>, rms: Seq<Seq<char>>, n: int) -> (Seq<Seq<char>>, Seq<Seq<char>>)
    decreases n,
{
    if n <= 0 {
        (al, seq![])
    } else {
        let (a, rm) = removals(al, rms, n - 1);
        let t = trim(rms[n - 1]);
        let a2 = without(a, t);
        if a2.len() < a.len() {
            (a2, rm.push(t))
        } else {
            (a2, rm)
        }
    }
}

pub open spec fn any_ic(al: Seq<Seq<char>>, a: Seq<char>) -> bool {
    exists|i: int| 0 <= i < al.len() && eq_ic(#[trigger] al[i], a)
}

/// The aliases, those added and those skipped after the first `n` additions: an addition is
/// trimmed; an empty one or one already there (ignoring ASCII case) does nothing; one that
/// collides with another role's name is skipped unless forced.
pub open spec fn additions(
    roster: crate::alias::Roster,
    me: Seq<char>,
    force: bool,
    al: Seq<Seq<char>>,
    adds: Seq<Seq<char>>,
    n: int,
) -> (Seq<Seq<char>>, Seq<Seq<char>>, Seq<(Seq<char>, (Seq<char>, Seq<char>, Seq<char>))>)
    decreases n,
{
    if n <= 0 {
        (al, seq![], seq![])
    } else {
        let (a, ad, sk) = additions(roster, me, force, al, adds, n - 1);
        let t = trim(adds[n - 1]);
        if t.len() == 0 || any_ic(a, t) {
            (a, ad, sk)
        } else if !force && crate::alias::conflict_spec(roster, me, t) is Some {
            (a, ad, sk.push((t, crate::alias::conflict_spec(roster, me, t)->0)))
        } else {
            (a.push(t), ad.push(t), sk)
        }
    }
}

pub open spec fn skipped_view(v: Seq<(String, (String, String, String))>) -> Seq<(Seq<char>, (Seq<char>, Seq<char>, Seq<char>))> {
    v.map_values(|e: (String, (String, String, String))| (e.0@, crate::alias::triple_view(e.1)))
}

pub open spec fn wanted_display(d: Option<String>) -> Option<Seq<char>> {
    match d {
        Some(x) => Some(trim(x@)),
        None => None,
    }
}

/// The edit for a request that passed the display checks: the display and description (the
/// latter only when it differs from the roster's), then the removals, then the additions.
pub open spec fn edit_ok(
    e: CardEdit,
    roster: crate::alias::Roster,
    me: Seq<char>,
    current: Seq<Seq<char>>,
    req: DescribeRequest,
) -> bool {
    let (al1, rm) = removals(current, strs(req.remove_alias@), req.remove_alias@.len() as int);
    let (al2, ad, sk) = additions(roster, me, req.force, al1, strs(req.add_alias@), req.add_alias@.len() as int);
    &&& opt_str(e.display) == wanted_display(req.display)
    &&& opt_str(e.desc) == match req.desc {
        Some(d) => if roster_desc(roster, me) != Some(d@) { Some(d@) } else { None },
        None => None,
    }
    &&& strs(e.aliases@) == al2
    &&& strs(e.removed@) == rm
    &&& strs(e.added@) == ad
    &&& skipped_view(e.skipped@) == sk
    &&& e.changed == (e.display is Some || e.desc is Some || rm.len() > 0 || ad.len() > 0)
}

fn remove_alias(al: &Vec<String>, r: &str) -> (out: Vec<String>)
    ensures
        strs(out@) == without(strs(al@), r@),
{
    let mut out: Vec<String> = Vec::new();
    let mut i: usize = 0;
    while i < al.len()
        invariant
            0 <= i <= al@.len(),
            strs(out@) == without(strs(al@).take(i as int), r@),
        decreases al@.len() - i,
    {
        assert(strs(al@).take(i + 1).drop_last() =~= strs(al@).take(i as int));
        assert(strs(al@).take(i + 1).last() == al@[i as int]@);
        if !eq_ignore_ascii_case(al[i].as_str(), r) {
            let ghost before = out@;
            out.push(al[i].clone());
            assert(strs(out@) =~= strs(before).push(al@[i as int]@));
        }
        i += 1;
    }
    assert(strs(al@).take(al@.len() as int) =~= strs(al@));
    out
}

fn has_alias(al: &Vec<String>, a: &str) -> (r: bool)
    ensures
        r == any_ic(strs(al@), a@),
{
    let mut i: usize = 0;
    while i < al.len()
        invariant
            0 <= i <= al@.len(),
            forall|k: int| 0 <= k < i ==> !eq_ic(#[trigger] strs(al@)[k], a@),
        decreases al@.len() - i,
    {
        if eq_ignore_ascii_case(al[i].as_str(), a) {
            assert(eq_ic(strs(al@)[i as int], a@));
            return true;
        }
        i += 1;
    }
    false
}

fn trimmed_string(s: &str) -> (r: String)
    ensures
        r@ == trim(s@),
{
    string_of(trimmed(chars_of(s).as_slice()).as_slice())
}

/// The card edit `describe` makes for role `me`, whose card now lists the aliases `current`.
/// A display name is trimmed and must be non-empty, free of homoglyph mixing and, unless
/// forced, clear of every other role's names; a refused display changes nothing.
pub fn describe_plan(roster: &crate::alias::Roster, me: &str, current: &Vec<String>, req: &DescribeRequest) -> (r: Result<CardEdit, DescribeError>)
    requires
        roster.wf(),
    ensures
        match r {
            Err(DescribeError::EmptyDisplay) => wanted_display(req.display) matches Some(d) && d.len() == 0,
            Err(DescribeError::HomoglyphDisplay) => wanted_display(req.display) matches Some(d) && d.len() > 0
                && crate::alias::mixed_script(d),
            Err(DescribeError::DisplayTaken(a, b, c)) => wanted_display(req.display) matches Some(d) && d.len() > 0
                && !crate::alias::mixed_script(d) && !req.force && crate::alias::conflict_spec(*roster, me@, d) == Some(
                (a@, b@, c@),
            ),
            Ok(e) => (wanted_display(req.display) matches Some(d) ==> d.len() > 0 && !crate::alias::mixed_script(d) && (
            req.force || crate::alias::conflict_spec(*roster, me@, d) is None)) && edit_ok(e, *roster, me@, strs(current@), *req),
        },
{
    let display = match &req.display {
        Some(d) => {
            let t = trimmed_string(d.as_str());
            if t.as_str().is_empty() {
                return Err(DescribeError::EmptyDisplay);
            }
            if crate::alias::homoglyph_risk(t.as_str()) {
                return Err(DescribeError::HomoglyphDisplay);
            }
            if !req.force {
                match crate::alias::conflict(roster, me, t.as_str()) {
                    Some(c) => {
                        return Err(DescribeError::DisplayTaken(c.0, c.1, c.2));
                    },
                    None => {},
                }
            }
            Some(t)
        },
        None => None,
    };
    let desc = match &req.desc {
        Some(d) => {
            let mec = chars_of(me);
            let now = match roster.position(mec.as_slice()) {
                Some(k) => {
                    proof {
                        crate::alias::lemma_card_at(*roster, k as int);
                    }
                    match &roster.entries[k].1.desc {
                        Some(x) => same(chars_of(x.as_str()).as_slice(), chars_of(d.as_str()).as_slice()),
                        None => false,
                    }
                },
                None => {
                    assert(!exists|k: int| crate::alias::has_card(*roster, me@, k));
                    false
                },
            };
            if now {
                None
            } else {
                Some(d.clone())
            }
        },
        None => None,
    };
    let mut aliases: Vec<String> = current.clone();
    let mut removed: Vec<String> = Vec::new();
    let ghost rms = strs(req.remove_alias@);
    let mut i: usize = 0;
    while i < req.remove_alias.len()
        invariant
            0 <= i <= req.remove_alias@.len(),
            rms == strs(req.remove_alias@),
            (strs(aliases@), strs(removed@)) == removals(strs(current@), rms, i as int),
        decreases req.remove_alias@.len() - i,
    {
        let t = trimmed_string(req.remove_alias[i].as_str());
        let kept = remove_alias(&aliases, t.as_str());
        if kept.len() < aliases.len() {
            let ghost before = removed@;
            removed.push(t);
            assert(strs(removed@) =~= strs(before).push(trim(rms[i as int])));
        }
        aliases = kept;
        i += 1;
    }
    let ghost al1 = strs(aliases@);
    let mut added: Vec<String> = Vec::new();
    let mut skipped: Vec<(String, (String, String, String))> = Vec::new();
    let ghost adds = strs(req.add_alias@);
    let mut j: usize = 0;
    while j < req.add_alias.len()
        invariant
            roster.wf(),
            0 <= j <= req.add_alias@.len(),
            adds == strs(req.add_alias@),
            (strs(aliases@), strs(added@), skipped_view(skipped@)) == additions(*roster, me@, req.force, al1, adds, j as int),
        decreases req.add_alias@.len() - j,
    {
        let t = trimmed_string(req.add_alias[j].as_str());
        assert(t@ == trim(adds[j as int]));
        if !t.as_str().is_empty() && !has_alias(&aliases, t.as_str()) {
            let clash = if req.force {
                None
            } else {
                crate::alias::conflict(roster, me, t.as_str())
            };
            match clash {
                Some(c) => {
                    let ghost before = skipped@;
                    let ghost cv = crate::alias::triple_view(c);
                    skipped.push((t, c));
                    assert(skipped_view(skipped@) =~= skipped_view(before).push((trim(adds[j as int]), cv)));
                },
                None => {
                    let ghost ba = aliases@;
                    let ghost bd = added@;
                    aliases.push(t.clone());
                    added.push(t);
                    assert(strs(aliases@) =~= strs(ba).push(trim(adds[j as int])));
                    assert(strs(added@) =~= strs(bd).push(trim(adds[j as int])));
                },
            }
        }
        j += 1;
    }
    let changed = display.is_some() || desc.is_some() || removed.len() > 0 || added.len() > 0;
    Ok(CardEdit { display, desc, aliases, removed, added, skipped, changed })
}


/// The name the roster shows for a role: its card's display name, else its id.
pub open spec fn display_of_spec(roster: crate::alias::Roster, id: Seq<char>) -> Seq<char> {
    match crate::alias::card_of(roster, id) {
        Some(r) => match r.display {
            Some(d) => d@,
            None => id,
        },
        None => id,
    }
}

pub fn display_of(roster: &crate::alias::Roster, id: &str) -> (r: String)
    requires
        roster.wf(),
    ensures
        r@ == display_of_spec(*roster, id@),
{
    match roster.position(chars_of(id).as_slice()) {
        Some(k) => {
            proof {
                crate::alias::lemma_card_at(*roster, k as int);
            }
            match &roster.entries[k].1.display {
                Some(d) => d.clone(),
                None => id.to_owned(),
            }
        },
        None => {
            assert(!exists|k: int| crate::alias::has_card(*roster, id@, k));
            id.to_owned()
        },
    }
}

/// ` 'name' (display [role])` naming the role a name collides with; nothing when the clash
/// is with no role (a name that normalizes to nothing).
pub open spec fn owner_piece(roster: crate::alias::Roster, who: Seq<char>, what: Seq<char>) -> Seq<char> {
    if who.len() == 0 {
        seq![]
    } else {
        " '"@ + what + "' ("@ + display_of_spec(roster, who) + " ["@ + who + "])"@
    }
}

fn owner_text(roster: &crate::alias::Roster, who: &str, what: &str) -> (r: String)
    requires
        roster.wf(),
    ensures
        r@ == owner_piece(*roster, who@, what@),
{
    if who.is_empty() {
        return String::new();
    }
    let mut r = " '".to_owned();
    r.append(what);
    r.append("' (");
    let d = display_of(roster, who);
    r.append(d.as_str());
    r.append(" [");
    r.append(who);
    r.append("])");
    r
}

/// The message for a display name that collides: `display 'd' <why><owner>; pick another or
/// pass --force`.
pub open spec fn taken_text(roster: crate::alias::Roster, d: Seq<char>, clash: (Seq<char>, Seq<char>, Seq<char>)) -> Seq<char> {
    "display '"@ + d + "' "@ + clash.2 + owner_piece(roster, clash.0, clash.1) + "; pick another or pass --force"@
}

pub fn display_taken_message(roster: &crate::alias::Roster, d: &str, clash: &(String, String, String)) -> (r: String)
    requires
        roster.wf(),
    ensures
        r@ == taken_text(*roster, d@, crate::alias::triple_view(*clash)),
{
    let mut r = "display '".to_owned();
    r.append(d);
    r.append("' ");
    r.append(clash.2.as_str());
    let o = owner_text(roster, clash.0.as_str(), clash.1.as_str());
    r.append(o.as_str());
    r.append("; pick another or pass --force");
    r
}

/// The note for an alias skipped because it collides.
pub open spec fn skip_text(roster: crate::alias::Roster, add: Seq<char>, clash: (Seq<char>, Seq<char>, Seq<char>)) -> Seq<char> {
    if clash.0.len() == 0 {
        "confer describe: skipping alias '"@ + add + "' — "@ + clash.2 + "."@
    } else {
        "confer describe: skipping alias '"@ + add + "' — it "@ + clash.2 + " '"@ + clash.1 + "' ("@ + display_of_spec(
            roster,
            clash.0,
        ) + " ["@ + clash.0 + "]). Use --force to add anyway."@
    }
}

pub fn skip_message(roster: &crate::alias::Roster, add: &str, clash: &(String, String, String)) -> (r: String)
    requires
        roster.wf(),
    ensures
        r@ == skip_text(*roster, add@, crate::alias::triple_view(*clash)),
{
    let mut r = "confer describe: skipping alias '".to_owned();
    r.append(add);
    if clash.0.as_str().is_empty() {
        r.append("' — ");
        r.append(clash.2.as_str());
        r.append(".");
    } else {
        r.append("' — it ");
        r.append(clash.2.as_str());
        r.append(" '");
        r.append(clash.1.as_str());
        r.append("' (");
        let d = display_of(roster, clash.0.as_str());
        r.append(d.as_str());
        r.append(" [");
        r.append(clash.0.as_str());
        r.append("]). Use --force to add anyway.");
    }
    r
}


// ---------------------------------------------------------------- splitting a card

/// A role card split at its frontmatter fence.
pub struct CardSplit {
    /// Whether the card opens with a `---` fence.
    pub fenced: bool,
    /// The frontmatter text between the fences (empty without a fence).
    pub yaml: String,
    /// The body: after the closing fence, without leading or trailing newlines; the whole
    /// card without a fence.
    pub body: String,
}

/// The text without a leading byte-order mark (cards are hand-edited, often on Windows).
pub open spec fn unbom(s: Seq<char>) -> Seq<char> {
    if s.len() > 0 && s[0] == '\u{FEFF}' {
        s.drop_first()
    } else {
        s
    }
}

pub open spec fn is_fence(l: Seq<char>) -> bool {
    crate::text::trim_end(l) == "---"@
}

/// The frontmatter and body gathered from lines `1..n`, and whether the closing fence was
/// passed: lines up to the first fence go to the frontmatter, the rest to the body, each
/// with a newline.
pub open spec fn gather(ls: Seq<Seq<char>>, n: int) -> (Seq<char>, Seq<char>, bool)
    decreases n,
{
    if n <= 1 {
        (seq![], seq![], false)
    } else {
        let (y, b, ib) = gather(ls, n - 1);
        let l = ls[n - 1];
        if !ib && is_fence(l) {
            (y, b, true)
        } else if ib {
            (y, b + l + seq!['\n'], ib)
        } else {
            (y + l + seq!['\n'], b, ib)
        }
    }
}

/// `str::trim_start_matches('\n')`.
pub open spec fn trim_nl_start(s: Seq<char>) -> Seq<char>
    decreases s.len(),
{
    if s.len() > 0 && s[0] == '\n' {
        trim_nl_start(s.drop_first())
    } else {
        s
    }
}

/// `str::trim_end_matches('\n')`.
pub open spec fn trim_nl_end(s: Seq<char>) -> Seq<char>
    decreases s.len(),
{
    if s.len() > 0 && s.last() == '\n' {
        trim_nl_end(s.drop_last())
    } else {
        s
    }
}

/// How a card splits: without a first line that is a `---` fence (trailing whitespace
/// allowed), it is all body; else the lines up to the next fence are the frontmatter and
/// the rest, newlines trimmed off its ends, the body.
pub open spec fn split_card_spec(raw: Seq<char>) -> (bool, Seq<char>, Seq<char>) {
    let r = unbom(raw);
    let ls = crate::text::lines(r);
    if ls.len() == 0 || !is_fence(ls[0]) {
        (false, seq![], r)
    } else {
        let (y, b, ib) = gather(ls, ls.len() as int);
        (true, y, trim_nl_end(trim_nl_start(b)))
    }
}

fn fence_line(l: &[char]) -> (r: bool)
    ensures
        r == is_fence(l@),
{
    let t = crate::text::trimmed_end(l);
    same(t.as_slice(), chars_of("---").as_slice())
}

fn trim_newlines(s: &[char]) -> (r: Vec<char>)
    ensures
        r@ == trim_nl_end(trim_nl_start(s@)),
{
    let mut a: usize = 0;
    assert(s@.subrange(0, s@.len() as int) =~= s@);
    while a < s.len() && s[a] == '\n'
        invariant
            0 <= a <= s@.len(),
            trim_nl_start(s@) == trim_nl_start(s@.subrange(a as int, s@.len() as int)),
        decreases s@.len() - a,
    {
        assert(s@.subrange(a as int, s@.len() as int).drop_first() =~= s@.subrange(a + 1, s@.len() as int));
        a += 1;
    }
    let mut b: usize = s.len();
    let ghost t = s@.subrange(a as int, s@.len() as int);
    assert(trim_nl_start(t) == t);
    while b > a && s[b - 1] == '\n'
        invariant
            a <= b <= s@.len(),
            t == s@.subrange(a as int, s@.len() as int),
            trim_nl_start(s@) == t,
            trim_nl_end(t) == trim_nl_end(s@.subrange(a as int, b as int)),
        decreases b,
    {
        assert(s@.subrange(a as int, b as int).drop_last() =~= s@.subrange(a as int, b - 1));
        b -= 1;
    }
    crate::text::slice(s, a, b)
}

/// Split a role card at its frontmatter fence.
pub fn split_card(raw: &str) -> (r: CardSplit)
    ensures
        (r.fenced, r.yaml@, r.body@) == split_card_spec(raw@),
{
    let all = chars_of(raw);
    let cs = if all.len() > 0 && all[0] == '\u{FEFF}' { crate::text::slice(all.as_slice(), 1, all.len()) } else { all };
    assert(cs@ == unbom(raw@)) by {
        if raw@.len() > 0 && raw@[0] == '\u{FEFF}' {
            assert(raw@.subrange(1, raw@.len() as int) =~= raw@.drop_first());
        }
    }
    let ls = crate::text::split_lines(cs.as_slice());
    let ghost lv = crate::text::vv(ls@);
    if ls.len() == 0 || !fence_line(ls[0].as_slice()) {
        assert(ls@.len() > 0 ==> lv[0] == ls@[0]@);
        return CardSplit { fenced: false, yaml: String::new(), body: string_of(cs.as_slice()) };
    }
    assert(lv[0] == ls@[0]@);
    let mut yaml: Vec<char> = Vec::new();
    let mut body: Vec<char> = Vec::new();
    let mut in_body = false;
    let mut i: usize = 1;
    while i < ls.len()
        invariant
            1 <= i <= ls@.len(),
            lv == crate::text::vv(ls@),
            (yaml@, body@, in_body) == gather(lv, i as int),
        decreases ls@.len() - i,
    {
        let l = &ls[i];
        assert(lv[i as int] == l@);
        if !in_body && fence_line(l.as_slice()) {
            in_body = true;
        } else if in_body {
            crate::text::push_all(&mut body, l.as_slice());
            body.push('\n');
        } else {
            crate::text::push_all(&mut yaml, l.as_slice());
            yaml.push('\n');
        }
        i += 1;
    }
    let b = trim_newlines(body.as_slice());
    CardSplit { fenced: true, yaml: string_of(yaml.as_slice()), body: string_of(b.as_slice()) }
}


/// A status is a self-sovereign claim: it counts only on a card signed by the role's pinned
/// key, and `active` is never shown.
pub proof fn a_status_needs_a_verified_card(trust: CardTrust, status: Option<String>)
    ensures
        trust != CardTrust::Verified ==> shown_status(trust, status) is None,
        shown_status(trust, status) matches Some(s) ==> s != "active"@,
{
}

pub open spec fn no_ic_twins(al: Seq<Seq<char>>) -> bool {
    forall|a: int, b: int| 0 <= a < b < al.len() ==> !eq_ic(#[trigger] al[a], #[trigger] al[b])
}

/// `describe` adds an alias only when it is non-empty, not yet there in any case, and —
/// unless forced — clear of every other role's names; and it never makes two aliases that
/// differ only in ASCII case.
pub proof fn describe_adds_only_clear_new_aliases(
    roster: crate::alias::Roster,
    me: Seq<char>,
    force: bool,
    al: Seq<Seq<char>>,
    adds: Seq<Seq<char>>,
    n: int,
)
    requires
        no_ic_twins(al),
        0 <= n <= adds.len(),
    ensures
        ({
            let (a, ad, sk) = additions(roster, me, force, al, adds, n);
            &&& no_ic_twins(a)
            &&& a == al + ad
            &&& forall|k: int| 0 <= k < ad.len() ==> (#[trigger] ad[k]).len() > 0 && (force || crate::alias::conflict_spec(roster, me, ad[k]) is None)
        }),
    decreases n,
{
    if n > 0 {
        describe_adds_only_clear_new_aliases(roster, me, force, al, adds, n - 1);
        let (a, ad, sk) = additions(roster, me, force, al, adds, n - 1);
        let t = trim(adds[n - 1]);
        if !(t.len() == 0 || any_ic(a, t)) && !(!force && crate::alias::conflict_spec(roster, me, t) is Some) {
            let a2 = a.push(t);
            assert forall|x: int, y: int| 0 <= x < y < a2.len() implies !eq_ic(#[trigger] a2[x], #[trigger] a2[y]) by {
                if y == a.len() {
                    if eq_ic(a2[x], a2[y]) {
                        assert(eq_ic(a[x], t));
                    }
                } else {
                    assert(a2[x] == a[x] && a2[y] == a[y]);
                }
            }
            assert(a2 =~= al + ad.push(t));
        }
    } else {
        assert(al + Seq::<Seq<char>>::empty() =~= al);
    }
}

} // verus!
