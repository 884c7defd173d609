//! The identity and signing audit behind `confer doctor`: given where each relevant git config
//! key is set (local, global, system) and how the hub remote answered an anonymous probe, the
//! findings to report, the repairs to apply, and the report text. Running git and the probe
//! happens outside.
use vstd::prelude::*;
use crate::text::opt_str;
use crate::text::strs;
use crate::text::{chars_of, contains, contains_seq, is_prefix, starts_with, trimmed, trim, first_index_of, index_of, slice, string_of, same, ascii_lower, decimal_u64, dec, all_ascii};

verus! {

// ---------------------------------------------------------------- levels and scopes

#[derive(Clone, Copy, PartialEq, Eq, Structural, Debug)]
pub enum Level {
    Okay,
    Warn,
    Info,
}

pub open spec fn glyph_spec(l: Level) -> Seq<char> {
    match l {
        Level::Okay => "✓"@,
        Level::Warn => "⚠"@,
        Level::Info => "ℹ"@,
    }
}

pub open spec fn severity_spec(l: Level) -> Seq<char> {
    match l {
        Level::Okay => "ok"@,
        Level::Warn => "warn"@,
        Level::Info => "info"@,
    }
}

impl Level {
    pub fn glyph(&self) -> (s: &'static str)
        ensures
            s@ == glyph_spec(*self),
    {
        match self {
            Level::Okay => "✓",
            Level::Warn => "⚠",
            Level::Info => "ℹ",
        }
    }

    /// The severity string of `doctor --json`.
    pub fn severity(&self) -> (s: &'static str)
        ensures
            s@ == severity_spec(*self),
    {
        match self {
            Level::Okay => "ok",
            Level::Warn => "warn",
            Level::Info => "info",
        }
    }
}

/// The git config scope a key is set at.
#[derive(Clone, Copy, PartialEq, Eq, Structural, Debug)]
pub enum Scope {
    Local,
    Global,
    System,
    Unknown,
}

/// Local origins are reported relative to the repository (`.git/config`); global ones are
/// `~/.gitconfig` or `~/.config/git/config`; system ones live under `/etc/`.
pub open spec fn scope_of(path: Seq<char>) -> Scope {
    if contains_seq(path, ".git/config"@) {
        Scope::Local
    } else if contains_seq(path, "/etc/"@) {
        Scope::System
    } else if contains_seq(path, ".gitconfig"@) || contains_seq(path, "/git/config"@) {
        Scope::Global
    } else {
        Scope::Unknown
    }
}

pub open spec fn label_spec(s: Scope) -> Seq<char> {
    match s {
        Scope::Local => "local"@,
        Scope::Global => "global"@,
        Scope::System => "system"@,
        Scope::Unknown => "?"@,
    }
}

fn has(s: &[char], p: &str) -> (r: bool)
    ensures
        r == contains_seq(s@, p@),
{
    let pv = chars_of(p);
    contains(s, pv.as_slice())
}

impl Scope {
    /// The scope of a config file path as `git config --show-origin` reports it.
    pub fn from_origin(path: &str) -> (s: Scope)
        ensures
            s == scope_of(path@),
    {
        let p = chars_of(path);
        if has(p.as_slice(), ".git/config") {
            Scope::Local
        } else if has(p.as_slice(), "/etc/") {
            Scope::System
        } else if has(p.as_slice(), ".gitconfig") || has(p.as_slice(), "/git/config") {
            Scope::Global
        } else {
            Scope::Unknown
        }
    }

    pub fn label(&self) -> (s: &'static str)
        ensures
            s@ == label_spec(*self),
    {
        match self {
            Scope::Local => "local",
            Scope::Global => "global",
            Scope::System => "system",
            Scope::Unknown => "?",
        }
    }
}

pub open spec fn cfg_view(c: Option<(Scope, String)>) -> Option<(Scope, Seq<char>)> {
    match c {
        Some((s, v)) => Some((s, v@)),
        None => None,
    }
}

/// The first line of `s`, as `str::lines` yields it: up to the first `\n`, without a
/// trailing `\r`; none for an empty string.
pub open spec fn first_line(s: Seq<char>) -> Option<Seq<char>> {
    if s.len() == 0 {
        None
    } else {
        let line = match first_index_of(s, '\n') {
            Some(i) => s.take(i),
            None => s,
        };
        if line.len() > 0 && line.last() == '\r' {
            Some(line.drop_last())
        } else {
            Some(line)
        }
    }
}

/// `git config --show-origin --get` prints `file:<path>\t<value>`: the scope of the path and
/// the trimmed value, read from the first line.
pub open spec fn scoped_spec(out: Seq<char>) -> Option<(Scope, Seq<char>)> {
    match first_line(out) {
        None => None,
        Some(line) => match first_index_of(line, '\t') {
            None => None,
            Some(t) => {
                let origin = line.take(t);
                let path = if is_prefix("file:"@, origin) {
                    origin.skip(5)
                } else {
                    origin
                };
                Some((scope_of(path), trim(line.skip(t + 1))))
            },
        },
    }
}

fn first_line_of(s: &[char]) -> (r: Option<Vec<char>>)
    ensures
        opt_chars(r) == first_line(s@),
{
    if s.len() == 0 {
        return None;
    }
    let line = match index_of(s, '\n') {
        Some(i) => slice(s, 0, i),
        None => {
            assert(s@.subrange(0, s@.len() as int) =~= s@);
            slice(s, 0, s.len())
        },
    };
    if line.len() > 0 && line[line.len() - 1] == '\r' {
        Some(slice(line.as_slice(), 0, line.len() - 1))
    } else {
        Some(line)
    }
}

pub open spec fn opt_chars(v: Option<Vec<char>>) -> Option<Seq<char>> {
    match v {
        Some(x) => Some(x@),
        None => None,
    }
}

fn origin_path(origin: &[char]) -> (path: Vec<char>)
    ensures
        path@ == if is_prefix("file:"@, origin@) {
            origin@.skip(5)
        } else {
            origin@
        },
{
    let file = chars_of("file:");
    proof {
        reveal_strlit("file:");
    }
    if starts_with(origin, file.as_slice()) {
        slice(origin, 5, origin.len())
    } else {
        assert(origin@.subrange(0, origin@.len() as int) =~= origin@);
        slice(origin, 0, origin.len())
    }
}

/// The scope and value in the output of `git config --show-origin --get <key>`.
pub fn scoped(out: &str) -> (r: Option<(Scope, String)>)
    ensures
        cfg_view(r) == scoped_spec(out@),
{
    let s = chars_of(out);
    let line = match first_line_of(s.as_slice()) {
        Some(l) => l,
        None => return None,
    };
    let t = match index_of(line.as_slice(), '\t') {
        Some(t) => t,
        None => return None,
    };
    let origin = slice(line.as_slice(), 0, t);
    let path = origin_path(origin.as_slice());
    let ps = string_of(path.as_slice());
    let value = slice(line.as_slice(), t + 1, line.len());
    let v = trimmed(value.as_slice());
    Some((Scope::from_origin(ps.as_str()), string_of(v.as_slice())))
}

// ---------------------------------------------------------------- interactive signers

/// Unicode lowercase mapping of a string, as `str::to_lowercase` computes it.
pub uninterp spec fn lowercase(s: Seq<char>) -> Seq<char>;

/// Trusted: std's `str::to_lowercase`. Its result is the named Unicode lowercase mapping of
/// the argument; on ASCII text it lowers `A`–`Z` and keeps everything else. Its behaviour on
/// other characters is not stated.
#[verifier::external_body]
pub(crate) fn to_lowercase(s: &str) -> (r: String)
    ensures
        r@ == lowercase(s@),
        (forall|i: int| 0 <= i < s@.len() ==> (s@[i] as u32) < 128) ==> r@ == s@.map_values(|c: char| ascii_lower(c)),
{
    s.to_lowercase()
}

/// A lowercased signing program names an interactive signer (1Password's `op-ssh-sign`, or a
/// gpg agent).
pub open spec fn names_interactive(lowered: Seq<char>) -> bool {
    contains_seq(lowered, "op-ssh-sign"@) || contains_seq(lowered, "1password"@) || contains_seq(lowered, "gpg-agent"@)
}

/// Does the already lowercased program path name an interactive signer?
pub fn names_interactive_signer(lowered: &str) -> (b: bool)
    ensures
        b == names_interactive(lowered@),
{
    let p = chars_of(lowered);
    has(p.as_slice(), "op-ssh-sign") || has(p.as_slice(), "1password") || has(p.as_slice(), "gpg-agent")
}

/// Is `program` an interactive signer, compared without regard to case?
pub fn is_interactive_signer(program: &str) -> (b: bool)
    ensures
        b == names_interactive(lowercase(program@)),
        all_ascii(program@) ==> b == names_interactive(program@.map_values(|c: char| ascii_lower(c))),
{
    let p = to_lowercase(program);
    names_interactive_signer(p.as_str())
}

// ---------------------------------------------------------------- remote visibility

/// Whether the hub's origin is anonymously readable.
#[derive(Clone, Copy, PartialEq, Eq, Structural, Debug)]
pub enum Visibility {
    Public,
    Private,
    Unknown,
    NotApplicable,
}

/// Replace the first `:` with `/`.
pub open spec fn first_colon_to_slash(r: Seq<char>) -> Seq<char> {
    match first_index_of(r, ':') {
        Some(i) => r.take(i) + seq!['/'] + r.skip(i + 1),
        None => r,
    }
}

/// The anonymous HTTPS URL for a git remote: scp-like and `ssh://git@` remotes become
/// `https://host/path`, HTTP(S) remotes stay; local paths and other schemes have none.
pub open spec fn anon_https_spec(url: Seq<char>) -> Option<Seq<char>> {
    let u = trim(url);
    if is_prefix("git@"@, u) {
        Some("https://"@ + first_colon_to_slash(u.skip(4)))
    } else if is_prefix("ssh://git@"@, u) {
        Some("https://"@ + first_colon_to_slash(u.skip(10)))
    } else if is_prefix("https://"@, u) || is_prefix("http://"@, u) {
        Some(u)
    } else {
        None
    }
}

fn colon_to_slash(r: &[char]) -> (out: Vec<char>)
    ensures
        out@ == first_colon_to_slash(r@),
{
    let n = r.len();
    match index_of(r, ':') {
        Some(i) => {
            let mut out = slice(r, 0, i);
            out.push('/');
            let rest = slice(r, i + 1, r.len());
            crate::text::push_all(&mut out, rest.as_slice());
            out
        },
        None => {
            assert(r@.subrange(0, r@.len() as int) =~= r@);
            slice(r, 0, r.len())
        },
    }
}

fn https_of(rest: &[char]) -> (s: String)
    ensures
        s@ == "https://"@ + first_colon_to_slash(rest@),
{
    let tail = colon_to_slash(rest);
    let mut s = String::new();
    s.append("https://");
    let t = string_of(tail.as_slice());
    s.append(t.as_str());
    s
}

/// The URL to probe anonymously for a git remote `url`, if it is one worth probing.
pub fn anon_https(url: &str) -> (r: Option<String>)
    ensures
        opt_str(r) == anon_https_spec(url@),
{
    let u = trimmed(chars_of(url).as_slice());
    let git = chars_of("git@");
    let ssh = chars_of("ssh://git@");
    let https = chars_of("https://");
    let http = chars_of("http://");
    proof {
        reveal_strlit("git@");
        reveal_strlit("ssh://git@");
    }
    if starts_with(u.as_slice(), git.as_slice()) {
        let rest = slice(u.as_slice(), 4, u.len());
        Some(https_of(rest.as_slice()))
    } else if starts_with(u.as_slice(), ssh.as_slice()) {
        let rest = slice(u.as_slice(), 10, u.len());
        Some(https_of(rest.as_slice()))
    } else if starts_with(u.as_slice(), https.as_slice()) || starts_with(u.as_slice(), http.as_slice()) {
        Some(string_of(u.as_slice()))
    } else {
        None
    }
}

/// What an anonymous probe's answer (the HTTP status it printed; none when it could not be run
/// or timed out) says: `200` is public, no connection is unknown, any other status private.
pub open spec fn verdict_spec(answer: Option<Seq<char>>) -> Visibility {
    match answer {
        None => Visibility::Unknown,
        Some(a) => {
            let c = trim(a);
            if c == "200"@ {
                Visibility::Public
            } else if c == "000"@ || c.len() == 0 {
                Visibility::Unknown
            } else {
                Visibility::Private
            }
        },
    }
}

fn str_is(s: &[char], lit: &str) -> (r: bool)
    ensures
        r == (s@ == lit@),
{
    let l = chars_of(lit);
    same(s, l.as_slice())
}

/// The verdict of an anonymous probe.
pub fn probe_verdict(answer: &Option<String>) -> (v: Visibility)
    ensures
        v == verdict_spec(opt_str(*answer)),
{
    match answer {
        None => Visibility::Unknown,
        Some(a) => {
            let c = trimmed(chars_of(a.as_str()).as_slice());
            if str_is(c.as_slice(), "200") {
                Visibility::Public
            } else if str_is(c.as_slice(), "000") || c.len() == 0 {
                Visibility::Unknown
            } else {
                Visibility::Private
            }
        },
    }
}

/// Is the hub's origin `url` anonymously readable? No origin, or one that is not a network
/// remote, is not applicable; otherwise the probe's answer decides.
pub fn remote_visibility(url: Option<String>, answer: &Option<String>) -> (r: (Option<String>, Visibility))
    ensures
        opt_str(r.0) == opt_str(url),
        r.1 == match opt_str(url) {
            None => Visibility::NotApplicable,
            Some(u) => if anon_https_spec(u) is None {
                Visibility::NotApplicable
            } else {
                verdict_spec(opt_str(*answer))
            },
        },
{
    match url {
        None => (None, Visibility::NotApplicable),
        Some(u) => {
            let anon = anon_https(u.as_str());
            if anon.is_none() {
                (Some(u), Visibility::NotApplicable)
            } else {
                let v = probe_verdict(answer);
                (Some(u), v)
            }
        },
    }
}

// ---------------------------------------------------------------- the audit

pub const AGENT_CLONE: &'static str = "This is an agent clone (has .confer/identity.json) — local signing config is correct here.";
pub const HUMAN_CLONE: &'static str = "This looks like a human-used clone (no .confer/identity.json) — an agent must NOT write signing config here.";
pub const OWN_KEY_FIX: &'static str = "give this clone its own on-disk key: `confer join --role <you> --signing-key <path>` (overrides the program to ssh-keygen, no prompt).";
pub const LOCAL_KEY: &'static str = "Signs with a LOCAL signing key (agent-scoped, not the human's).";
pub const SIGNING_OFF: &'static str = "A LOCAL signing key is set but commit.gpgsign is OFF — this agent's messages go out UNSIGNED and peers can't verify them.";
pub const TURN_ON_FIX: &'static str = "turn signing on: `confer join --role <you> --signing-key <path>` (sets commit.gpgsign=true), or `git config commit.gpgsign true`.";
pub const ADOPT_FIX: &'static str = "adopt an agent key: `confer join --role <you> --signing-key <path>`.";
pub const NO_KEY: &'static str = "No signing key configured — messages will be unverifiable.";
pub const EMAIL_FIX: &'static str = "join sets a role identity (<role>@confer.local) locally.";
pub const SEPARATE_FIX: &'static str = "agents should use a SEPARATE clone, or per-invocation `git -c …` overrides — never local config in a shared clone.";
pub const NO_DIRECT: &'static str = "Agents should not commit here directly — give each agent its own sibling clone with its own key.";
pub const PUBLIC_TAIL: &'static str = " — confer assumes a PRIVATE hub, so this exposes all coordination traffic (every message, role, and the full history) and anyone can clone it.";
pub const PUBLIC_FIX: &'static str = "make the repo private, or confirm this is a deliberate public/read-only mirror.";
pub const PRIVATE_HUB: &'static str = "The hub remote is not anonymously readable (appears private).";
pub const UNKNOWN_HUB: &'static str = "Couldn't verify hub visibility (offline, SSH-only, or a self-hosted host) — can't confirm it's private; check manually if unsure.";
pub const LOCAL_ONLY: &'static str = "confer only ever writes LOCAL git config; it never modifies your global ~/.gitconfig.";

pub struct Finding {
    pub level: Level,
    pub title: String,
    pub fix: Option<String>,
}

pub struct FindingView {
    pub level: Level,
    pub title: Seq<char>,
    pub fix: Option<Seq<char>>,
}

impl View for Finding {
    type V = FindingView;

    open spec fn view(&self) -> FindingView {
        FindingView { level: self.level, title: self.title@, fix: opt_str(self.fix) }
    }
}

pub open spec fn findings_view(f: Seq<Finding>) -> Seq<FindingView> {
    f.map_values(|x: Finding| x@)
}

pub open spec fn fv(level: Level, title: Seq<char>, fix: Option<Seq<char>>) -> FindingView {
    FindingView { level, title, fix }
}

/// Where the identity and signing keys are set, and to what (none when unset).
pub struct ScopedConfig {
    pub gpgsign: Option<(Scope, String)>,
    pub program: Option<(Scope, String)>,
    pub signingkey: Option<(Scope, String)>,
    pub email: Option<(Scope, String)>,
}

pub struct ScopedView {
    pub gpgsign: Option<(Scope, Seq<char>)>,
    pub program: Option<(Scope, Seq<char>)>,
    pub signingkey: Option<(Scope, Seq<char>)>,
    pub email: Option<(Scope, Seq<char>)>,
}

impl View for ScopedConfig {
    type V = ScopedView;

    open spec fn view(&self) -> ScopedView {
        ScopedView {
            gpgsign: cfg_view(self.gpgsign),
            program: cfg_view(self.program),
            signingkey: cfg_view(self.signingkey),
            email: cfg_view(self.email),
        }
    }
}

/// `commit.gpgsign` is set to `true`.
pub open spec fn signing_on(g: Option<(Scope, Seq<char>)>) -> bool {
    g matches Some(p) && p.1 == "true"@
}

pub open spec fn signer_title(sc: Scope, prog: Seq<char>) -> Seq<char> {
    "gpg.ssh.program ("@ + label_spec(sc) + ") is an interactive signer ("@ + prog + ") — it prompts/blocks in a headless agent."@
}

/// An interactive signing program blocks a headless agent when signing is on (a warning);
/// otherwise it is only worth mentioning.
pub open spec fn signer_findings(agent: bool, on: bool, program: Option<(Scope, Seq<char>)>) -> Seq<FindingView> {
    match program {
        Some(p) => if names_interactive(lowercase(p.1)) {
            seq![fv(
                if agent && on { Level::Warn } else { Level::Info },
                signer_title(p.0, p.1),
                if agent { Some(OWN_KEY_FIX@) } else { None },
            )]
        } else {
            seq![]
        },
        None => seq![],
    }
}

/// An agent clone should sign, with a key set locally.
pub open spec fn key_finding(on: bool, signingkey: Option<(Scope, Seq<char>)>) -> FindingView {
    match signingkey {
        Some(k) => if k.0 == Scope::Local {
            if on {
                fv(Level::Okay, LOCAL_KEY@, None)
            } else {
                fv(Level::Warn, SIGNING_OFF@, Some(TURN_ON_FIX@))
            }
        } else {
            fv(
                Level::Warn,
                "user.signingkey is inherited from "@ + label_spec(k.0) + " config — this agent would sign with the HUMAN's key."@,
                Some(ADOPT_FIX@),
            )
        },
        None => fv(Level::Info, NO_KEY@, Some(ADOPT_FIX@)),
    }
}

/// An agent clone's email set outside the clone attributes its commits to the human.
pub open spec fn email_findings(email: Option<(Scope, Seq<char>)>) -> Seq<FindingView> {
    match email {
        Some(e) => if e.0 != Scope::Local {
            seq![fv(
                Level::Warn,
                "user.email ("@ + e.1 + ") comes from "@ + label_spec(e.0) + " config — agent commits are attributed to the human, not the role."@,
                Some(EMAIL_FIX@),
            )]
        } else {
            seq![]
        },
        None => seq![],
    }
}

/// A local override in a clone a human uses changes the human's commits.
pub open spec fn override_findings(key: Seq<char>, val: Option<(Scope, Seq<char>)>) -> Seq<FindingView> {
    match val {
        Some(v) => if v.0 == Scope::Local {
            seq![fv(
                Level::Warn,
                "LOCAL override `"@ + key + " = "@ + v.1 + "` in a human-used clone — this changes how the HUMAN's commits here behave."@,
                Some(SEPARATE_FIX@),
            )]
        } else {
            seq![]
        },
        None => seq![],
    }
}

pub open spec fn scope_findings(agent: bool, cfg: ScopedView) -> Seq<FindingView> {
    if agent {
        seq![key_finding(signing_on(cfg.gpgsign), cfg.signingkey)] + email_findings(cfg.email)
    } else {
        override_findings("commit.gpgsign"@, cfg.gpgsign) + override_findings("user.signingkey"@, cfg.signingkey)
            + override_findings("user.email"@, cfg.email) + seq![fv(Level::Info, NO_DIRECT@, None)]
    }
}

/// Only a confirmed public hub is a warning.
pub open spec fn visibility_findings(url: Option<Seq<char>>, vis: Visibility) -> Seq<FindingView> {
    match vis {
        Visibility::Public => seq![fv(
            Level::Warn,
            "the hub remote appears PUBLIC (anonymously readable): "@ + (match url {
                Some(u) => u,
                None => "origin"@,
            }) + PUBLIC_TAIL@,
            Some(PUBLIC_FIX@),
        )],
        Visibility::Private => seq![fv(Level::Okay, PRIVATE_HUB@, None)],
        Visibility::Unknown => seq![fv(Level::Info, UNKNOWN_HUB@, None)],
        Visibility::NotApplicable => seq![],
    }
}

/// The whole audit, in report order.
pub open spec fn audit_spec(agent: bool, cfg: ScopedView, url: Option<Seq<char>>, vis: Visibility) -> Seq<FindingView> {
    seq![fv(Level::Info, if agent { AGENT_CLONE@ } else { HUMAN_CLONE@ }, None)]
        + signer_findings(agent, signing_on(cfg.gpgsign), cfg.program)
        + scope_findings(agent, cfg)
        + visibility_findings(url, vis)
        + seq![fv(Level::Info, LOCAL_ONLY@, None)]
}

fn lit(s: &str) -> (r: String)
    ensures
        r@ == s@,
{
    s.to_owned()
}

fn is_true(g: &Option<(Scope, String)>) -> (b: bool)
    ensures
        b == signing_on(cfg_view(*g)),
{
    match g {
        Some((_, v)) => {
            let c = chars_of(v.as_str());
            str_is(c.as_slice(), "true")
        },
        None => false,
    }
}

fn push_finding(f: &mut Vec<Finding>, level: Level, title: String, fix: Option<String>)
    ensures
        findings_view(final(f)@) == findings_view(old(f)@).push(fv(level, title@, opt_str(fix))),
{
    f.push(Finding { level, title, fix });
    assert(findings_view(f@) =~= findings_view(old(f)@).push(fv(level, title@, opt_str(fix))));
}

fn push_signer(f: &mut Vec<Finding>, agent: bool, on: bool, program: &Option<(Scope, String)>)
    ensures
        findings_view(final(f)@) == findings_view(old(f)@) + signer_findings(agent, on, cfg_view(*program)),
{
    if let Some((scope, prog)) = program {
        if is_interactive_signer(prog.as_str()) {
            let mut t = String::new();
            t.append("gpg.ssh.program (");
            t.append(scope.label());
            t.append(") is an interactive signer (");
            t.append(prog.as_str());
            t.append(") — it prompts/blocks in a headless agent.");
            let level = if agent && on { Level::Warn } else { Level::Info };
            let fix = if agent { Some(lit(OWN_KEY_FIX)) } else { None };
            push_finding(f, level, t, fix);
            assert(t@ =~= signer_title(*scope, prog@));
            return;
        }
    }
    assert(findings_view(f@) =~= findings_view(old(f)@) + signer_findings(agent, on, cfg_view(*program)));
}

fn push_agent_scope(f: &mut Vec<Finding>, on: bool, cfg: &ScopedConfig)
    requires
        on == signing_on(cfg@.gpgsign),
    ensures
        findings_view(final(f)@) == findings_view(old(f)@) + scope_findings(true, cfg@),
{
    let ghost start = findings_view(f@);
    match &cfg.signingkey {
        Some((scope, _)) => {
            if *scope == Scope::Local {
                if on {
                    push_finding(f, Level::Okay, lit(LOCAL_KEY), None);
                } else {
                    push_finding(f, Level::Warn, lit(SIGNING_OFF), Some(lit(TURN_ON_FIX)));
                }
            } else {
                let mut t = String::new();
                t.append("user.signingkey is inherited from ");
                t.append(scope.label());
                t.append(" config — this agent would sign with the HUMAN's key.");
                assert(t@ =~= "user.signingkey is inherited from "@ + label_spec(*scope)
                    + " config — this agent would sign with the HUMAN's key."@);
                push_finding(f, Level::Warn, t, Some(lit(ADOPT_FIX)));
            }
        },
        None => {
            push_finding(f, Level::Info, lit(NO_KEY), Some(lit(ADOPT_FIX)));
        },
    }
    let ghost mid = findings_view(f@);
    assert(mid =~= start.push(key_finding(on, cfg@.signingkey)));
    if let Some((scope, mail)) = &cfg.email {
        if *scope != Scope::Local {
            let mut t = String::new();
            t.append("user.email (");
            t.append(mail.as_str());
            t.append(") comes from ");
            t.append(scope.label());
            t.append(" config — agent commits are attributed to the human, not the role.");
            assert(t@ =~= "user.email ("@ + mail@ + ") comes from "@ + label_spec(*scope)
                + " config — agent commits are attributed to the human, not the role."@);
            push_finding(f, Level::Warn, t, Some(lit(EMAIL_FIX)));
        }
    }
    assert(findings_view(f@) =~= findings_view(old(f)@) + scope_findings(true, cfg@));
}

fn push_override(f: &mut Vec<Finding>, key: &str, val: &Option<(Scope, String)>)
    ensures
        findings_view(final(f)@) == findings_view(old(f)@) + override_findings(key@, cfg_view(*val)),
{
    if let Some((scope, v)) = val {
        if *scope == Scope::Local {
            let mut t = String::new();
            t.append("LOCAL override `");
            t.append(key);
            t.append(" = ");
            t.append(v.as_str());
            t.append("` in a human-used clone — this changes how the HUMAN's commits here behave.");
            push_finding(f, Level::Warn, t, Some(lit(SEPARATE_FIX)));
            return;
        }
    }
    assert(findings_view(f@) =~= findings_view(old(f)@) + override_findings(key@, cfg_view(*val)));
}

fn push_human_scope(f: &mut Vec<Finding>, cfg: &ScopedConfig)
    ensures
        findings_view(final(f)@) == findings_view(old(f)@) + scope_findings(false, cfg@),
{
    push_override(f, "commit.gpgsign", &cfg.gpgsign);
    push_override(f, "user.signingkey", &cfg.signingkey);
    push_override(f, "user.email", &cfg.email);
    push_finding(f, Level::Info, lit(NO_DIRECT), None);
    assert(findings_view(f@) =~= findings_view(old(f)@) + scope_findings(false, cfg@));
}

fn push_visibility(f: &mut Vec<Finding>, url: &Option<String>, vis: Visibility)
    ensures
        findings_view(final(f)@) == findings_view(old(f)@) + visibility_findings(opt_str(*url), vis),
{
    match vis {
        Visibility::Public => {
            let mut t = String::new();
            t.append("the hub remote appears PUBLIC (anonymously readable): ");
            match url {
                Some(u) => t.append(u.as_str()),
                None => t.append("origin"),
            }
            t.append(PUBLIC_TAIL);
            push_finding(f, Level::Warn, t, Some(lit(PUBLIC_FIX)));
        },
        Visibility::Private => push_finding(f, Level::Okay, lit(PRIVATE_HUB), None),
        Visibility::Unknown => push_finding(f, Level::Info, lit(UNKNOWN_HUB), None),
        Visibility::NotApplicable => {},
    }
    assert(findings_view(f@) =~= findings_view(old(f)@) + visibility_findings(opt_str(*url), vis));
}

/// The audit of a clone. `agent_clone` says whether the clone carries an agent identity
/// (`.confer/identity.json`); `cfg` where the identity and signing keys are set; `url` and
/// `vis` the hub's origin and how an anonymous probe of it answered.
pub fn audit(agent_clone: bool, cfg: &ScopedConfig, url: &Option<String>, vis: Visibility) -> (f: Vec<Finding>)
    ensures
        findings_view(f@) == audit_spec(agent_clone, cfg@, opt_str(*url), vis),
{
    let mut f: Vec<Finding> = Vec::new();
    let title = if agent_clone { lit(AGENT_CLONE) } else { lit(HUMAN_CLONE) };
    push_finding(&mut f, Level::Info, title, None);
    let on = is_true(&cfg.gpgsign);
    push_signer(&mut f, agent_clone, on, &cfg.program);
    if agent_clone {
        push_agent_scope(&mut f, on, cfg);
    } else {
        push_human_scope(&mut f, cfg);
    }
    push_visibility(&mut f, url, vis);
    push_finding(&mut f, Level::Info, lit(LOCAL_ONLY), None);
    assert(findings_view(f@) =~= audit_spec(agent_clone, cfg@, opt_str(*url), vis));
    f
}

// ---------------------------------------------------------------- repairs

pub const FIX_NOTE: &'static str = "enabled commit signing with the on-disk agent key (gpg.format=ssh, ssh-keygen program, commit.gpgsign=true) — this clone's messages were going out UNSIGNED/unverifiable";

/// The repairs to apply: local `git config` writes, in order, and what each set of writes did.
pub struct FixPlan {
    pub writes: Vec<(String, String)>,
    pub applied: Vec<String>,
}

/// An agent clone that has a signing key but is not signing (signing off, or an interactive
/// signer that blocks) gets non-interactive ssh signing with that key. A human-used clone, or
/// one without a key, is never touched.
pub open spec fn fix_needed(agent: bool, cfg: ScopedView) -> bool {
    &&& agent
    &&& cfg.signingkey is Some
    &&& (!signing_on(cfg.gpgsign) || (cfg.program matches Some(p) && names_interactive(lowercase(p.1))))
}

pub open spec fn fix_writes(ssh_keygen: Seq<char>) -> Seq<(Seq<char>, Seq<char>)> {
    seq![("gpg.format"@, "ssh"@), ("gpg.ssh.program"@, ssh_keygen), ("commit.gpgsign"@, "true"@)]
}

pub open spec fn writes_view(w: Seq<(String, String)>) -> Seq<(Seq<char>, Seq<char>)> {
    w.map_values(|p: (String, String)| (p.0@, p.1@))
}

/// The repairs for a clone (`agent_clone` and `cfg` as for `audit`), signing with the program
/// `ssh_keygen`.
pub fn fix(agent_clone: bool, cfg: &ScopedConfig, ssh_keygen: &str) -> (plan: FixPlan)
    ensures
        fix_needed(agent_clone, cfg@) ==> writes_view(plan.writes@) == fix_writes(ssh_keygen@)
            && strs(plan.applied@) == seq![FIX_NOTE@],
        !fix_needed(agent_clone, cfg@) ==> plan.writes@.len() == 0 && plan.applied@.len() == 0,
{
    let mut plan = FixPlan { writes: Vec::new(), applied: Vec::new() };
    if !agent_clone || cfg.signingkey.is_none() {
        return plan;
    }
    let signing_off = !is_true(&cfg.gpgsign);
    let interactive = match &cfg.program {
        Some((_, p)) => is_interactive_signer(p.as_str()),
        None => false,
    };
    if signing_off || interactive {
        plan.writes.push((lit("gpg.format"), lit("ssh")));
        plan.writes.push((lit("gpg.ssh.program"), lit(ssh_keygen)));
        plan.writes.push((lit("commit.gpgsign"), lit("true")));
        plan.applied.push(lit(FIX_NOTE));
        assert(writes_view(plan.writes@) =~= fix_writes(ssh_keygen@));
        assert(strs(plan.applied@) =~= seq![FIX_NOTE@]);
    }
    plan
}

// ---------------------------------------------------------------- the report

pub const REPORT_HEADER: &'static str = "confer doctor — health & identity audit\n";

pub open spec fn finding_text(f: FindingView) -> Seq<char> {
    "  "@ + glyph_spec(f.level) + " "@ + f.title + "\n"@ + match f.fix {
        Some(x) => "      → "@ + x + "\n"@,
        None => Seq::<char>::empty(),
    }
}

pub open spec fn findings_text(fs: Seq<FindingView>) -> Seq<char>
    decreases fs.len(),
{
    if fs.len() == 0 {
        Seq::empty()
    } else {
        findings_text(fs.drop_last()) + finding_text(fs.last())
    }
}

pub open spec fn warn_count(fs: Seq<FindingView>) -> nat
    decreases fs.len(),
{
    if fs.len() == 0 {
        0
    } else {
        warn_count(fs.drop_last()) + if fs.last().level == Level::Warn { 1nat } else { 0nat }
    }
}

/// The report: a header, each finding with its fix, and how many warnings need addressing.
pub open spec fn render_spec(fs: Seq<FindingView>) -> Seq<char> {
    REPORT_HEADER@ + findings_text(fs) + if warn_count(fs) == 0 {
        "\nNo scope conflicts found.\n"@
    } else {
        "\n"@ + dec(warn_count(fs)) + " thing(s) to address above.\n"@
    }
}

fn finding_line(f: &Finding) -> (s: String)
    ensures
        s@ == finding_text(f@),
{
    let mut out = String::new();
    out.append("  ");
    out.append(f.level.glyph());
    out.append(" ");
    out.append(f.title.as_str());
    out.append("\n");
    if let Some(fix) = &f.fix {
        out.append("      → ");
        out.append(fix.as_str());
        out.append("\n");
    }
    assert(out@ =~= finding_text(f@));
    out
}

/// Render an audit as a human-readable report.
pub fn render(findings: &Vec<Finding>) -> (out: String)
    requires
        findings@.len() < u64::MAX,
    ensures
        out@ == render_spec(findings_view(findings@)),
{
    let ghost fs = findings_view(findings@);
    let mut out = String::new();
    out.append(REPORT_HEADER);
    let mut warns: u64 = 0;
    let mut i: usize = 0;
    while i < findings.len()
        invariant
            0 <= i <= findings@.len(),
            findings@.len() < u64::MAX,
            fs == findings_view(findings@),
            out@ == REPORT_HEADER@ + findings_text(fs.take(i as int)),
            warns == warn_count(fs.take(i as int)),
            warns <= i,
        decreases findings@.len() - i,
    {
        let f = &findings[i];
        let line = finding_line(f);
        out.append(line.as_str());
        if f.level == Level::Warn {
            warns = warns + 1;
        }
        assert(fs.take(i + 1).drop_last() =~= fs.take(i as int));
        assert(fs.take(i + 1).last() == f@);
        assert(out@ =~= REPORT_HEADER@ + findings_text(fs.take(i + 1)));
        i += 1;
    }
    assert(fs.take(findings@.len() as int) =~= fs);
    if warns == 0 {
        out.append("\nNo scope conflicts found.\n");
    } else {
        out.append("\n");
        let d = decimal_u64(warns);
        let ds = string_of(d.as_slice());
        out.append(ds.as_str());
        out.append(" thing(s) to address above.\n");
    }
    out
}

// ---------------------------------------------------------------- what the audit promises

/// The audit speaks up for the hazards it exists for: an agent clone that signs through an
/// interactive program is warned about (it would hang headless), a confirmed public hub is
/// warned about, and it always states that it never writes global config.
pub proof fn audit_flags_the_hazards(agent: bool, cfg: ScopedView, url: Option<Seq<char>>, vis: Visibility)
    ensures
        ({
            let fs = audit_spec(agent, cfg, url, vis);
            &&& (agent && signing_on(cfg.gpgsign) && cfg.program is Some && names_interactive(lowercase((cfg.program->0).1)))
                ==> exists|i: int| 0 <= i < fs.len() && (#[trigger] fs[i]).level == Level::Warn
                    && fs[i].title == signer_title((cfg.program->0).0, (cfg.program->0).1)
            &&& vis == Visibility::Public ==> fs.contains(visibility_findings(url, vis)[0])
                && visibility_findings(url, vis)[0].level == Level::Warn
            &&& fs.last() == fv(Level::Info, LOCAL_ONLY@, None)
            &&& fs[0].level == Level::Info
        }),
{
    let fs = audit_spec(agent, cfg, url, vis);
    let a = seq![fv(Level::Info, if agent { AGENT_CLONE@ } else { HUMAN_CLONE@ }, None)];
    let b = signer_findings(agent, signing_on(cfg.gpgsign), cfg.program);
    let c = scope_findings(agent, cfg);
    let d = visibility_findings(url, vis);
    if agent && signing_on(cfg.gpgsign) && cfg.program is Some && names_interactive(lowercase((cfg.program->0).1)) {
        assert(fs[1] == b[0]);
    }
    if vis == Visibility::Public {
        assert(fs[(a.len() + b.len() + c.len()) as int] == d[0]);
    }
}

/// An agent clone with its own (local) signing key signs only when `commit.gpgsign` is
/// `true`: otherwise its messages go out unsigned, which the audit warns about — with the fix
/// that turns signing on — and it never reports the key as fine. With signing on, the key is
/// reported as fine.
pub proof fn a_local_key_must_sign(cfg: ScopedView, url: Option<Seq<char>>, vis: Visibility)
    requires
        cfg.signingkey matches Some(k) && k.0 == Scope::Local,
    ensures
        ({
            let fs = audit_spec(true, cfg, url, vis);
            let on = cfg.gpgsign matches Some(g) && g.1 == "true"@;
            &&& !on ==> fs.contains(fv(Level::Warn, SIGNING_OFF@, Some(TURN_ON_FIX@)))
            &&& !on ==> forall|i: int| 0 <= i < fs.len() && (#[trigger] fs[i]).level == Level::Okay ==> fs[i].title != LOCAL_KEY@
            &&& on ==> fs.contains(fv(Level::Okay, LOCAL_KEY@, None))
        }),
{
    let fs = audit_spec(true, cfg, url, vis);
    let a = seq![fv(Level::Info, AGENT_CLONE@, None)];
    let b = signer_findings(true, signing_on(cfg.gpgsign), cfg.program);
    let c = scope_findings(true, cfg);
    let d = visibility_findings(url, vis);
    let z = seq![fv(Level::Info, LOCAL_ONLY@, None)];
    assert(fs =~= a + b + c + d + z);
    let k = (a.len() + b.len()) as int;
    assert(fs[k] == c[0]);
    reveal_strlit("The hub remote is not anonymously readable (appears private).");
    reveal_strlit("Signs with a LOCAL signing key (agent-scoped, not the human's).");
    reveal_strlit("A LOCAL signing key is set but commit.gpgsign is OFF — this agent's messages go out UNSIGNED and peers can't verify them.");
    assert(PRIVATE_HUB@[0] != LOCAL_KEY@[0]);
    assert forall|i: int| 0 <= i < fs.len() && (#[trigger] fs[i]).level == Level::Okay implies fs[i].title
        != LOCAL_KEY@ || signing_on(cfg.gpgsign) by {
        if !signing_on(cfg.gpgsign) {
            if i < a.len() {
                assert(fs[i] == a[i]);
            } else if i < a.len() + b.len() {
                assert(fs[i] == b[i - a.len()]);
            } else if i < a.len() + b.len() + c.len() {
                assert(fs[i] == c[i - a.len() - b.len()]);
                if i > k {
                    let j = i - k;
                    assert(c[j] == email_findings(cfg.email)[j - 1]);
                }
            } else if i < a.len() + b.len() + c.len() + d.len() {
                assert(fs[i] == d[i - a.len() - b.len() - c.len()]);
                if fs[i].title == LOCAL_KEY@ {
                    assert(fs[i].title == PRIVATE_HUB@);
                }
            } else {
                assert(fs[i] == z[i - a.len() - b.len() - c.len() - d.len()]);
            }
        }
    }
    assert(fs.contains(fs[k]));
}

/// An agent clone whose signing key comes from outside the clone (it would sign with the
/// human's key) is warned about, with the fix that adopts a key of its own; one with no key
/// at all is told to adopt one.
pub proof fn an_agent_needs_its_own_key(cfg: ScopedView, url: Option<Seq<char>>, vis: Visibility)
    ensures
        ({
            let fs = audit_spec(true, cfg, url, vis);
            &&& (cfg.signingkey matches Some(k) && k.0 != Scope::Local) ==> fs.contains(fv(
                Level::Warn,
                "user.signingkey is inherited from "@ + label_spec((cfg.signingkey->0).0)
                    + " config — this agent would sign with the HUMAN's key."@,
                Some(ADOPT_FIX@),
            ))
            &&& cfg.signingkey is None ==> fs.contains(fv(Level::Info, NO_KEY@, Some(ADOPT_FIX@)))
        }),
{
    let fs = audit_spec(true, cfg, url, vis);
    let a = seq![fv(Level::Info, AGENT_CLONE@, None)];
    let b = signer_findings(true, signing_on(cfg.gpgsign), cfg.program);
    let c = scope_findings(true, cfg);
    let d = visibility_findings(url, vis);
    let z = seq![fv(Level::Info, LOCAL_ONLY@, None)];
    assert(fs =~= a + b + c + d + z);
    let k = (a.len() + b.len()) as int;
    assert(fs[k] == c[0]);
    assert(fs.contains(fs[k]));
}

/// A human-used clone is never repaired, and a repair never happens without a signing key.
pub proof fn fix_never_touches_a_human_clone(cfg: ScopedView)
    ensures
        !fix_needed(false, cfg),
        cfg.signingkey is None ==> !fix_needed(true, cfg),
{
}


/// Whether the audit found anything to fix (a warning); `doctor --json` reports the audit as
/// passing only without one.
pub fn has_warning(findings: &Vec<Finding>) -> (r: bool)
    ensures
        r == (warn_count(findings_view(findings@)) > 0),
{
    let ghost fs = findings_view(findings@);
    let mut i: usize = 0;
    while i < findings.len()
        invariant
            0 <= i <= findings@.len(),
            fs == findings_view(findings@),
            warn_count(fs.take(i as int)) == 0,
        decreases findings@.len() - i,
    {
        assert(fs.take(i + 1).drop_last() =~= fs.take(i as int));
        if findings[i].level == Level::Warn {
            proof {
                lemma_warn_count_prefix(fs, i + 1);
            }
            return true;
        }
        i += 1;
    }
    assert(fs.take(findings@.len() as int) =~= fs);
    false
}

/// A warning among the first `n` findings is counted in the whole list.
proof fn lemma_warn_count_prefix(fs: Seq<FindingView>, n: int)
    requires
        0 <= n <= fs.len(),
    ensures
        warn_count(fs.take(n)) <= warn_count(fs),
    decreases fs.len() - n,
{
    if n < fs.len() {
        lemma_warn_count_prefix(fs, n + 1);
        assert(fs.take(n + 1).drop_last() =~= fs.take(n));
    } else {
        assert(fs.take(n) =~= fs);
    }
}

} // verus!
