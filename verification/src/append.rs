//! Posting a message: code-reference and line-range parsing, how a pinned reference was
//! reached, the write-time integrity gate over `git diff -U0` hunks, and the checks a new
//! message must pass before it is written. Git, the store and the terminal are outside.
use vstd::prelude::*;
use crate::text::opt_str;
use crate::text::strs;
use crate::text::{chars_of, string_of, slice, index_of, first_index_of, parse_u64, parse_u64_spec, trimmed, trim, is_ascii_lower, is_ascii_digit, is_ascii_hex, ascii_hex, is_prefix, starts_with, find, first_occurrence};

verus! {

// ---------------------------------------------------------------- names

/// A slug: `[a-z0-9][a-z0-9-]*`, at most 64 characters.
pub open spec fn slug_ok(s: Seq<char>) -> bool {
    &&& 0 < s.len() <= 64
    &&& (is_ascii_lower(s[0]) || is_ascii_digit(s[0]))
    &&& forall|i: int| 0 <= i < s.len() ==> is_ascii_lower(#[trigger] s[i]) || is_ascii_digit(s[i]) || s[i] == '-'
}

/// Does `s` match the slug rule (role ids, topics, repo keys)?
pub fn valid_slug(s: &str) -> (b: bool)
    ensures
        b == slug_ok(s@),
{
    let c = chars_of(s);
    if c.len() == 0 || c.len() > 64 {
        return false;
    }
    if !((c[0] >= 'a' && c[0] <= 'z') || (c[0] >= '0' && c[0] <= '9')) {
        return false;
    }
    let mut i: usize = 0;
    while i < c.len()
        invariant
            0 <= i <= c@.len(),
            c@ == s@,
            forall|k: int| 0 <= k < i ==> is_ascii_lower(#[trigger] c@[k]) || is_ascii_digit(c@[k]) || c@[k] == '-',
        decreases c@.len() - i,
    {
        let x = c[i];
        if !((x >= 'a' && x <= 'z') || (x >= '0' && x <= '9') || x == '-') {
            return false;
        }
        i += 1;
    }
    true
}

/// `all` is the broadcast target and cannot name a role or topic.
pub open spec fn reserved(s: Seq<char>) -> bool {
    s == "all"@
}

pub fn is_reserved_name(s: &str) -> (b: bool)
    ensures
        b == reserved(s@),
{
    let c = chars_of(s);
    let a = chars_of("all");
    crate::text::same(c.as_slice(), a.as_slice())
}

/// `char::is_control`: the C0 and C1 control characters.
pub open spec fn control(c: char) -> bool {
    (c as u32) <= 0x1f || (0x7f <= (c as u32) && (c as u32) <= 0x9f)
}

pub fn is_control(c: char) -> (b: bool)
    ensures
        b == control(c),
{
    let u = c as u32;
    u <= 0x1f || (0x7f <= u && u <= 0x9f)
}

pub open spec fn has_control(s: Seq<char>) -> bool {
    exists|i: int| 0 <= i < s.len() && control(#[trigger] s[i])
}

fn any_control(s: &[char]) -> (b: bool)
    ensures
        b == has_control(s@),
{
    let mut i: usize = 0;
    while i < s.len()
        invariant
            0 <= i <= s@.len(),
            forall|k: int| 0 <= k < i ==> !control(#[trigger] s@[k]),
        decreases s@.len() - i,
    {
        if is_control(s[i]) {
            assert(control(s@[i as int]));
            return true;
        }
        i += 1;
    }
    false
}

// ---------------------------------------------------------------- line ranges

/// `str::trim_start_matches` with a char: drop every leading `c`.
pub open spec fn skip_leading(s: Seq<char>, c: char) -> Seq<char>
    decreases s.len(),
{
    if s.len() > 0 && s[0] == c {
        skip_leading(s.drop_first(), c)
    } else {
        s
    }
}

fn skip_leading_exec(s: &[char], c: char) -> (r: Vec<char>)
    ensures
        r@ == skip_leading(s@, c),
{
    let mut i: usize = 0;
    assert(s@.skip(0) =~= s@);
    while i < s.len() && s[i] == c
        invariant
            0 <= i <= s@.len(),
            skip_leading(s@, c) == skip_leading(s@.skip(i as int), c),
        decreases s@.len() - i,
    {
        assert(s@.skip(i as int).drop_first() =~= s@.skip(i + 1));
        i += 1;
    }
    assert(s@.skip(i as int) =~= s@.subrange(i as int, s@.len() as int));
    slice(s, i, s.len())
}

/// A line span: `Lstart-Lend` (each `L` optional, any number of them) or a single `Ln` /
/// `n`, which is the range `[n, n]`. Each number is a `u64` as `str::parse` reads it.
pub open spec fn range_spec(span: Seq<char>) -> Option<(u64, u64)> {
    match first_index_of(span, '-') {
        Some(i) => {
            let a = parse_u64_spec(skip_leading(span.take(i), 'L'));
            let b = parse_u64_spec(skip_leading(span.skip(i + 1), 'L'));
            if a is Some && b is Some {
                Some((a->0, b->0))
            } else {
                None
            }
        },
        None => match parse_u64_spec(skip_leading(span, 'L')) {
            Some(n) => Some((n, n)),
            None => None,
        },
    }
}

/// Why a `--ref` or line range was refused.
#[derive(Clone, Copy, PartialEq, Eq, Structural, Debug)]
pub enum RefError {
    /// Not of the shape `repo:path[@sha][#Lstart-Lend]`.
    Shape,
    /// The line range is malformed or overflows.
    Range,
    /// The repo is not a slug.
    Repo,
    /// The path holds control characters.
    ControlInPath,
}
fn parse_bound(part: &[char]) -> (r: Option<u64>)
    ensures
        r == parse_u64_spec(skip_leading(part@, 'L')),
{
    let t = skip_leading_exec(part, 'L');
    parse_u64(t.as_slice())
}

fn split_at_char(s: &[char], c: char) -> (r: Option<(Vec<char>, Vec<char>)>)
    ensures
        match first_index_of(s@, c) {
            Some(i) => r matches Some(p) && p.0@ == s@.take(i) && p.1@ == s@.skip(i + 1),
            None => r is None,
        },
{
    let n = s.len();
    match index_of(s, c) {
        Some(i) => {
            let left = slice(s, 0, i);
            let right = slice(s, i + 1, s.len());
            assert(left@ =~= s@.take(i as int));
            assert(right@ =~= s@.skip(i + 1));
            Some((left, right))
        },
        None => None,
    }
}

/// The span's bounds, as a pair.
fn range_pair(s: &[char]) -> (r: Option<(u64, u64)>)
    ensures
        r == range_spec(s@),
{
    match split_at_char(s, '-') {
        Some((left, right)) => {
            let a = parse_bound(left.as_slice());
            let b = parse_bound(right.as_slice());
            match (a, b) {
                (Some(x), Some(y)) => Some((x, y)),
                _ => None,
            }
        },
        None => match parse_bound(s) {
            Some(n) => Some((n, n)),
            None => None,
        },
    }
}

/// Parse a line span into `[start, end]`.
pub fn parse_range(span: &str) -> (r: Result<[u64; 2], RefError>)
    ensures
        r is Ok <==> range_spec(span@) is Some,
        r matches Ok(a) ==> range_spec(span@) == Some((a[0], a[1])),
        r matches Err(e) ==> e == RefError::Range,
{
    let s = chars_of(span);
    match range_pair(s.as_slice()) {
        Some((a, b)) => {
            let out = [a, b];
            assert(out[0] == a && out[1] == b);
            Ok(out)
        },
        None => Err(RefError::Range),
    }
}

// ---------------------------------------------------------------- code references

/// A pointer into a repository: `repo:path@sha#Lstart-Lend`, with what pinning it captured.
pub struct CodeRef {
    pub repo: String,
    pub sha: String,
    pub path: String,
    pub range: Option<[u64; 2]>,
    pub content_hash: Option<String>,
    pub ref_name: Option<String>,
    pub ref_type: Option<String>,
    pub commit_date: Option<String>,
    pub dirty: bool,
    pub untracked: bool,
    pub rev: Option<String>,
    pub base_ref: Option<String>,
    pub fork_point: Option<String>,
    pub patch: bool,
    pub result_hash: Option<String>,
}

pub open spec fn opt_range(r: Option<[u64; 2]>) -> Option<(u64, u64)> {
    match r {
        Some(a) => Some((a[0], a[1])),
        None => None,
    }
}

/// The pieces of `repo:path[@sha][#span]`: the text up to the first `:` is the repo; after
/// it, the text from the first `#` is the span, and the rest splits at its first `@` into
/// path and sha (`HEAD` when absent).
pub open spec fn ref_parts(s: Seq<char>) -> Option<(Seq<char>, Seq<char>, Seq<char>, Option<Seq<char>>)> {
    match first_index_of(s, ':') {
        None => None,
        Some(c) => {
            let repo = s.take(c);
            let rest = s.skip(c + 1);
            let (before, span) = match first_index_of(rest, '#') {
                Some(h) => (rest.take(h), Some(rest.skip(h + 1))),
                None => (rest, None),
            };
            let (path, sha) = match first_index_of(before, '@') {
                Some(a) => (before.take(a), before.skip(a + 1)),
                None => (before, "HEAD"@),
            };
            Some((repo, path, sha, span))
        },
    }
}

/// What parsing a `--ref` token gives: its parts, or the first problem found, checked in the
/// order shape, range, emptiness, repo slug, control characters.
pub open spec fn parse_ref_spec(s: Seq<char>) -> Result<(Seq<char>, Seq<char>, Seq<char>, Option<(u64, u64)>), RefError> {
    match ref_parts(s) {
        None => Err(RefError::Shape),
        Some((repo, path, sha, span)) => {
            if span is Some && range_spec(span->0) is None {
                Err(RefError::Range)
            } else if repo.len() == 0 || path.len() == 0 {
                Err(RefError::Shape)
            } else if !slug_ok(repo) {
                Err(RefError::Repo)
            } else if has_control(path) {
                Err(RefError::ControlInPath)
            } else {
                Ok((repo, path, sha, match span {
                    Some(sp) => range_spec(sp),
                    None => None,
                }))
            }
        },
    }
}

/// The parsed reference carries exactly the token's repo, path, sha and range, and nothing
/// captured yet.
pub open spec fn fresh_ref(r: CodeRef, parts: (Seq<char>, Seq<char>, Seq<char>, Option<(u64, u64)>)) -> bool {
    &&& r.repo@ == parts.0
    &&& r.path@ == parts.1
    &&& r.sha@ == parts.2
    &&& opt_range(r.range) == parts.3
    &&& r.content_hash is None && r.ref_name is None && r.ref_type is None && r.commit_date is None
    &&& !r.dirty && !r.untracked && r.rev is None && r.base_ref is None && r.fork_point is None
    &&& !r.patch && r.result_hash is None
}

pub open spec fn opt_chars(v: Option<Vec<char>>) -> Option<Seq<char>> {
    match v {
        Some(x) => Some(x@),
        None => None,
    }
}

/// Split a reference token into repo, path, sha and span text.
fn ref_pieces(v: &[char]) -> (r: Option<(Vec<char>, Vec<char>, Vec<char>, Option<Vec<char>>)>)
    ensures
        match ref_parts(v@) {
            None => r is None,
            Some(p) => r matches Some(q) && q.0@ == p.0 && q.1@ == p.1 && q.2@ == p.2 && opt_chars(q.3) == p.3,
        },
{
    let (repo, rest) = match split_at_char(v, ':') {
        Some(p) => p,
        None => return None,
    };
    let (before, span) = match split_at_char(rest.as_slice(), '#') {
        Some((b, sp)) => (b, Some(sp)),
        None => (rest, None),
    };
    let (path, sha) = match split_at_char(before.as_slice(), '@') {
        Some((p, sh)) => (p, sh),
        None => (before, chars_of("HEAD")),
    };
    Some((repo, path, sha, span))
}

/// Parse a `--ref` token `repo:path[@sha][#Lstart-Lend]`.
pub fn parse_ref(s: &str) -> (r: Result<CodeRef, RefError>)
    ensures
        r is Ok <==> parse_ref_spec(s@) is Ok,
        r matches Ok(c) ==> fresh_ref(c, parse_ref_spec(s@)->Ok_0),
        r matches Err(e) ==> parse_ref_spec(s@) == Err::<(Seq<char>, Seq<char>, Seq<char>, Option<(u64, u64)>), RefError>(e),
{
    let v = chars_of(s);
    let (repo, path, sha, span) = match ref_pieces(v.as_slice()) {
        Some(p) => p,
        None => return Err(RefError::Shape),
    };
    let range = match span {
        Some(sp) => match range_pair(sp.as_slice()) {
            Some((a, b)) => {
                let out = [a, b];
                assert(out[0] == a && out[1] == b);
                Some(out)
            },
            None => return Err(RefError::Range),
        },
        None => None,
    };
    if repo.len() == 0 || path.len() == 0 {
        return Err(RefError::Shape);
    }
    let repo_s = string_of(repo.as_slice());
    if !valid_slug(repo_s.as_str()) {
        return Err(RefError::Repo);
    }
    if any_control(path.as_slice()) {
        return Err(RefError::ControlInPath);
    }
    Ok(CodeRef {
        repo: repo_s,
        sha: string_of(sha.as_slice()),
        path: string_of(path.as_slice()),
        range,
        content_hash: None,
        ref_name: None,
        ref_type: None,
        commit_date: None,
        dirty: false,
        untracked: false,
        rev: None,
        base_ref: None,
        fork_point: None,
        patch: false,
        result_hash: None,
    })
}

// ---------------------------------------------------------------- how a pin was reached

/// How the pinned commit was reached.
pub enum RefKind {
    Branch(String),
    Tag(String),
    Detached,
}

impl RefKind {
    /// Record the kind on a reference: its type (`branch`, `tag`, `detached`) and, for a
    /// branch or tag, its name. Nothing else changes.
    pub fn apply(self, r: &mut CodeRef)
        ensures
            final(r).repo == old(r).repo && final(r).sha == old(r).sha && final(r).path == old(r).path,
            final(r).range == old(r).range && final(r).content_hash == old(r).content_hash,
            final(r).commit_date == old(r).commit_date && final(r).dirty == old(r).dirty,
            final(r).untracked == old(r).untracked && final(r).rev == old(r).rev,
            final(r).base_ref == old(r).base_ref && final(r).fork_point == old(r).fork_point,
            final(r).patch == old(r).patch && final(r).result_hash == old(r).result_hash,
            match self {
                RefKind::Branch(n) => opt_str(final(r).ref_type) == Some("branch"@) && opt_str(final(r).ref_name) == Some(n@),
                RefKind::Tag(n) => opt_str(final(r).ref_type) == Some("tag"@) && opt_str(final(r).ref_name) == Some(n@),
                RefKind::Detached => opt_str(final(r).ref_type) == Some("detached"@) && final(r).ref_name is None,
            },
    {
        match self {
            RefKind::Branch(n) => {
                r.ref_type = Some("branch".to_owned());
                r.ref_name = Some(n);
            },
            RefKind::Tag(n) => {
                r.ref_type = Some("tag".to_owned());
                r.ref_name = Some(n);
            },
            RefKind::Detached => {
                r.ref_type = Some("detached".to_owned());
                r.ref_name = None;
            },
        }
    }
}

pub open spec fn all_hex(s: Seq<char>) -> bool {
    forall|i: int| 0 <= i < s.len() ==> is_ascii_hex(#[trigger] s[i])
}

fn hex_only(s: &[char]) -> (b: bool)
    ensures
        b == all_hex(s@),
{
    let mut i: usize = 0;
    while i < s.len()
        invariant
            0 <= i <= s@.len(),
            forall|k: int| 0 <= k < i ==> is_ascii_hex(#[trigger] s@[k]),
        decreases s@.len() - i,
    {
        if !ascii_hex(s[i]) {
            assert(!is_ascii_hex(s@[i as int]));
            return false;
        }
        i += 1;
    }
    true
}

/// A full SHA-1 or SHA-256 object id: 40 or 64 hex digits.
pub fn is_full_hex(s: &str) -> (b: bool)
    ensures
        b == ((s@.len() == 40 || s@.len() == 64) && all_hex(s@)),
{
    let c = chars_of(s);
    (c.len() == 40 || c.len() == 64) && hex_only(c.as_slice())
}

/// A short or full hex-looking token (at least 4 hex digits): "you typed a sha".
pub fn looks_like_hex(s: &str) -> (b: bool)
    ensures
        b == (s@.len() >= 4 && all_hex(s@)),
{
    let c = chars_of(s);
    c.len() >= 4 && hex_only(c.as_slice())
}

/// A non-empty name.
pub open spec fn named(o: Option<String>) -> bool {
    o is Some && (o->0)@.len() > 0
}

/// An implicit `HEAD` pin: the checked-out branch (`branch`, the trimmed name git gave, if
/// any), else an exact tag at `HEAD` (`tag`), else detached.
pub fn classify_implicit_head(branch: Option<String>, tag: Option<String>) -> (k: RefKind)
    ensures
        match k {
            RefKind::Branch(n) => named(branch) && n@ == (branch->0)@,
            RefKind::Tag(n) => !named(branch) && named(tag) && n@ == (tag->0)@,
            RefKind::Detached => !named(branch) && !named(tag),
        },
{
    if let Some(b) = branch {
        if !b.as_str().is_empty() {
            return RefKind::Branch(b);
        }
    }
    if let Some(t) = tag {
        if !t.as_str().is_empty() {
            return RefKind::Tag(t);
        }
    }
    RefKind::Detached
}

/// An explicit `@token` pin: a hex-looking token is detached whatever its name; otherwise a
/// branch when `refs/heads/<token>` exists (`is_branch`), else a tag when `refs/tags/<token>`
/// exists (`is_tag`), else detached.
pub fn classify_explicit(token: &str, is_branch: bool, is_tag: bool) -> (k: RefKind)
    ensures
        match k {
            RefKind::Branch(n) => !(token@.len() >= 4 && all_hex(token@)) && is_branch && n@ == token@,
            RefKind::Tag(n) => !(token@.len() >= 4 && all_hex(token@)) && !is_branch && is_tag && n@ == token@,
            RefKind::Detached => (token@.len() >= 4 && all_hex(token@)) || (!is_branch && !is_tag),
        },
{
    if looks_like_hex(token) {
        return RefKind::Detached;
    }
    if is_branch {
        return RefKind::Branch(token.to_owned());
    }
    if is_tag {
        return RefKind::Tag(token.to_owned());
    }
    RefKind::Detached
}

// ---------------------------------------------------------------- diff hunks

/// One `git diff -U0` hunk header `@@ -a[,b] +c[,d] @@`: the old length, and the new span.
#[derive(Clone, Copy, PartialEq, Eq, Structural, Debug)]
pub struct Hunk {
    pub old_len: u64,
    pub new_start: u64,
    pub new_len: u64,
}

/// A hunk side `a,b` (`a` alone means length 1).
pub open spec fn span_spec(s: Seq<char>) -> Option<(u64, u64)> {
    match first_index_of(s, ',') {
        Some(i) => {
            let a = parse_u64_spec(s.take(i));
            let b = parse_u64_spec(s.skip(i + 1));
            if a is Some && b is Some {
                Some((a->0, b->0))
            } else {
                None
            }
        },
        None => match parse_u64_spec(s) {
            Some(n) => Some((n, 1)),
            None => None,
        },
    }
}

/// The text between `@@ -` and the first ` @@` of a hunk header line.
pub open spec fn header_of(line: Seq<char>) -> Option<Seq<char>> {
    if !is_prefix("@@ -"@, line) {
        None
    } else {
        let rest = line.skip(4);
        match first_occurrence(rest, " @@"@) {
            None => None,
            Some(end) => Some(rest.take(end)),
        }
    }
}

/// The hunk of a header `a[,b] +c[,d]`.
pub open spec fn hunk_of_header(head: Seq<char>) -> Option<Hunk> {
    match first_occurrence(head, " +"@) {
        None => None,
        Some(k) => {
            let old = span_spec(head.take(k));
            let new = span_spec(head.skip(k + 2));
            if old is Some && new is Some {
                Some(Hunk { old_len: (old->0).1, new_start: (new->0).0, new_len: (new->0).1 })
            } else {
                None
            }
        },
    }
}

/// The hunk a diff line describes, if it is a well-formed hunk header.
pub open spec fn hunk_of(line: Seq<char>) -> Option<Hunk> {
    match header_of(line) {
        None => None,
        Some(head) => hunk_of_header(head),
    }
}

/// The hunks of the first `n` lines, skipping lines that are not hunk headers.
pub open spec fn hunks_of(ls: Seq<Seq<char>>, n: nat) -> Seq<Hunk>
    decreases n,
{
    if n == 0 {
        Seq::empty()
    } else {
        let r = hunks_of(ls, (n - 1) as nat);
        match hunk_of(ls[n - 1]) {
            Some(h) => r.push(h),
            None => r,
        }
    }
}

pub open spec fn parse_hunks_spec(diff: Seq<char>) -> Seq<Hunk> {
    hunks_of(crate::text::lines(diff), crate::text::lines(diff).len())
}

fn parse_span(s: &[char]) -> (r: Option<(u64, u64)>)
    ensures
        r == span_spec(s@),
{
    match split_at_char(s, ',') {
        Some((a, b)) => {
            match (parse_u64(a.as_slice()), parse_u64(b.as_slice())) {
                (Some(x), Some(y)) => Some((x, y)),
                _ => None,
            }
        },
        None => match parse_u64(s) {
            Some(n) => Some((n, 1)),
            None => None,
        },
    }
}

fn header_text(line: &[char]) -> (r: Option<Vec<char>>)
    ensures
        opt_chars(r) == header_of(line@),
{
    let at = chars_of("@@ -");
    proof {
        reveal_strlit("@@ -");
    }
    if !starts_with(line, at.as_slice()) {
        return None;
    }
    let rest = slice(line, 4, line.len());
    assert(rest@ =~= line@.skip(4));
    let close = chars_of(" @@");
    let end = match find(rest.as_slice(), close.as_slice()) {
        Some(e) => e,
        None => return None,
    };
    let head = slice(rest.as_slice(), 0, end);
    assert(head@ =~= rest@.take(end as int));
    Some(head)
}

#[verifier::rlimit(40)]
fn header_hunk(head: &[char]) -> (r: Option<Hunk>)
    ensures
        r == hunk_of_header(head@),
{
    let plus = chars_of(" +");
    proof {
        reveal_strlit(" +");
    }
    let n = head.len();
    let k = match find(head, plus.as_slice()) {
        Some(k) => k,
        None => return None,
    };
    assert(plus@.len() == 2);
    assert(k + 2 <= n);
    let old_side = slice(head, 0, k);
    let new_side = slice(head, k + 2, head.len());
    assert(old_side@ =~= head@.take(k as int));
    assert(new_side@ =~= head@.skip(k + 2));
    match (parse_span(old_side.as_slice()), parse_span(new_side.as_slice())) {
        (Some(o), Some(n)) => Some(Hunk { old_len: o.1, new_start: n.0, new_len: n.1 }),
        _ => None,
    }
}

fn parse_hunk_line(line: &[char]) -> (r: Option<Hunk>)
    ensures
        r == hunk_of(line@),
{
    match header_text(line) {
        Some(head) => header_hunk(head.as_slice()),
        None => None,
    }
}

/// The hunk headers of a `git diff -U0` output, in order; anything else is ignored.
#[verifier::rlimit(40)]
#[verifier::spinoff_prover]
pub fn parse_hunks(diff_text: &str) -> (out: Vec<Hunk>)
    ensures
        out@ == parse_hunks_spec(diff_text@),
{
    let s = chars_of(diff_text);
    let ls = crate::text::split_lines(s.as_slice());
    let mut out: Vec<Hunk> = Vec::new();
    let mut i: usize = 0;
    while i < ls.len()
        invariant
            0 <= i <= ls@.len(),
            crate::text::vv(ls@) == crate::text::lines(diff_text@),
            out@ == hunks_of(crate::text::lines(diff_text@), i as nat),
        decreases ls@.len() - i,
    {
        assert(crate::text::vv(ls@)[i as int] == ls@[i as int]@);
        match parse_hunk_line(ls[i].as_slice()) {
            Some(h) => out.push(h),
            None => {},
        }
        i += 1;
    }
    out
}

// ---------------------------------------------------------------- the integrity gate

/// The write-time integrity gate's verdict for one reference pinned at the current `HEAD`.
pub enum GateVerdict {
    /// Nothing to remap or refuse.
    Clean,
    /// Edits above the range shifted it; `range` is in the pinned blob's coordinates.
    Remapped { range: [u64; 2], note: String },
    /// The path is untracked (`ignored`: because `.gitignore` says so).
    Untracked { ignored: bool },
    /// The referenced content is not committed.
    Dirty { reason: String },
}

pub enum GateView {
    Clean,
    Remapped(u64, u64, Seq<char>),
    Untracked(bool),
    Dirty(Seq<char>),
}

pub open spec fn gate_view(v: GateVerdict) -> GateView {
    match v {
        GateVerdict::Clean => GateView::Clean,
        GateVerdict::Remapped { range, note } => GateView::Remapped(range[0], range[1], note@),
        GateVerdict::Untracked { ignored } => GateView::Untracked(ignored),
        GateVerdict::Dirty { reason } => GateView::Dirty(reason@),
    }
}

/// The last working-tree line a hunk covers (its start, for a pure deletion).
pub open spec fn new_end(h: Hunk) -> int {
    if h.new_len == 0 {
        h.new_start as int
    } else {
        h.new_start + h.new_len - 1
    }
}

/// The hunk changes lines inside `[s, e]`.
pub open spec fn overlaps(h: Hunk, s: u64, e: u64) -> bool {
    h.new_len > 0 && h.new_start <= e && new_end(h) >= s
}

/// Scanning the first `n` hunks in order: whether one overlaps `[s, e]` (scanning stops
/// there), and the net line shift `Σ(new_len − old_len)` of the hunks entirely above it.
pub open spec fn scan(hs: Seq<Hunk>, s: u64, e: u64, n: nat) -> (bool, int)
    decreases n,
{
    if n == 0 {
        (false, 0)
    } else {
        let (found, sh) = scan(hs, s, e, (n - 1) as nat);
        let h = hs[n - 1];
        if found {
            (true, sh)
        } else if overlaps(h, s, e) {
            (true, sh)
        } else if new_end(h) < s {
            (false, sh + h.new_len - h.old_len)
        } else {
            (false, sh)
        }
    }
}

pub open spec fn at_least_one(x: int) -> int {
    if x < 1 {
        1
    } else {
        x
    }
}

pub open spec fn dec(n: u64) -> Seq<char> {
    crate::text::dec(n as nat)
}

/// The verdict for the hunks of `git diff -U0 <pin> -- <path>` on a reference with line range
/// `range` (none for the whole file); `blob_lines` is the line count of the pinned blob.
pub open spec fn hunks_verdict(hs: Seq<Hunk>, range: Option<(u64, u64)>, blob_lines: Option<u64>) -> GateView {
    if hs.len() == 0 {
        if range is Some && blob_lines is Some && (range->0).1 > blob_lines->0 {
            GateView::Dirty(
                "those lines aren't committed yet (the pinned commit only has "@ + dec(blob_lines->0) + " lines)"@,
            )
        } else {
            GateView::Clean
        }
    } else {
        match range {
            None => GateView::Dirty("the file has uncommitted changes"@),
            Some((s, e)) => {
                let (found, sh) = scan(hs, s, e, hs.len());
                if found {
                    GateView::Dirty("uncommitted changes overlapping L"@ + dec(s) + "-"@ + dec(e))
                } else if sh != 0 {
                    let ns = at_least_one(s - sh) as u64;
                    let ne = at_least_one(e - sh) as u64;
                    GateView::Remapped(
                        ns,
                        ne,
                        "range remapped L"@ + dec(s) + "-"@ + dec(e) + " → L"@ + dec(ns) + "-"@ + dec(ne)
                            + ": uncommitted insertion above"@,
                    )
                } else {
                    GateView::Clean
                }
            },
        }
    }
}

/// The integrity check's arithmetic fits the integer types it uses: line numbers and
/// the running shift fit an `i64`, and no hunk ends past `u64::MAX`.
pub open spec fn gate_fits(hs: Seq<Hunk>, range: Option<(u64, u64)>) -> bool {
    &&& forall|k: int| 0 <= k < hs.len() ==> (#[trigger] hs[k]).new_len <= i64::MAX && hs[k].old_len <= i64::MAX
        && hs[k].new_start + hs[k].new_len <= u64::MAX
    &&& match range {
        None => true,
        Some((s, e)) => {
            &&& forall|k: nat| k <= hs.len() ==> i64::MIN <= #[trigger] scan(hs, s, e, k).1 <= i64::MAX
            &&& s <= i64::MAX && e <= i64::MAX
            &&& i64::MIN <= s - scan(hs, s, e, hs.len()).1 <= i64::MAX
            &&& i64::MIN <= e - scan(hs, s, e, hs.len()).1 <= i64::MAX
        },
    }
}

fn number(n: u64) -> (s: String)
    ensures
        s@ == dec(n),
{
    let d = crate::text::decimal_u64(n);
    string_of(d.as_slice())
}

/// The integrity verdict from the hunks of a pinned path's diff.
pub fn gate_on_hunks(hunks: &Vec<Hunk>, range: Option<[u64; 2]>, blob_lines: Option<u64>) -> (v: GateVerdict)
    requires
        gate_fits(hunks@, opt_range(range)),
    ensures
        gate_view(v) == hunks_verdict(hunks@, opt_range(range), blob_lines),
{
    if hunks.len() == 0 {
        if let (Some(r), Some(n)) = (range, blob_lines) {
            if r[1] > n {
                let mut reason = String::new();
                reason.append("those lines aren't committed yet (the pinned commit only has ");
                let ns = number(n);
                reason.append(ns.as_str());
                reason.append(" lines)");
                return GateVerdict::Dirty { reason };
            }
        }
        return GateVerdict::Clean;
    }
    let r = match range {
        None => return GateVerdict::Dirty { reason: "the file has uncommitted changes".to_owned() },
        Some(r) => r,
    };
    let s = r[0];
    let e = r[1];
    assert(opt_range(range) == Some((s, e)));
    let ghost hs = hunks@;
    let mut shift: i64 = 0;
    let mut i: usize = 0;
    while i < hunks.len()
        invariant
            0 <= i <= hunks@.len(),
            hs == hunks@,
            hs.len() > 0,
            opt_range(range) == Some((s, e)),
            gate_fits(hs, Some((s, e))),
            scan(hs, s, e, i as nat) == (false, shift as int),
        decreases hunks@.len() - i,
    {
        let h = hunks[i];
        assert(hs[i as int] == h);
        assert(h.new_len <= i64::MAX && h.old_len <= i64::MAX && h.new_start + h.new_len <= u64::MAX);
        let end = if h.new_len == 0 { h.new_start } else { h.new_start + h.new_len - 1 };
        if h.new_len > 0 && h.new_start <= e && end >= s {
            let mut reason = String::new();
            reason.append("uncommitted changes overlapping L");
            let a = number(s);
            reason.append(a.as_str());
            reason.append("-");
            let b = number(e);
            reason.append(b.as_str());
            assert(reason@ =~= "uncommitted changes overlapping L"@ + dec(s) + "-"@ + dec(e));
            assert(overlaps(hs[i as int], s, e));
            assert(scan(hs, s, e, (i + 1) as nat).0);
            proof {
                lemma_scan_stays_found(hs, s, e, (i + 1) as nat, hs.len());
            }
            return GateVerdict::Dirty { reason };
        }
        if end < s {
            assert(i64::MIN <= scan(hs, s, e, (i + 1) as nat).1 <= i64::MAX);
            shift = shift + (h.new_len as i64 - h.old_len as i64);
        }
        i += 1;
    }
    if shift != 0 {
        let ns0 = s as i64 - shift;
        let ne0 = e as i64 - shift;
        let ns: u64 = if ns0 < 1 { 1 } else { ns0 as u64 };
        let ne: u64 = if ne0 < 1 { 1 } else { ne0 as u64 };
        let mut note = String::new();
        note.append("range remapped L");
        let a = number(s);
        note.append(a.as_str());
        note.append("-");
        let b = number(e);
        note.append(b.as_str());
        note.append(" → L");
        let c = number(ns);
        note.append(c.as_str());
        note.append("-");
        let d = number(ne);
        note.append(d.as_str());
        note.append(": uncommitted insertion above");
        return GateVerdict::Remapped { range: [ns, ne], note };
    }
    GateVerdict::Clean
}

proof fn lemma_scan_stays_found(hs: Seq<Hunk>, s: u64, e: u64, k: nat, n: nat)
    requires
        k <= n,
        scan(hs, s, e, k).0,
    ensures
        scan(hs, s, e, n).0,
    decreases n - k,
{
    if k < n {
        lemma_scan_stays_found(hs, s, e, k + 1, n);
    }
}

/// The integrity gate for one reference pinned at the current `HEAD` commit: `is_tracked` and
/// `ignored` say how git knows the path; `diff` is the output of `git diff -U0 <pin> --
/// <path>` (none when the diff could not run, which does not block); `blob_lines` the
/// pinned blob's line count when known.
pub fn integrity_gate(is_tracked: bool, ignored: bool, diff: &Option<String>, range: Option<[u64; 2]>, blob_lines: Option<u64>) -> (v: GateVerdict)
    requires
        diff matches Some(d) ==> gate_fits(parse_hunks_spec(d@), opt_range(range)),
    ensures
        !is_tracked ==> gate_view(v) == GateView::Untracked(ignored),
        is_tracked && diff is None ==> gate_view(v) == GateView::Clean,
        is_tracked && diff is Some ==> gate_view(v) == hunks_verdict(parse_hunks_spec((diff->0)@), opt_range(range), blob_lines),
{
    if !is_tracked {
        return GateVerdict::Untracked { ignored };
    }
    match diff {
        None => GateVerdict::Clean,
        Some(d) => {
            let hunks = parse_hunks(d.as_str());
            gate_on_hunks(&hunks, range, blob_lines)
        },
    }
}

/// Every hunk's lengths fit an `i64` and it ends by `u64::MAX`.
pub open spec fn hunks_fit(hs: Seq<Hunk>) -> bool {
    forall|k: int| 0 <= k < hs.len() ==> (#[trigger] hs[k]).new_len <= i64::MAX && hs[k].old_len <= i64::MAX
        && hs[k].new_start + hs[k].new_len <= u64::MAX
}

/// Whether the integrity check's arithmetic fits its integer types (see [`gate_fits`]).
pub fn fits_gate(hunks: &Vec<Hunk>, range: Option<[u64; 2]>) -> (b: bool)
    ensures
        b == gate_fits(hunks@, opt_range(range)),
{
    let ghost hs = hunks@;
    let mut i: usize = 0;
    while i < hunks.len()
        invariant
            0 <= i <= hs.len(),
            hs == hunks@,
            forall|k: int| 0 <= k < i ==> (#[trigger] hs[k]).new_len <= i64::MAX && hs[k].old_len <= i64::MAX
                && hs[k].new_start + hs[k].new_len <= u64::MAX,
        decreases hs.len() - i,
    {
        let h = hunks[i];
        assert(hs[i as int] == h);
        if h.new_len > i64::MAX as u64 || h.old_len > i64::MAX as u64 || h.new_start > u64::MAX - h.new_len {
            return false;
        }
        i += 1;
    }
    assert(hunks_fit(hs));
    let r = match range {
        None => return true,
        Some(r) => r,
    };
    let s = r[0];
    let e = r[1];
    assert(opt_range(range) == Some((s, e)));
    if s > i64::MAX as u64 || e > i64::MAX as u64 {
        return false;
    }
    let mut found = false;
    let mut shift: i64 = 0;
    let mut j: usize = 0;
    while j < hunks.len()
        invariant
            0 <= j <= hs.len(),
            hs == hunks@,
            hunks_fit(hs),
            opt_range(range) == Some((s, e)),
            s <= i64::MAX && e <= i64::MAX,
            scan(hs, s, e, j as nat) == (found, shift as int),
            forall|k: nat| k <= j ==> i64::MIN <= #[trigger] scan(hs, s, e, k).1 <= i64::MAX,
        decreases hs.len() - j,
    {
        let h = hunks[j];
        assert(hs[j as int] == h);
        let end = if h.new_len == 0 { h.new_start } else { h.new_start + h.new_len - 1 };
        let over = h.new_len > 0 && h.new_start <= e && end >= s;
        if !found && !over && end < s {
            let next: i128 = shift as i128 + (h.new_len as i128 - h.old_len as i128);
            assert(scan(hs, s, e, (j + 1) as nat).1 == next);
            if next < i64::MIN as i128 || next > i64::MAX as i128 {
                assert(!(i64::MIN <= scan(hs, s, e, (j + 1) as nat).1 <= i64::MAX));
                assert(!gate_fits(hs, Some((s, e))));
                return false;
            }
            shift = next as i64;
        } else if !found && over {
            found = true;
        }
        assert(scan(hs, s, e, (j + 1) as nat) == (found, shift as int));
        j += 1;
    }
    let a: i128 = s as i128 - shift as i128;
    let b: i128 = e as i128 - shift as i128;
    a >= i64::MIN as i128 && a <= i64::MAX as i128 && b >= i64::MIN as i128 && b <= i64::MAX as i128
}

/// The integrity gate for any input: the verdict of [`integrity_gate`] when its arithmetic
/// fits, else a `Dirty` refusal, since changes that large cannot be checked.
pub fn integrity_gate_checked(is_tracked: bool, ignored: bool, diff: &Option<String>, range: Option<[u64; 2]>, blob_lines: Option<u64>) -> (v: GateVerdict)
    ensures
        !is_tracked ==> gate_view(v) == GateView::Untracked(ignored),
        is_tracked && diff is None ==> gate_view(v) == GateView::Clean,
        is_tracked && diff is Some && gate_fits(parse_hunks_spec((diff->0)@), opt_range(range)) ==> gate_view(v)
            == hunks_verdict(parse_hunks_spec((diff->0)@), opt_range(range), blob_lines),
        is_tracked && diff is Some && !gate_fits(parse_hunks_spec((diff->0)@), opt_range(range)) ==> gate_view(v)
            == GateView::Dirty(TOO_LARGE@),
{
    if !is_tracked {
        return GateVerdict::Untracked { ignored };
    }
    match diff {
        None => GateVerdict::Clean,
        Some(d) => {
            let hunks = parse_hunks(d.as_str());
            if fits_gate(&hunks, range) {
                gate_on_hunks(&hunks, range, blob_lines)
            } else {
                GateVerdict::Dirty { reason: TOO_LARGE.to_owned() }
            }
        },
    }
}

/// Why changes whose line arithmetic overflows are refused.
pub const TOO_LARGE: &'static str = "the uncommitted changes are too large to check";

/// The last new-side line a hunk touches; a pure deletion (no new lines) sits at its start.
pub open spec fn hunk_last_line(h: Hunk) -> int {
    if h.new_len == 0 { h.new_start as int } else { h.new_start + h.new_len - 1 }
}

/// The hunk changes a line of `[s, e]`.
pub open spec fn hunk_touches(h: Hunk, s: u64, e: u64) -> bool {
    h.new_len > 0 && h.new_start <= e && hunk_last_line(h) >= s
}

/// The net lines added above line `s`: `Σ(new_len − old_len)` over every hunk whose last
/// new-side line is above `s`, pure deletions included.
pub open spec fn shift_above(hs: Seq<Hunk>, s: u64) -> int
    decreases hs.len(),
{
    if hs.len() == 0 {
        0
    } else {
        let h = hs.last();
        shift_above(hs.drop_last(), s) + if hunk_last_line(h) < s { h.new_len - h.old_len } else { 0 }
    }
}

proof fn lemma_scan_without_overlap(hs: Seq<Hunk>, s: u64, e: u64, n: nat)
    requires
        n <= hs.len(),
        forall|k: int| 0 <= k < n ==> !hunk_touches(#[trigger] hs[k], s, e),
    ensures
        scan(hs, s, e, n) == (false, shift_above(hs.take(n as int), s)),
    decreases n,
{
    if n > 0 {
        lemma_scan_without_overlap(hs, s, e, (n - 1) as nat);
        assert(hs.take(n as int).drop_last() =~= hs.take(n - 1));
        assert(hs.take(n as int).last() == hs[n - 1]);
        assert(!hunk_touches(hs[n - 1], s, e));
    }
}

proof fn lemma_scan_finds_overlap(hs: Seq<Hunk>, s: u64, e: u64, n: nat, k: int)
    requires
        n <= hs.len(),
        0 <= k < n,
        hunk_touches(hs[k], s, e),
    ensures
        scan(hs, s, e, n).0,
    decreases n,
{
    if k < n - 1 {
        lemma_scan_finds_overlap(hs, s, e, (n - 1) as nat, k);
    }
}

/// The write-time gate on a line range `[s, e]` with uncommitted hunks: when a hunk changes a
/// line of the range the reference is refused; otherwise the range moves by the net lines
/// the hunks above it added — deletions above move it down, insertions up — and stays put
/// when they cancel out.
pub proof fn gate_follows_the_hunks_above(hs: Seq<Hunk>, s: u64, e: u64, blob_lines: Option<u64>)
    requires
        hs.len() > 0,
    ensures
        (exists|k: int| 0 <= k < hs.len() && hunk_touches(#[trigger] hs[k], s, e)) ==> hunks_verdict(
            hs,
            Some((s, e)),
            blob_lines,
        ) == GateView::Dirty("uncommitted changes overlapping L"@ + dec(s) + "-"@ + dec(e)),
        (forall|k: int| 0 <= k < hs.len() ==> !hunk_touches(#[trigger] hs[k], s, e)) ==> hunks_verdict(
            hs,
            Some((s, e)),
            blob_lines,
        ) == ({
            let d = shift_above(hs, s);
            let ns: u64 = (if s - d < 1 { 1 } else { s - d }) as u64;
            let ne: u64 = (if e - d < 1 { 1 } else { e - d }) as u64;
            if d == 0 {
                GateView::Clean
            } else {
                GateView::Remapped(
                    ns,
                    ne,
                    "range remapped L"@ + dec(s) + "-"@ + dec(e) + " → L"@ + dec(ns) + "-"@ + dec(ne)
                        + ": uncommitted insertion above"@,
                )
            }
        }),
{
    if exists|k: int| 0 <= k < hs.len() && hunk_touches(#[trigger] hs[k], s, e) {
        let k = choose|k: int| 0 <= k < hs.len() && hunk_touches(#[trigger] hs[k], s, e);
        lemma_scan_finds_overlap(hs, s, e, hs.len(), k);
    }
    if forall|k: int| 0 <= k < hs.len() ==> !hunk_touches(#[trigger] hs[k], s, e) {
        lemma_scan_without_overlap(hs, s, e, hs.len());
        assert(hs.take(hs.len() as int) =~= hs);
    }
}

// ---------------------------------------------------------------- addressing

/// The non-empty trimmed pieces among the first `k` of `ps`.
pub open spec fn kept_targets(ps: Seq<Seq<char>>, k: nat) -> Seq<Seq<char>>
    decreases k,
{
    if k == 0 {
        Seq::empty()
    } else {
        let r = kept_targets(ps, (k - 1) as nat);
        if trim(ps[k - 1]).len() > 0 {
            r.push(trim(ps[k - 1]))
        } else {
            r
        }
    }
}

pub open spec fn comma_targets(s: Seq<char>) -> Seq<Seq<char>> {
    kept_targets(crate::text::pieces(s, ','), crate::text::pieces(s, ',').len())
}

/// `--to a,b` is `--to a --to b`: every value split at commas, trimmed, empties dropped.
pub open spec fn split_targets(v: Seq<String>, n: nat) -> Seq<Seq<char>>
    decreases n,
{
    if n == 0 {
        Seq::empty()
    } else {
        split_targets(v, (n - 1) as nat) + comma_targets(v[n - 1]@)
    }
}

/// Split comma lists inside repeated `--to`/`--cc` values, trimming and dropping empties.
pub fn split_comma_targets(v: Vec<String>) -> (out: Vec<String>)
    ensures
        strs(out@) == split_targets(v@, v@.len()),
{
    let mut out: Vec<String> = Vec::new();
    let mut i: usize = 0;
    while i < v.len()
        invariant
            0 <= i <= v@.len(),
            strs(out@) == split_targets(v@, i as nat),
        decreases v@.len() - i,
    {
        let c = chars_of(v[i].as_str());
        let ps = crate::text::split_char(c.as_slice(), ',');
        let ghost base = strs(out@);
        let mut k: usize = 0;
        while k < ps.len()
            invariant
                0 <= k <= ps@.len(),
                i < v@.len(),
                crate::text::vv(ps@) == crate::text::pieces(v@[i as int]@, ','),
                base == split_targets(v@, i as nat),
                strs(out@) == base + kept_targets(crate::text::vv(ps@), k as nat),
            decreases ps@.len() - k,
        {
            let t = trimmed(ps[k].as_slice());
            assert(crate::text::vv(ps@)[k as int] == ps@[k as int]@);
            if t.len() > 0 {
                let ghost before = strs(out@);
                out.push(string_of(t.as_slice()));
                assert(strs(out@) =~= before.push(t@));
            }
            k += 1;
        }
        assert(strs(out@) =~= split_targets(v@, (i + 1) as nat));
        i += 1;
    }
    out
}

/// A message being addressed: the sender's role, where the sent-to message (`--of`) or the
/// replied-to message (`--reply-to`) came from and whom it addressed.
pub struct Prior {
    pub from: String,
    pub to: Vec<String>,
}

/// Who a message goes to when its sender named no one: a reply closing a request (`--of`,
/// any type but `request`) goes to the request's author; failing that, a reply with no `--cc`
/// goes to the author of the replied-to message — or, when that is the sender's own message,
/// to whoever it addressed other than the sender and `all`.
pub open spec fn audience_spec(msg_type: Seq<char>, to: Seq<Seq<char>>, cc_empty: bool, of: Option<Prior>, reply: Option<Prior>, role: Seq<char>) -> Seq<Seq<char>> {
    let to1 = if to.len() == 0 && msg_type != "request"@ && of is Some {
        seq![(of->0).from@]
    } else {
        to
    };
    if to1.len() == 0 && cc_empty && reply is Some {
        let orig = reply->0;
        if orig.from@ != role {
            seq![orig.from@]
        } else {
            strs(orig.to@).filter(|t: Seq<char>| t != role && !reserved(t))
        }
    } else {
        to1
    }
}

fn others(v: &Vec<String>, role: &str) -> (out: Vec<String>)
    ensures
        strs(out@) == strs(v@).filter(|t: Seq<char>| t != role@ && !reserved(t)),
{
    let ghost pred = |t: Seq<char>| t != role@ && !reserved(t);
    let role_s = role.to_owned();
    let mut out: Vec<String> = Vec::new();
    let mut i: usize = 0;
    while i < v.len()
        invariant
            0 <= i <= v@.len(),
            role_s@ == role@,
            pred == (|t: Seq<char>| t != role@ && !reserved(t)),
            strs(out@) == strs(v@).take(i as int).filter(pred),
        decreases v@.len() - i,
    {
        let ghost before = strs(out@);
        assert(strs(v@).take(i + 1) =~= strs(v@).take(i as int).push(v@[i as int]@));
        proof {
            strs(v@).take(i as int).lemma_filter_push(v@[i as int]@, pred);
        }
        if v[i] != role_s && !is_reserved_name(v[i].as_str()) {
            out.push(v[i].clone());
            assert(strs(out@) =~= before.push(v@[i as int]@));
        }
        i += 1;
    }
    assert(strs(v@).take(v@.len() as int) =~= strs(v@));
    out
}

/// The audience of a message whose `--to` is `to` (see `audience_spec`). `of` and `reply` are
/// the messages `--of` and `--reply-to` resolved to, when they are known locally.
pub fn default_audience(msg_type: &str, to: Vec<String>, cc_empty: bool, of: &Option<Prior>, reply: &Option<Prior>, role: &str) -> (out: Vec<String>)
    ensures
        strs(out@) == audience_spec(msg_type@, strs(to@), cc_empty, *of, *reply, role@),
{
    let mut to = to;
    let is_request = crate::text::same(chars_of(msg_type).as_slice(), chars_of("request").as_slice());
    if to.len() == 0 && !is_request {
        if let Some(req) = of {
            let mut v: Vec<String> = Vec::new();
            v.push(req.from.clone());
            assert(strs(v@) =~= seq![req.from@]);
            to = v;
        }
    }
    if to.len() == 0 && cc_empty {
        if let Some(orig) = reply {
            let role_s = role.to_owned();
            if orig.from != role_s {
                let mut v: Vec<String> = Vec::new();
                v.push(orig.from.clone());
                assert(strs(v@) =~= seq![orig.from@]);
                return v;
            } else {
                return others(&orig.to, role);
            }
        }
    }
    to
}

/// A reply (`--reply-to`/`--of`) or a request that still has no audience lands on the board
/// but reaches no inbox: worth a warning.
pub fn addressed_to_no_one(to_empty: bool, cc_empty: bool, has_reply_to: bool, has_of: bool, msg_type: &str) -> (b: bool)
    ensures
        b == (to_empty && cc_empty && (has_reply_to || has_of || msg_type@ == "request"@)),
{
    let is_request = crate::text::same(chars_of(msg_type).as_slice(), chars_of("request").as_slice());
    to_empty && cc_empty && (has_reply_to || has_of || is_request)
}

// ---------------------------------------------------------------- checks before writing

pub open spec fn blank(o: Option<String>) -> bool {
    o is None || trim((o->0)@).len() == 0
}

fn is_blank(o: &Option<String>) -> (b: bool)
    ensures
        b == blank(*o),
{
    match o {
        None => true,
        Some(s) => trimmed(chars_of(s.as_str()).as_slice()).len() == 0,
    }
}

fn is_str(s: &str, lit: &str) -> (b: bool)
    ensures
        b == (s@ == lit@),
{
    crate::text::same(chars_of(s).as_slice(), chars_of(lit).as_slice())
}

/// The message types whose summary is the whole message, and that need `--of`.
pub open spec fn needs_of(t: Seq<char>) -> bool {
    t == "claim"@ || t == "done"@ || t == "error"@ || t == "blocked"@ || t == "defer"@
}

/// Lifecycle markers: their summary is their payload.
pub open spec fn lifecycle(t: Seq<char>) -> bool {
    needs_of(t) || t == "supersede"@
}

pub open spec fn resolution_word(r: Seq<char>) -> bool {
    r == "wont-do"@ || r == "dropped"@ || r == "duplicate"@ || r == "obsolete"@
}

/// Which name a slug error is about.
#[derive(Clone, Copy, PartialEq, Eq, Structural, Debug)]
pub enum NameKind {
    Role,
    Topic,
}

/// Why a message was refused before it was written.
#[derive(Clone, Copy, PartialEq, Eq, Structural, Debug)]
pub enum AppendError {
    UnknownType,
    BadPriority,
    BadRef(RefError),
    PatchNeedsRepo,
    BadPatchRepo,
    RequestNeedsTo,
    NeedsOf,
    NeedsSupersedes,
    EmptySummary,
    ResolutionNotDone,
    BadResolution,
    DeferNotRequest,
    BadName(NameKind),
    ReservedName(NameKind),
    BadTarget,
    EmptyBody,
    ControlInBody(char),
    ControlInSummary(char),
}

/// The first refused `--ref` among the first `n`, if any.
pub open spec fn first_bad_ref(refs: Seq<String>, n: nat) -> Option<RefError>
    decreases n,
{
    if n == 0 {
        None
    } else {
        match first_bad_ref(refs, (n - 1) as nat) {
            Some(e) => Some(e),
            None => match parse_ref_spec(refs[n - 1]@) {
                Err(e) => Some(e),
                Ok(_) => None,
            },
        }
    }
}

/// The first checks on a new message, in order: its type is known (`known_type`); its
/// priority, if given, is `low`, `normal` or `high`; every `--ref` parses; a `--patch` names a
/// slug `--repo`.
pub open spec fn head_check(known_type: bool, priority: Option<Seq<char>>, refs: Seq<String>, patch: bool, patch_repo: Option<Seq<char>>) -> Result<(), AppendError> {
    if !known_type {
        Err(AppendError::UnknownType)
    } else if priority is Some && !(priority->0 == "low"@ || priority->0 == "normal"@ || priority->0 == "high"@) {
        Err(AppendError::BadPriority)
    } else if first_bad_ref(refs, refs.len()) is Some {
        Err(AppendError::BadRef(first_bad_ref(refs, refs.len())->0))
    } else if patch && patch_repo is None {
        Err(AppendError::PatchNeedsRepo)
    } else if patch && !slug_ok(patch_repo->0) {
        Err(AppendError::BadPatchRepo)
    } else {
        Ok(())
    }
}

/// Check the head of a new message and parse its `--ref`s.
#[verifier::spinoff_prover]
pub fn check_head(known_type: bool, priority: &Option<String>, refs: &Vec<String>, patch: bool, patch_repo: &Option<String>) -> (r: Result<Vec<CodeRef>, AppendError>)
    ensures
        r is Ok <==> head_check(known_type, opt_str(*priority), refs@, patch, opt_str(*patch_repo)) is Ok,
        r matches Err(e) ==> head_check(known_type, opt_str(*priority), refs@, patch, opt_str(*patch_repo))
            == Err::<(), AppendError>(e),
        r matches Ok(v) ==> v@.len() == refs@.len() && forall|i: int| 0 <= i < refs@.len() ==> fresh_ref(
            #[trigger] v@[i],
            parse_ref_spec(refs@[i]@)->Ok_0,
        ),
{
    if !known_type {
        return Err(AppendError::UnknownType);
    }
    if let Some(p) = priority {
        if !(is_str(p.as_str(), "low") || is_str(p.as_str(), "normal") || is_str(p.as_str(), "high")) {
            return Err(AppendError::BadPriority);
        }
    }
    let mut out: Vec<CodeRef> = Vec::new();
    let mut i: usize = 0;
    while i < refs.len()
        invariant
            0 <= i <= refs@.len(),
            first_bad_ref(refs@, i as nat) is None,
            known_type,
            !(opt_str(*priority) is Some && !((opt_str(*priority))->0 == "low"@ || (opt_str(*priority))->0 == "normal"@
                || (opt_str(*priority))->0 == "high"@)),
            out@.len() == i,
            forall|k: int| 0 <= k < i ==> fresh_ref(#[trigger] out@[k], parse_ref_spec(refs@[k]@)->Ok_0),
        decreases refs@.len() - i,
    {
        match parse_ref(refs[i].as_str()) {
            Ok(c) => out.push(c),
            Err(e) => {
                assert(first_bad_ref(refs@, (i + 1) as nat) == Some(e));
                proof {
                    lemma_first_bad_ref_stays(refs@, (i + 1) as nat, refs@.len());
                }
                return Err(AppendError::BadRef(e));
            },
        }
        i += 1;
    }
    if patch {
        match patch_repo {
            None => return Err(AppendError::PatchNeedsRepo),
            Some(repo) => {
                if !valid_slug(repo.as_str()) {
                    return Err(AppendError::BadPatchRepo);
                }
            },
        }
    }
    Ok(out)
}

proof fn lemma_first_bad_ref_stays(refs: Seq<String>, k: nat, n: nat)
    requires
        k <= n,
        first_bad_ref(refs, k) is Some,
    ensures
        first_bad_ref(refs, n) == first_bad_ref(refs, k),
    decreases n - k,
{
    if k < n {
        lemma_first_bad_ref_stays(refs, k + 1, n);
    }
}

/// A new message's addressing and metadata fields.
pub struct AppendFields {
    pub msg_type: String,
    pub to: Vec<String>,
    pub cc: Vec<String>,
    pub of: Option<String>,
    pub supersedes: Option<String>,
    pub summary: String,
    pub resolution: Option<String>,
    pub defer: bool,
    pub topic: Option<String>,
}

/// The resolution a `done` records: none for a blank `--as` or `done`; one of the vocabulary
/// words; an error on any other type or word.
pub open spec fn resolution_spec(msg_type: Seq<char>, resolution: Option<String>) -> Result<Option<Seq<char>>, AppendError> {
    if blank(resolution) {
        Ok(None)
    } else {
        let r = trim((resolution->0)@);
        if msg_type != "done"@ {
            Err(AppendError::ResolutionNotDone)
        } else if r == "done"@ {
            Ok(None)
        } else if resolution_word(r) {
            Ok(Some(r))
        } else {
            Err(AppendError::BadResolution)
        }
    }
}

pub open spec fn slug_names_ok(role: Seq<char>, topic: Seq<char>) -> Result<(), AppendError> {
    if !slug_ok(role) {
        Err(AppendError::BadName(NameKind::Role))
    } else if reserved(role) {
        Err(AppendError::ReservedName(NameKind::Role))
    } else if !slug_ok(topic) {
        Err(AppendError::BadName(NameKind::Topic))
    } else if reserved(topic) {
        Err(AppendError::ReservedName(NameKind::Topic))
    } else {
        Ok(())
    }
}

pub open spec fn topic_of(t: Option<String>) -> Seq<char> {
    match t {
        Some(x) => x@,
        None => "general"@,
    }
}

/// The remaining checks, in order: a request names `--to`; a lifecycle marker names `--of`; a
/// supersede names `--supersedes`; the summary is not blank; the resolution is valid; only a
/// request may be deferred; the role and topic are slugs and not `all`; every recipient is a
/// slug. On success: the resolution to record and the topic (`general` by default).
pub open spec fn fields_check(f: AppendFields, role: Seq<char>) -> Result<(Option<Seq<char>>, Seq<char>), AppendError> {
    let t = f.msg_type@;
    if t == "request"@ && f.to@.len() == 0 {
        Err(AppendError::RequestNeedsTo)
    } else if needs_of(t) && blank(f.of) {
        Err(AppendError::NeedsOf)
    } else if t == "supersede"@ && blank(f.supersedes) {
        Err(AppendError::NeedsSupersedes)
    } else if trim(f.summary@).len() == 0 {
        Err(AppendError::EmptySummary)
    } else if resolution_spec(t, f.resolution) is Err {
        Err(resolution_spec(t, f.resolution)->Err_0)
    } else if f.defer && t != "request"@ {
        Err(AppendError::DeferNotRequest)
    } else if slug_names_ok(role, topic_of(f.topic)) is Err {
        Err(slug_names_ok(role, topic_of(f.topic))->Err_0)
    } else if exists|i: int| 0 <= i < (strs(f.to@) + strs(f.cc@)).len() && !slug_ok(#[trigger] (strs(f.to@) + strs(f.cc@))[i]) {
        Err(AppendError::BadTarget)
    } else {
        Ok((resolution_spec(t, f.resolution)->Ok_0, topic_of(f.topic)))
    }
}

fn check_resolution(msg_type: &str, resolution: &Option<String>) -> (r: Result<Option<String>, AppendError>)
    ensures
        match resolution_spec(msg_type@, *resolution) {
            Ok(x) => r matches Ok(y) && opt_str(y) == x,
            Err(e) => r == Err::<Option<String>, AppendError>(e),
        },
{
    if is_blank(resolution) {
        return Ok(None);
    }
    let raw = match resolution {
        Some(x) => x,
        None => return Ok(None),
    };
    let r = trimmed(chars_of(raw.as_str()).as_slice());
    let rs = string_of(r.as_slice());
    if !is_str(msg_type, "done") {
        return Err(AppendError::ResolutionNotDone);
    }
    if is_str(rs.as_str(), "done") {
        return Ok(None);
    }
    if is_str(rs.as_str(), "wont-do") || is_str(rs.as_str(), "dropped") || is_str(rs.as_str(), "duplicate")
        || is_str(rs.as_str(), "obsolete") {
        return Ok(Some(rs));
    }
    Err(AppendError::BadResolution)
}

fn check_names(role: &str, topic: &str) -> (r: Result<(), AppendError>)
    ensures
        r == slug_names_ok(role@, topic@),
{
    if !valid_slug(role) {
        return Err(AppendError::BadName(NameKind::Role));
    }
    if is_reserved_name(role) {
        return Err(AppendError::ReservedName(NameKind::Role));
    }
    if !valid_slug(topic) {
        return Err(AppendError::BadName(NameKind::Topic));
    }
    if is_reserved_name(topic) {
        return Err(AppendError::ReservedName(NameKind::Topic));
    }
    Ok(())
}

fn all_slugs(v: &Vec<String>) -> (b: bool)
    ensures
        b == forall|i: int| 0 <= i < v@.len() ==> slug_ok(#[trigger] strs(v@)[i]),
{
    let mut i: usize = 0;
    while i < v.len()
        invariant
            0 <= i <= v@.len(),
            forall|k: int| 0 <= k < i ==> slug_ok(#[trigger] strs(v@)[k]),
        decreases v@.len() - i,
    {
        assert(strs(v@)[i as int] == v@[i as int]@);
        if !valid_slug(v[i].as_str()) {
            return false;
        }
        i += 1;
    }
    true
}

/// Check a new message's fields for sender `role`; on success the resolution to record and
/// the topic.
pub fn check_fields(f: &AppendFields, role: &str) -> (r: Result<(Option<String>, String), AppendError>)
    ensures
        match fields_check(*f, role@) {
            Ok(x) => r matches Ok(y) && opt_str(y.0) == x.0 && y.1@ == x.1,
            Err(e) => r == Err::<(Option<String>, String), AppendError>(e),
        },
{
    let t = f.msg_type.as_str();
    if is_str(t, "request") && f.to.len() == 0 {
        return Err(AppendError::RequestNeedsTo);
    }
    let lifecycle_type = is_str(t, "claim") || is_str(t, "done") || is_str(t, "error") || is_str(t, "blocked")
        || is_str(t, "defer");
    if lifecycle_type && is_blank(&f.of) {
        return Err(AppendError::NeedsOf);
    }
    if is_str(t, "supersede") && is_blank(&f.supersedes) {
        return Err(AppendError::NeedsSupersedes);
    }
    if trimmed(chars_of(f.summary.as_str()).as_slice()).len() == 0 {
        return Err(AppendError::EmptySummary);
    }
    let resolution = match check_resolution(t, &f.resolution) {
        Ok(x) => x,
        Err(e) => return Err(e),
    };
    if f.defer && !is_str(t, "request") {
        return Err(AppendError::DeferNotRequest);
    }
    let topic = match &f.topic {
        Some(x) => x.clone(),
        None => "general".to_owned(),
    };
    match check_names(role, topic.as_str()) {
        Ok(()) => {},
        Err(e) => return Err(e),
    }
    let to_ok = all_slugs(&f.to);
    let cc_ok = all_slugs(&f.cc);
    let ghost all = strs(f.to@) + strs(f.cc@);
    if !to_ok || !cc_ok {
        proof {
            if !to_ok {
                let i = choose|i: int| 0 <= i < f.to@.len() && !slug_ok(#[trigger] strs(f.to@)[i]);
                assert(all[i] == strs(f.to@)[i]);
            } else {
                let i = choose|i: int| 0 <= i < f.cc@.len() && !slug_ok(#[trigger] strs(f.cc@)[i]);
                assert(all[strs(f.to@).len() + i] == strs(f.cc@)[i]);
            }
        }
        return Err(AppendError::BadTarget);
    }
    assert forall|i: int| 0 <= i < all.len() implies slug_ok(#[trigger] all[i]) by {
        if i < strs(f.to@).len() {
            assert(all[i] == strs(f.to@)[i]);
        } else {
            assert(all[i] == strs(f.cc@)[i - strs(f.to@).len()]);
        }
    }
    Ok((resolution, topic))
}

/// The body check before writing, in order: a non-lifecycle message needs a body (not blank,
/// `-` or `.`) unless `allow_empty_body`; the body holds no control character but newline
/// and tab; the summary holds none at all. The error names the first offending character.
pub open spec fn body_check(msg_type: Seq<char>, body: Seq<char>, summary: Seq<char>, allow_empty_body: bool) -> Result<(), AppendError> {
    let b = trim(body);
    if !allow_empty_body && !lifecycle(msg_type) && (b.len() == 0 || b == "-"@ || b == "."@) {
        Err(AppendError::EmptyBody)
    } else if exists|i: int| 0 <= i < body.len() && body_control(#[trigger] body[i]) {
        Err(AppendError::ControlInBody(body[first_where(body, true)]))
    } else if exists|i: int| 0 <= i < summary.len() && control(#[trigger] summary[i]) {
        Err(AppendError::ControlInSummary(summary[first_where(summary, false)]))
    } else {
        Ok(())
    }
}

/// A control character that may not stand in a body (newline and tab may).
pub open spec fn body_control(c: char) -> bool {
    c != '\n' && c != '\t' && control(c)
}

pub open spec fn bad_char(c: char, in_body: bool) -> bool {
    if in_body {
        body_control(c)
    } else {
        control(c)
    }
}

/// The index of the first offending character.
pub open spec fn first_where(s: Seq<char>, in_body: bool) -> int {
    choose|i: int| 0 <= i < s.len() && bad_char(s[i], in_body) && forall|j: int| 0 <= j < i ==> !bad_char(#[trigger] s[j], in_body)
}

fn find_bad(s: &[char], in_body: bool) -> (r: Option<usize>)
    ensures
        r matches Some(i) ==> i < s@.len() && first_where(s@, in_body) == i && bad_char(s@[i as int], in_body),
        r is None ==> forall|i: int| 0 <= i < s@.len() ==> !bad_char(#[trigger] s@[i], in_body),
{
    let mut i: usize = 0;
    while i < s.len()
        invariant
            0 <= i <= s@.len(),
            forall|j: int| 0 <= j < i ==> !bad_char(#[trigger] s@[j], in_body),
        decreases s@.len() - i,
    {
        let c = s[i];
        let bad = if in_body { c != '\n' && c != '\t' && is_control(c) } else { is_control(c) };
        if bad {
            assert(bad_char(s@[i as int], in_body));
            proof {
                let k = first_where(s@, in_body);
                assert(0 <= k < s@.len() && bad_char(s@[k], in_body) && forall|j: int|
                    0 <= j < k ==> !bad_char(#[trigger] s@[j], in_body));
                if k < i {
                } else if k > i {
                    assert(!bad_char(s@[i as int], in_body));
                }
            }
            return Some(i);
        }
        i += 1;
    }
    None
}

/// Check a new message's body and summary.
pub fn check_body(msg_type: &str, body: &str, summary: &str, allow_empty_body: bool) -> (r: Result<(), AppendError>)
    ensures
        r == body_check(msg_type@, body@, summary@, allow_empty_body),
{
    let b = trimmed(chars_of(body).as_slice());
    let t = msg_type;
    let life = is_str(t, "claim") || is_str(t, "done") || is_str(t, "error") || is_str(t, "blocked")
        || is_str(t, "defer") || is_str(t, "supersede");
    let bs = string_of(b.as_slice());
    if !allow_empty_body && !life && (b.len() == 0 || is_str(bs.as_str(), "-") || is_str(bs.as_str(), ".")) {
        return Err(AppendError::EmptyBody);
    }
    let bc = chars_of(body);
    match find_bad(bc.as_slice(), true) {
        Some(i) => {
            assert(bad_char(body@[i as int], true));
            return Err(AppendError::ControlInBody(bc[i]));
        },
        None => {
            assert forall|i: int| 0 <= i < body@.len() implies !body_control(#[trigger] body@[i]) by {
                assert(!bad_char(body@[i], true));
            }
        },
    }
    let sc = chars_of(summary);
    match find_bad(sc.as_slice(), false) {
        Some(i) => {
            assert(bad_char(summary@[i as int], false));
            Err(AppendError::ControlInSummary(sc[i]))
        },
        None => {
            assert forall|i: int| 0 <= i < summary@.len() implies !control(#[trigger] summary@[i]) by {
                assert(!bad_char(summary@[i], false));
            }
            Ok(())
        },
    }
}

/// The summary a lifecycle verb uses when none is given.
pub open spec fn default_summary_spec(msg_type: Seq<char>, resolution: Option<Seq<char>>) -> Seq<char> {
    if msg_type == "done"@ {
        match resolution {
            Some(r) => r,
            None => "done"@,
        }
    } else if msg_type == "claim"@ {
        "claiming"@
    } else if msg_type == "error"@ {
        "failed"@
    } else if msg_type == "blocked"@ {
        "blocked/waiting"@
    } else if msg_type == "defer"@ {
        "deferred to backlog"@
    } else {
        msg_type
    }
}

pub fn default_summary(msg_type: &str, resolution: &Option<String>) -> (s: String)
    ensures
        s@ == default_summary_spec(msg_type@, opt_str(*resolution)),
{
    if is_str(msg_type, "done") {
        match resolution {
            Some(r) => r.clone(),
            None => "done".to_owned(),
        }
    } else if is_str(msg_type, "claim") {
        "claiming".to_owned()
    } else if is_str(msg_type, "error") {
        "failed".to_owned()
    } else if is_str(msg_type, "blocked") {
        "blocked/waiting".to_owned()
    } else if is_str(msg_type, "defer") {
        "deferred to backlog".to_owned()
    } else {
        msg_type.to_owned()
    }
}


// ---------------------------------------------------------------- recipient advisory

/// Role `r` has joined: the roster holds its card.
pub open spec fn joined(roster: crate::alias::Roster, r: Seq<char>) -> bool {
    exists|k: int| crate::alias::has_card(roster, r, k)
}

/// Some role other than `from` has joined.
pub open spec fn other_joined(roster: crate::alias::Roster, from: Seq<char>) -> bool {
    exists|k: int| 0 <= k < roster.entries@.len() && (#[trigger] roster.entries@[k]).0@ != from
}

/// A broadcast target that reaches no one but the sender: `all` with no other joined role, or
/// a group none of whose other members has joined.
pub open spec fn reaches_no_one(roster: crate::alias::Roster, g: crate::groups::Groups, from: Seq<char>, t: Seq<char>) -> bool {
    if reserved(t) {
        !other_joined(roster, from)
    } else {
        match crate::groups::members(g, t) {
            Some(ms) => !exists|i: int| 0 <= i < ms.len() && ms[i] != from && joined(roster, #[trigger] ms[i]),
            None => false,
        }
    }
}

/// A named role (not the sender, not `all`, not a group) that has not joined.
pub open spec fn unjoined(roster: crate::alias::Roster, g: crate::groups::Groups, from: Seq<char>, t: Seq<char>) -> bool {
    t != from && !reserved(t) && crate::groups::members(g, t) is None && !joined(roster, t)
}

/// What a post's addressing risks: roles it names that have not joined this hub (sorted, each
/// once), and whether a broadcast it makes reaches no one else.
pub struct Advisory {
    pub unknown: Vec<String>,
    pub broadcast_empty: bool,
}

fn has_joined(roster: &crate::alias::Roster, r: &str) -> (b: bool)
    requires
        roster.wf(),
    ensures
        b == joined(*roster, r@),
{
    match roster.position(chars_of(r).as_slice()) {
        Some(k) => {
            assert(crate::alias::has_card(*roster, r@, k as int));
            true
        },
        None => false,
    }
}

fn reaches_none(roster: &crate::alias::Roster, g: &crate::groups::Groups, from: &str, t: &str) -> (b: bool)
    requires
        roster.wf(),
    ensures
        b == reaches_no_one(*roster, *g, from@, t@),
{
    if is_reserved_name(t) {
        let mut k: usize = 0;
        while k < roster.entries.len()
            invariant
                0 <= k <= roster.entries@.len(),
                reserved(t@),
                forall|a: int| 0 <= a < k ==> (#[trigger] roster.entries@[a]).0@ == from@,
            decreases roster.entries@.len() - k,
        {
            if !crate::text::same(chars_of(roster.entries[k].0.as_str()).as_slice(), chars_of(from).as_slice()) {
                assert(roster.entries@[k as int].0@ != from@);
                return false;
            }
            k += 1;
        }
        return true;
    }
    match crate::groups::group_members(g, chars_of(t).as_slice()) {
        Some(ms) => {
            let ghost mv = strs(ms@);
            let mut i: usize = 0;
            while i < ms.len()
                invariant
                    roster.wf(),
                    0 <= i <= ms@.len(),
                    mv == strs(ms@),
                    !reserved(t@),
                    crate::groups::members(*g, t@) == Some(mv),
                    forall|a: int| 0 <= a < i ==> !(mv[a] != from@ && joined(*roster, #[trigger] mv[a])),
                decreases ms@.len() - i,
            {
                assert(mv[i as int] == ms@[i as int]@);
                let other = !crate::text::same(chars_of(ms[i].as_str()).as_slice(), chars_of(from).as_slice());
                if other && has_joined(roster, ms[i].as_str()) {
                    assert(mv.len() == ms@.len());
                    assert(mv[i as int] != from@ && joined(*roster, mv[i as int]));
                    assert(exists|x: int| 0 <= x < mv.len() && mv[x] != from@ && joined(*roster, #[trigger] mv[x]));
                    assert(crate::groups::members(*g, t@) matches Some(z) && z == mv);
                    assert(!reaches_no_one(*roster, *g, from@, t@));
                    return false;
                }
                i += 1;
            }
            true
        },
        None => false,
    }
}

/// The advisory for a post from `from` addressed `to` and `cc`.
pub fn recipient_advisory(roster: &crate::alias::Roster, g: &crate::groups::Groups, from: &str, to: &Vec<String>, cc: &Vec<String>) -> (a: Advisory)
    requires
        roster.wf(),
    ensures
        crate::sorted::ascending(strs(a.unknown@)),
        strs(a.unknown@).to_set() == Set::new(
            |t: Seq<char>| (strs(to@) + strs(cc@)).contains(t) && unjoined(*roster, *g, from@, t),
        ),
        a.broadcast_empty == exists|i: int|
            0 <= i < (strs(to@) + strs(cc@)).len() && (strs(to@) + strs(cc@))[i] != from@ && reaches_no_one(
                *roster,
                *g,
                from@,
                #[trigger] (strs(to@) + strs(cc@))[i],
            ),
{
    let ghost ts = strs(to@) + strs(cc@);
    let mut all: Vec<String> = to.clone();
    let mut j: usize = 0;
    while j < cc.len()
        invariant
            0 <= j <= cc@.len(),
            all@.len() == to@.len() + j,
            strs(all@) == strs(to@) + strs(cc@).take(j as int),
        decreases cc@.len() - j,
    {
        let ghost before = all@;
        all.push(cc[j].clone());
        assert(all@ == before.push(cc@[j as int]));
        assert(strs(all@) =~= strs(before).push(cc@[j as int]@));
        assert(strs(cc@).take(j + 1) =~= strs(cc@).take(j as int).push(cc@[j as int]@));
        assert(strs(all@) =~= strs(to@) + strs(cc@).take(j + 1));
        j += 1;
    }
    assert(strs(cc@).take(cc@.len() as int) =~= strs(cc@));
    let mut unknown: Vec<(String, String)> = Vec::new();
    let mut empty = false;
    let mut i: usize = 0;
    while i < all.len()
        invariant
            roster.wf(),
            0 <= i <= all@.len(),
            strs(all@) == ts,
            crate::sorted::ascending(crate::sorted::keys(unknown@)),
            crate::sorted::keys(unknown@).to_set() == Set::new(
                |t: Seq<char>| ts.take(i as int).contains(t) && unjoined(*roster, *g, from@, t),
            ),
            empty == exists|k: int| 0 <= k < i && ts[k] != from@ && reaches_no_one(*roster, *g, from@, #[trigger] ts[k]),
        decreases all@.len() - i,
    {
        let t = &all[i];
        assert(ts[i as int] == t@);
        let ghost old_keys = crate::sorted::keys(unknown@);
        let not_me = !crate::text::same(chars_of(t.as_str()).as_slice(), chars_of(from).as_slice());
        let mut add = false;
        if not_me {
            if is_reserved_name(t.as_str()) || crate::groups::group_members(g, chars_of(t.as_str()).as_slice()).is_some() {
                if reaches_none(roster, g, from, t.as_str()) {
                    empty = true;
                }
            } else if !has_joined(roster, t.as_str()) {
                add = true;
            }
        }
        if add {
            let ghost before = crate::sorted::kv(unknown@);
            assert(crate::sorted::keys(unknown@) =~= crate::sorted::kkeys(before));
            crate::sorted::insert_first(&mut unknown, t.clone(), String::new());
            proof {
                crate::sorted::lemma_sorted_insert_keys(before, t@, Seq::empty());
                assert(crate::sorted::keys(unknown@) =~= crate::sorted::kkeys(crate::sorted::kv(unknown@)));
            }
        }
        proof {
            let tp = ts.take(i as int);
            let tn = ts.take(i + 1);
            assert(tn =~= tp.push(ts[i as int]));
            assert(crate::sorted::keys(unknown@).to_set() =~= Set::new(
                |x: Seq<char>| tn.contains(x) && unjoined(*roster, *g, from@, x),
            )) by {
                assert forall|x: Seq<char>| tn.contains(x) && unjoined(*roster, *g, from@, x) implies crate::sorted::keys(unknown@).to_set().contains(x) by {
                    let q = choose|q: int| 0 <= q < tn.len() && #[trigger] tn[q] == x;
                    if q < i {
                        assert(tp[q] == x);
                        assert(tp.contains(x));
                        assert(old_keys.to_set().contains(x));
                    }
                }
                assert forall|x: Seq<char>| crate::sorted::keys(unknown@).to_set().contains(x) implies tn.contains(x) && unjoined(*roster, *g, from@, x) by {
                    if x != t@ || !add {
                        assert(old_keys.to_set().contains(x));
                        let q = choose|q: int| 0 <= q < tp.len() && #[trigger] tp[q] == x;
                        assert(tn[q] == x);
                    } else {
                        assert(tn[i as int] == x);
                    }
                }
            }
        }
        i += 1;
    }
    assert(ts.take(all@.len() as int) =~= ts);
    let mut out: Vec<String> = Vec::new();
    let mut k: usize = 0;
    while k < unknown.len()
        invariant
            0 <= k <= unknown@.len(),
            out@.len() == k,
            strs(out@) == crate::sorted::keys(unknown@).take(k as int),
        decreases unknown@.len() - k,
    {
        out.push(unknown[k].0.clone());
        assert(crate::sorted::keys(unknown@)[k as int] == unknown@[k as int].0@);
        assert(strs(out@) =~= crate::sorted::keys(unknown@).take(k + 1));
        k += 1;
    }
    assert(crate::sorted::keys(unknown@).take(unknown@.len() as int) =~= crate::sorted::keys(unknown@));
    Advisory { unknown: out, broadcast_empty: empty }
}


pub open spec fn quoted(v: Seq<Seq<char>>) -> Seq<Seq<char>> {
    v.map_values(|r: Seq<char>| "'"@ + r + "'"@)
}

/// The warning for named roles that have not joined hub `hub`, listing the roles that have.
pub open spec fn unjoined_warning(hub: Seq<char>, unknown: Seq<Seq<char>>, known: Seq<Seq<char>>) -> Seq<char> {
    "confer: warning — "@ + (if unknown.len() == 1 { "role"@ } else { "roles"@ }) + " "@ + crate::text::join_seq(
        quoted(unknown),
        ", "@,
    ) + " "@ + (if unknown.len() == 1 { "has"@ } else { "have"@ }) + " not joined hub '"@ + hub
        + "'; they won't see this until they join. Joined roles: "@ + (if known.len() == 0 {
        "(none yet)"@
    } else {
        crate::text::join_seq(known, ", "@)
    }) + ". If you expected them here, you may be in the wrong hub."@
}

pub fn unjoined_warning_text(hub: &str, unknown: &Vec<String>, roster: &crate::alias::Roster) -> (r: String)
    ensures
        r@ == unjoined_warning(hub@, strs(unknown@), roster.ids()),
{
    let mut q: Vec<String> = Vec::new();
    let mut i: usize = 0;
    while i < unknown.len()
        invariant
            0 <= i <= unknown@.len(),
            q@.len() == i,
            strs(q@) == quoted(strs(unknown@)).take(i as int),
        decreases unknown@.len() - i,
    {
        let mut x = "'".to_owned();
        x.append(unknown[i].as_str());
        x.append("'");
        let ghost xv = x@;
        let ghost before = q@;
        q.push(x);
        assert(strs(q@) =~= strs(before).push(xv));
        assert(quoted(strs(unknown@))[i as int] == xv);
        assert(strs(q@) =~= quoted(strs(unknown@)).take(i + 1));
        i += 1;
    }
    assert(quoted(strs(unknown@)).take(unknown@.len() as int) =~= quoted(strs(unknown@)));
    let one = unknown.len() == 1;
    let mut r = "confer: warning — ".to_owned();
    r.append(if one { "role" } else { "roles" });
    r.append(" ");
    r.append(crate::text::join_strings(&q, ", ").as_str());
    r.append(" ");
    r.append(if one { "has" } else { "have" });
    r.append(" not joined hub '");
    r.append(hub);
    r.append("'; they won't see this until they join. Joined roles: ");
    let ids = roster.id_list();
    if ids.len() == 0 {
        r.append("(none yet)");
    } else {
        r.append(crate::text::join_strings(&ids, ", ").as_str());
    }
    r.append(". If you expected them here, you may be in the wrong hub.");
    r
}

/// The warning for a broadcast that reaches no one else; `summary` is the post's summary as
/// it is quoted.
pub open spec fn lonely_warning(hub: Seq<char>, summary: Seq<char>) -> Seq<char> {
    "confer: warning — you are the only role in hub '"@ + hub + "'; no other agent will receive \""@ + summary
        + "\" until they join."@
}

pub fn lonely_warning_text(hub: &str, summary: &str) -> (r: String)
    ensures
        r@ == lonely_warning(hub@, summary@),
{
    let mut r = "confer: warning — you are the only role in hub '".to_owned();
    r.append(hub);
    r.append("'; no other agent will receive \"");
    r.append(summary);
    r.append("\" until they join.");
    r
}

// ---------------------------------------------------------------- embedding uncommitted code

/// The most lines an uncommitted reference may embed.
pub const EMBED_MAX_LINES: usize = 200;

/// The lines of `range` (1-based, inclusive; all lines without one) that the text has.
pub open spec fn embedded_lines(ls: Seq<Seq<char>>, range: Option<(u64, u64)>) -> Seq<Seq<char>> {
    match range {
        Some((s, e)) => {
            let lo = if s < 1 { 0int } else { s - 1 };
            let hi = if e < ls.len() { e as int } else { ls.len() as int };
            if lo < hi { ls.subrange(lo, hi) } else { seq![] }
        },
        None => ls,
    }
}

/// A fenced block quoting the referenced lines of an uncommitted file, headed by where they
/// come from; too many lines to embed is refused, with their count.
pub open spec fn embed_spec(text: Seq<char>, repo: Seq<char>, path: Seq<char>, sha: Seq<char>, range: Option<(u64, u64)>) -> Result<Seq<char>, nat> {
    let snippet = embedded_lines(crate::text::lines(text), range);
    if snippet.len() > EMBED_MAX_LINES {
        Err(snippet.len())
    } else {
        Ok(
            "```confer-ref repo="@ + repo + " path="@ + path + " sha="@ + sha + (match range {
                Some((s, e)) => " range=L"@ + dec(s) + "-"@ + dec(e),
                None => seq![],
            }) + "\n"@ + snippet.fold_left(seq![], |acc: Seq<char>, l: Seq<char>| acc + l + seq!['\n']) + "```\n"@,
        )
    }
}

fn decimal(n: u64) -> (r: String)
    ensures
        r@ == dec(n),
{
    string_of(crate::text::decimal_u64(n).as_slice())
}

pub fn embed_fence(text: &str, repo: &str, path: &str, sha: &str, range: Option<[u64; 2]>) -> (r: Result<String, usize>)
    ensures
        match r {
            Ok(f) => embed_spec(text@, repo@, path@, sha@, opt_range(range)) == Ok::<Seq<char>, nat>(f@),
            Err(n) => embed_spec(text@, repo@, path@, sha@, opt_range(range)) == Err::<Seq<char>, nat>(n as nat),
        },
{
    let ls = crate::text::split_lines(chars_of(text).as_slice());
    let ghost lv = crate::text::vv(ls@);
    let n = ls.len();
    let (lo, hi): (usize, usize) = match range {
        Some(r) => {
            let lo64: u64 = if r[0] < 1 { 0 } else { r[0] - 1 };
            let hi: usize = if r[1] < n as u64 { r[1] as usize } else { n };
            let lo: usize = if lo64 < hi as u64 { lo64 as usize } else { hi };
            (lo, hi)
        },
        None => (0, n),
    };
    let ghost snippet = embedded_lines(lv, opt_range(range));
    assert(lv.subrange(lo as int, hi as int) == snippet) by {
        if range is None {
            assert(lv.subrange(0, n as int) =~= lv);
        } else if lo == hi {
            assert(lv.subrange(lo as int, hi as int) =~= Seq::<Seq<char>>::empty());
        }
    }
    if hi - lo > EMBED_MAX_LINES {
        return Err(hi - lo);
    }
    let mut f = "```confer-ref repo=".to_owned();
    f.append(repo);
    f.append(" path=");
    f.append(path);
    f.append(" sha=");
    f.append(sha);
    match range {
        Some(r) => {
            let mut h = " range=L".to_owned();
            h.append(decimal(r[0]).as_str());
            h.append("-");
            h.append(decimal(r[1]).as_str());
            f.append(h.as_str());
        },
        None => {
            assert(f@ =~= f@ + seq![]);
        },
    }
    f.append("\n");
    let ghost head = f@;
    let mut body: Vec<char> = Vec::new();
    let mut i: usize = lo;
    while i < hi
        invariant
            lo <= i <= hi <= ls@.len(),
            lv == crate::text::vv(ls@),
            body@ == lv.subrange(lo as int, i as int).fold_left(seq![], |acc: Seq<char>, l: Seq<char>| acc + l + seq!['\n']),
        decreases hi - i,
    {
        let ghost sub = lv.subrange(lo as int, i + 1);
        assert(sub.drop_last() =~= lv.subrange(lo as int, i as int));
        assert(sub.last() == ls@[i as int]@);
        crate::text::push_all(&mut body, ls[i].as_slice());
        body.push('\n');
        i += 1;
    }
    let b = string_of(body.as_slice());
    f.append(b.as_str());
    f.append("```\n");
    Ok(f)
}

// ---------------------------------------------------------------- after the commit

/// What a send comes to once the commit was attempted.
#[derive(Debug, PartialEq, Eq)]
pub enum Delivery {
    /// Committed and pushed: co-resident watchers are nudged through the hub's signal.
    Synced,
    /// Committed locally, the push deferred: the message is safe and flushes on the next sync.
    Deferred,
    /// Not committed: the written message file is removed and the send fails with this text.
    NotSent(String),
}

/// Printed when the push was deferred.
pub const DEFERRED_NOTICE: &'static str = "confer: committed locally, hub push deferred; flushes on the next confer command";

/// The tail of the receipt of a send whose push was deferred.
pub const NOT_SYNCED_TAIL: &'static str = " [NOT synced — committed locally]";

/// The failure of a send that was not committed (`shown` is the message's short id, `err`
/// why the commit failed).
pub open spec fn not_sent_text(shown: Seq<char>, err: Seq<char>) -> Seq<char> {
    "did NOT send "@ + shown + " — not committed ("@ + err
        + "); the clone may be busy. Retry, e.g. `timeout 60 confer append …`."@
}

/// What the commit's outcome means for the send: pushed, deferred, or not sent at all — a
/// send that did not land is never reported as sent.
pub fn delivery(outcome: &Result<crate::gitcmd::Committed, String>, shown: &str) -> (d: Delivery)
    ensures
        outcome matches Ok(c) && c == crate::gitcmd::Committed::Synced ==> d is Synced,
        outcome matches Ok(c) && c == crate::gitcmd::Committed::DeferredLocal ==> d is Deferred,
        outcome matches Err(e) ==> (d matches Delivery::NotSent(m) && m@ == not_sent_text(shown@, e@)),
{
    match outcome {
        Ok(crate::gitcmd::Committed::Synced) => Delivery::Synced,
        Ok(crate::gitcmd::Committed::DeferredLocal) => Delivery::Deferred,
        Err(e) => {
            let mut m = String::new();
            m.append("did NOT send ");
            m.append(shown);
            m.append(" — not committed (");
            m.append(e.as_str());
            m.append("); the clone may be busy. Retry, e.g. `timeout 60 confer append …`.");
            assert(m@ =~= not_sent_text(shown@, e@));
            Delivery::NotSent(m)
        },
    }
}

impl Delivery {
    /// Whether the hub's signal is touched (only after a push).
    pub fn touches_signal(&self) -> (b: bool)
        ensures
            b == (self is Synced),
    {
        match self {
            Delivery::Synced => true,
            _ => false,
        }
    }

    /// Whether the written message file is removed (only when nothing was committed).
    pub fn removes_file(&self) -> (b: bool)
        ensures
            b == (self is NotSent),
    {
        match self {
            Delivery::NotSent(_) => true,
            _ => false,
        }
    }
}

/// The send receipt: the short id, the type, the summary's and body's lengths in characters,
/// and the not-synced tail when the push was deferred.
pub open spec fn receipt_text(shown: Seq<char>, msg_type: Seq<char>, summary_chars: nat, body_chars: nat, synced: bool) -> Seq<char> {
    "confer: sent "@ + shown + " ("@ + msg_type + " type, summary "@ + crate::text::dec(summary_chars) + " chars, body "@
        + crate::text::dec(body_chars) + " chars)"@ + (if synced { Seq::<char>::empty() } else { NOT_SYNCED_TAIL@ })
}

pub fn receipt(shown: &str, msg_type: &str, summary_chars: u64, body_chars: u64, synced: bool) -> (r: String)
    ensures
        r@ == receipt_text(shown@, msg_type@, summary_chars as nat, body_chars as nat, synced),
{
    let mut r = String::new();
    r.append("confer: sent ");
    r.append(shown);
    r.append(" (");
    r.append(msg_type);
    r.append(" type, summary ");
    let a = crate::text::decimal_u64(summary_chars);
    let a = string_of(a.as_slice());
    r.append(a.as_str());
    r.append(" chars, body ");
    let b = crate::text::decimal_u64(body_chars);
    let b = string_of(b.as_slice());
    r.append(b.as_str());
    r.append(" chars)");
    if !synced {
        r.append(NOT_SYNCED_TAIL);
    }
    assert(r@ =~= receipt_text(shown@, msg_type@, summary_chars as nat, body_chars as nat, synced));
    r
}

// ---------------------------------------------------------------- pinning a reference

/// How a `--ref`'s revision is pinned.
#[derive(Debug, PartialEq, Eq)]
pub enum Pin {
    /// A full 40- or 64-hex object id: pinned as typed.
    AsTyped,
    /// Resolved to its full commit sha in the capture clone.
    Resolve,
    /// No clone can resolve it and `--allow-dirty` was given: the sha is stored as
    /// `unresolved`, the typed revision kept, and this warning shown.
    Unresolved(String),
}

/// The warning for a reference stored as unresolved.
pub open spec fn unresolved_text(repo: Seq<char>, path: Seq<char>, raw: Seq<char>) -> Seq<char> {
    "--ref "@ + repo + ":"@ + path + "@"@ + raw
        + ": no local clone resolvable on this machine (checked --ref-from, cwd, and the repo map) — stored as unresolved (--allow-dirty). Map a clone (`confer repos map "@
        + repo + " <path>`) for a durable pin."@
}

/// The refusal of a non-sha reference that no clone can resolve.
pub open spec fn cannot_pin_text(repo: Seq<char>, path: Seq<char>, raw: Seq<char>) -> Seq<char> {
    "cannot pin --ref "@ + repo + ":"@ + path + "@"@ + raw + ": no local clone of '"@ + repo
        + "' is mapped on this machine (or reachable from your cwd/--ref-from), and a non-sha ref can't be made durable without one. Map a clone (`confer repos map "@
        + repo + " <path>`), pass an explicit full commit sha (`@<40-hex>`), or use --allow-dirty to store it as unresolved."@
}

/// How the reference `repo:path@raw` is pinned at write time: a full sha as typed; anything
/// else through the capture clone when there is one (`has_clone`); without one, stored as
/// unresolved under `--allow-dirty`, else refused.
pub fn pin_decision(repo: &str, path: &str, raw: &str, has_clone: bool, allow_dirty: bool) -> (r: Result<Pin, String>)
    ensures
        (raw@.len() == 40 || raw@.len() == 64) && all_hex(raw@) ==> (r matches Ok(p) && p is AsTyped),
        !((raw@.len() == 40 || raw@.len() == 64) && all_hex(raw@)) && has_clone ==> (r matches Ok(p) && p is Resolve),
        !((raw@.len() == 40 || raw@.len() == 64) && all_hex(raw@)) && !has_clone && allow_dirty ==> (r matches Ok(p) && p matches Pin::Unresolved(w) && w@ == unresolved_text(repo@, path@, raw@)),
        !((raw@.len() == 40 || raw@.len() == 64) && all_hex(raw@)) && !has_clone && !allow_dirty ==> (r matches Err(e) && e@ == cannot_pin_text(repo@, path@, raw@)),
{
    if is_full_hex(raw) {
        return Ok(Pin::AsTyped);
    }
    if has_clone {
        return Ok(Pin::Resolve);
    }
    let mut m = String::new();
    if allow_dirty {
        m.append("--ref ");
        m.append(repo);
        m.append(":");
        m.append(path);
        m.append("@");
        m.append(raw);
        m.append(": no local clone resolvable on this machine (checked --ref-from, cwd, and the repo map) — stored as unresolved (--allow-dirty). Map a clone (`confer repos map ");
        m.append(repo);
        m.append(" <path>`) for a durable pin.");
        assert(m@ =~= unresolved_text(repo@, path@, raw@));
        Ok(Pin::Unresolved(m))
    } else {
        m.append("cannot pin --ref ");
        m.append(repo);
        m.append(":");
        m.append(path);
        m.append("@");
        m.append(raw);
        m.append(": no local clone of '");
        m.append(repo);
        m.append("' is mapped on this machine (or reachable from your cwd/--ref-from), and a non-sha ref can't be made durable without one. Map a clone (`confer repos map ");
        m.append(repo);
        m.append(" <path>`), pass an explicit full commit sha (`@<40-hex>`), or use --allow-dirty to store it as unresolved.");
        assert(m@ =~= cannot_pin_text(repo@, path@, raw@));
        Err(m)
    }
}

/// A whole send's outcome for the command that made it: success once pushed; a failure that
/// still identifies the message when the push was deferred (so a hook can tell "committed
/// locally" from "reached the hub"); the not-sent failure when nothing was committed.
pub open spec fn send_result_spec(d: Delivery, shown: Seq<char>) -> Result<(), Seq<char>> {
    match d {
        Delivery::Synced => Ok(()),
        Delivery::Deferred => Err("message "@ + shown + " committed locally but not synced to the hub"@),
        Delivery::NotSent(m) => Err(m@),
    }
}

impl Delivery {
    /// The send's result (`shown` is the message's short id).
    pub fn send_result(&self, shown: &str) -> (r: Result<(), String>)
        ensures
            match send_result_spec(*self, shown@) {
                Ok(()) => r is Ok,
                Err(m) => r matches Err(e) && e@ == m,
            },
    {
        match self {
            Delivery::Synced => Ok(()),
            Delivery::Deferred => {
                let mut m = String::new();
                m.append("message ");
                m.append(shown);
                m.append(" committed locally but not synced to the hub");
                Err(m)
            },
            Delivery::NotSent(m) => Err(m.clone()),
        }
    }
}

// ---------------------------------------------------------------- contested claims

/// The warning for a claim that lost the race to `owner`'s earlier claim on `request`.
pub open spec fn contested_text(owner: Seq<char>, request: Seq<char>) -> Seq<char> {
    "confer: ⚠ contested claim — '"@ + owner + "' already claimed "@ + request
        + " (owns by fold order). Yield (append a note and stand down) or coordinate to avoid duplicate work."@
}

/// After a claim on `request` (its short id) synced: `claimants` are the roles that claimed it,
/// in fold order, the first owning it. When more than one claimed and `me` is not the
/// owner, the warning to yield.
pub fn contested_claim(claimants: &Vec<String>, me: &str, request: &str) -> (w: Option<String>)
    ensures
        w is Some <==> (claimants@.len() > 1 && claimants@[0]@ != me@),
        w matches Some(t) ==> t@ == contested_text(claimants@[0]@, request@),
{
    if claimants.len() > 1 && !crate::text::same(chars_of(claimants[0].as_str()).as_slice(), chars_of(me).as_slice()) {
        let mut t = String::new();
        t.append("confer: ⚠ contested claim — '");
        t.append(claimants[0].as_str());
        t.append("' already claimed ");
        t.append(request);
        t.append(" (owns by fold order). Yield (append a note and stand down) or coordinate to avoid duplicate work.");
        Some(t)
    } else {
        None
    }
}

// ---------------------------------------------------------------- applying a pin

/// What `git rev-parse --verify --quiet <rev>^{commit}` reported in the capture clone `dir`,
/// and whether that clone is shallow.
pub struct RevParse {
    pub success: bool,
    pub stdout: String,
    pub dir: String,
    pub shallow: bool,
}

/// A full 40- or 64-hex object id.
pub open spec fn full_sha(s: Seq<char>) -> bool {
    (s.len() == 40 || s.len() == 64) && all_hex(s)
}

pub const SHALLOW_HINT: &'static str = " (shallow clone — fetch with `--unshallow` or deepen to reach it)";

/// The refusal of a revision that the capture clone does not know.
pub open spec fn cannot_resolve_text(repo: Seq<char>, path: Seq<char>, raw: Seq<char>, dir: Seq<char>, shallow: bool) -> Seq<char> {
    "cannot resolve --ref "@ + repo + ":"@ + path + "@"@ + raw + " in "@ + dir + (if shallow {
        SHALLOW_HINT@
    } else {
        Seq::<char>::empty()
    }) + " (unknown revision)"@
}

/// Everything but the pinned `sha` and the typed `rev` is left as it was.
pub open spec fn pin_keeps(a: CodeRef, b: CodeRef) -> bool {
    &&& a.repo == b.repo
    &&& a.path == b.path
    &&& a.range == b.range
    &&& a.content_hash == b.content_hash
    &&& a.ref_name == b.ref_name
    &&& a.ref_type == b.ref_type
    &&& a.commit_date == b.commit_date
    &&& a.dirty == b.dirty
    &&& a.untracked == b.untracked
    &&& a.base_ref == b.base_ref
    &&& a.fork_point == b.fork_point
    &&& a.patch == b.patch
    &&& a.result_hash == b.result_hash
}

/// Pin `r` (whose `sha` holds the revision as typed) at write time: a full object id stays;
/// anything else becomes the full sha the capture clone resolves it to (`rev_parse`, asked
/// for only then) or is refused when the clone does not know it; with no clone it is stored
/// as `unresolved`, the typed revision kept in `rev`, under `allow_dirty` (the warning is
/// returned), and refused otherwise. So once git prints full shas, an accepted reference's
/// `sha` is a full object id or the word `unresolved` — never `HEAD`, a branch name or a
/// short hash.
pub fn pin_ref(r: &mut CodeRef, has_clone: bool, allow_dirty: bool, rev_parse: &Option<RevParse>) -> (res: Result<Option<String>, String>)
    requires
        !full_sha(old(r).sha@) && has_clone ==> rev_parse is Some,
    ensures
        pin_keeps(*old(r), *final(r)),
        res is Err ==> *final(r) == *old(r),
        full_sha(old(r).sha@) ==> (res matches Ok(w) && w is None && *final(r) == *old(r)),
        !full_sha(old(r).sha@) && has_clone && (rev_parse->0).success ==> (res matches Ok(w) && w is None
            && final(r).sha@ == trim((rev_parse->0).stdout@) && final(r).rev == old(r).rev),
        !full_sha(old(r).sha@) && has_clone && !(rev_parse->0).success ==> (res matches Err(e) && e@ == cannot_resolve_text(
            old(r).repo@,
            old(r).path@,
            old(r).sha@,
            (rev_parse->0).dir@,
            (rev_parse->0).shallow,
        )),
        !full_sha(old(r).sha@) && !has_clone && allow_dirty ==> (res matches Ok(w) && opt_str(w) == Some(
            unresolved_text(old(r).repo@, old(r).path@, old(r).sha@),
        ) && final(r).sha@ == "unresolved"@ && opt_str(final(r).rev) == Some(old(r).sha@)),
        !full_sha(old(r).sha@) && !has_clone && !allow_dirty ==> (res matches Err(e) && e@ == cannot_pin_text(
            old(r).repo@,
            old(r).path@,
            old(r).sha@,
        )),
        res is Ok && (rev_parse matches Some(p) ==> (p.success ==> full_sha(trim(p.stdout@)))) ==> (full_sha(final(r).sha@)
            || (final(r).sha@ == "unresolved"@ && allow_dirty && opt_str(final(r).rev) == Some(old(r).sha@))),
{
    let d = pin_decision(r.repo.as_str(), r.path.as_str(), r.sha.as_str(), has_clone, allow_dirty);
    match d {
        Err(e) => Err(e),
        Ok(Pin::AsTyped) => Ok(None),
        Ok(Pin::Resolve) => {
            let p = rev_parse.as_ref().unwrap();
            if p.success {
                let sha = string_of(trimmed(chars_of(p.stdout.as_str()).as_slice()).as_slice());
                r.sha = sha;
                Ok(None)
            } else {
                let mut m = String::new();
                m.append("cannot resolve --ref ");
                m.append(r.repo.as_str());
                m.append(":");
                m.append(r.path.as_str());
                m.append("@");
                m.append(r.sha.as_str());
                m.append(" in ");
                m.append(p.dir.as_str());
                if p.shallow {
                    m.append(SHALLOW_HINT);
                }
                m.append(" (unknown revision)");
                proof {
                    reveal_strlit("");
                }
                assert(m@ =~= cannot_resolve_text(r.repo@, r.path@, r.sha@, p.dir@, p.shallow));
                Err(m)
            }
        },
        Ok(Pin::Unresolved(w)) => {
            let raw = r.sha.clone();
            r.rev = Some(raw);
            r.sha = "unresolved".to_owned();
            Ok(Some(w))
        },
    }
}

} // verus!
