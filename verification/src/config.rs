//! Hub identity and configuration paths: the declared hub id, the lenient hub key that
//! namespaces per-hub state, the strict root-commit identity that may be pinned, and where
//! signals live. Reading files and running git happen outside.
use vstd::prelude::*;
use crate::text::opt_str;
use crate::text::{chars_of, string_of, is_ascii_hex, is_ascii_alnum, contains, contains_seq, ascii_hex, ascii_alnum};
use crate::clonehome::{ws_tokens, split_ws};

verus! {

/// A git object id as `.confer-hub-id` must hold it: 40 hex digits.
pub open spec fn object_id(s: Seq<char>) -> bool {
    s.len() == 40 && forall|i: int| 0 <= i < s.len() ==> is_ascii_hex(#[trigger] s[i])
}

/// The declared hub id in `.confer-hub-id`'s text: its first word, if that is an object id.
pub open spec fn declared_spec(text: Seq<char>) -> Option<Seq<char>> {
    let toks = ws_tokens(text);
    if toks.len() > 0 && object_id(toks[0]) {
        Some(toks[0])
    } else {
        None
    }
}

fn first_word(s: &str) -> (r: Option<String>)
    ensures
        match opt_str(r) {
            Some(w) => ws_tokens(s@).len() > 0 && w == ws_tokens(s@)[0],
            None => ws_tokens(s@).len() == 0,
        },
{
    let c = chars_of(s);
    let toks = split_ws(c.as_slice());
    if toks.len() > 0 {
        assert(crate::clonehome::vv(toks@)[0] == toks@[0]@);
        Some(string_of(toks[0].as_slice()))
    } else {
        None
    }
}

fn is_object_id(s: &str) -> (b: bool)
    ensures
        b == object_id(s@),
{
    let c = chars_of(s);
    if c.len() != 40 {
        return false;
    }
    let mut i: usize = 0;
    while i < c.len()
        invariant
            0 <= i <= c@.len(),
            c@ == s@,
            forall|k: int| 0 <= k < i ==> is_ascii_hex(#[trigger] c@[k]),
        decreases c@.len() - i,
    {
        if !ascii_hex(c[i]) {
            return false;
        }
        i += 1;
    }
    true
}

/// The hub's declared id, from the text of `.confer-hub-id` (none when the file is absent).
pub fn declared_hub_id(text: &Option<String>) -> (r: Option<String>)
    ensures
        opt_str(r) == match opt_str(*text) {
            Some(t) => declared_spec(t),
            None => None,
        },
{
    match text {
        None => None,
        Some(t) => match first_word(t.as_str()) {
            Some(w) => {
                if is_object_id(w.as_str()) {
                    Some(w)
                } else {
                    None
                }
            },
            None => None,
        },
    }
}

/// The fallback key: the origin URL (or the clone's path) with every character that is not an
/// ASCII letter or digit replaced by `_`.
pub open spec fn sanitized(s: Seq<char>) -> Seq<char> {
    s.map_values(|c: char| if is_ascii_alnum(c) { c } else { '_' })
}

/// The hub key: the declared id; else the first root commit `git rev-list --max-parents=0
/// HEAD` printed (`roots`, its output when it succeeded); else the sanitized `fallback`.
pub open spec fn hub_key_spec(declared: Option<Seq<char>>, roots: Option<Seq<char>>, fallback: Seq<char>) -> Seq<char> {
    if declared is Some {
        declared->0
    } else if roots is Some && ws_tokens(roots->0).len() > 0 {
        ws_tokens(roots->0)[0]
    } else {
        sanitized(fallback)
    }
}

/// The key that namespaces a hub's local state (watch lock, cursor, read frontier, presence).
pub fn hub_key(declared: &Option<String>, roots: &Option<String>, fallback: &str) -> (k: String)
    ensures
        k@ == hub_key_spec(opt_str(*declared), opt_str(*roots), fallback@),
{
    if let Some(d) = declared {
        return d.clone();
    }
    if let Some(r) = roots {
        if let Some(w) = first_word(r.as_str()) {
            return w;
        }
    }
    let c = chars_of(fallback);
    let mut out: Vec<char> = Vec::new();
    let mut i: usize = 0;
    while i < c.len()
        invariant
            0 <= i <= c@.len(),
            c@ == fallback@,
            out@ == sanitized(fallback@).take(i as int),
        decreases c@.len() - i,
    {
        let x = c[i];
        out.push(if ascii_alnum(x) { x } else { '_' });
        assert(out@ =~= sanitized(fallback@).take(i + 1));
        i += 1;
    }
    assert(sanitized(fallback@).take(c@.len() as int) =~= sanitized(fallback@));
    string_of(out.as_slice())
}

/// The sanitized fallback never contains a path separator or anything but ASCII letters,
/// digits and `_`, so it is always a safe file name.
pub proof fn fallback_key_is_safe(fallback: Seq<char>)
    ensures
        forall|i: int| 0 <= i < sanitized(fallback).len() ==> is_ascii_alnum(#[trigger] sanitized(fallback)[i])
            || sanitized(fallback)[i] == '_',
        sanitized(fallback).len() == fallback.len(),
{
}

// ---------------------------------------------------------------- the pinnable root

/// The strict hub identity: the single root commit, or no commits yet.
pub enum HubRoot {
    Commit(String),
    NoCommits,
}

/// Why no pinnable root could be given.
#[derive(Clone, Copy, PartialEq, Eq, Structural, Debug)]
pub enum RootError {
    /// `git rev-list` failed for another reason than an empty repository.
    GitFailed,
    /// The history has several root commits (their number).
    MultiRoot(usize),
}

/// git's ways of saying the repository has no commits yet.
pub open spec fn no_head(stderr: Seq<char>) -> bool {
    contains_seq(stderr, "does not have any commits yet"@) || contains_seq(stderr, "unknown revision"@)
        || contains_seq(stderr, "ambiguous argument 'HEAD'"@)
}

/// The strict identity from `git rev-list --max-parents=0 HEAD`: on failure, no commits when
/// git said so and an error otherwise; on success, the single root, none for no output, and
/// an error for several.
pub open spec fn hub_root_spec(success: bool, stdout: Seq<char>, stderr: Seq<char>) -> Result<Option<Seq<char>>, RootError> {
    if !success {
        if no_head(stderr) {
            Ok(None)
        } else {
            Err(RootError::GitFailed)
        }
    } else {
        let roots = ws_tokens(stdout);
        if roots.len() == 0 {
            Ok(None)
        } else if roots.len() == 1 {
            Ok(Some(roots[0]))
        } else {
            Err(RootError::MultiRoot(roots.len() as usize))
        }
    }
}

pub open spec fn root_view(r: Result<HubRoot, RootError>) -> Result<Option<Seq<char>>, RootError> {
    match r {
        Ok(HubRoot::Commit(s)) => Ok(Some(s@)),
        Ok(HubRoot::NoCommits) => Ok(None),
        Err(e) => Err(e),
    }
}

fn says(s: &[char], p: &str) -> (b: bool)
    ensures
        b == contains_seq(s@, p@),
{
    let pv = chars_of(p);
    contains(s, pv.as_slice())
}

/// Classify the answer of `git rev-list --max-parents=0 HEAD`.
pub fn hub_root_strict(success: bool, stdout: &str, stderr: &str) -> (r: Result<HubRoot, RootError>)
    ensures
        root_view(r) == hub_root_spec(success, stdout@, stderr@),
{
    if !success {
        let e = chars_of(stderr);
        if says(e.as_slice(), "does not have any commits yet") || says(e.as_slice(), "unknown revision") || says(
            e.as_slice(),
            "ambiguous argument 'HEAD'",
        ) {
            return Ok(HubRoot::NoCommits);
        }
        return Err(RootError::GitFailed);
    }
    let c = chars_of(stdout);
    let roots = split_ws(c.as_slice());
    assert(crate::clonehome::vv(roots@).len() == roots@.len());
    if roots.len() == 0 {
        Ok(HubRoot::NoCommits)
    } else if roots.len() == 1 {
        assert(crate::clonehome::vv(roots@)[0] == roots@[0]@);
        Ok(HubRoot::Commit(string_of(roots[0].as_slice())))
    } else {
        Err(RootError::MultiRoot(roots.len()))
    }
}

// ---------------------------------------------------------------- paths

/// `PathBuf::join` with a relative part: a separator is added unless the base is empty or
/// already ends in one.
pub open spec fn join(base: Seq<char>, part: Seq<char>) -> Seq<char> {
    if base.len() == 0 || base.last() == '/' {
        base + part
    } else {
        base + seq!['/'] + part
    }
}

pub(crate) fn join_exec(base: &str, part: &str) -> (r: String)
    ensures
        r@ == join(base@, part@),
{
    let b = chars_of(base);
    let mut out = base.to_owned();
    if b.len() > 0 && b[b.len() - 1] != '/' {
        out.append("/");
        proof {
            reveal_strlit("/");
        }
    }
    out.append(part);
    assert(out@ =~= join(base@, part@));
    out
}

/// Where the per-hub change signals live: `<home>/.confer/tips`.
pub fn signal_dir(home: &str) -> (d: String)
    ensures
        d@ == join(join(home@, ".confer"@), "tips"@),
{
    let c = join_exec(home, ".confer");
    join_exec(c.as_str(), "tips")
}

} // verus!
