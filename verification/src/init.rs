//! Creating or cloning a hub and moving clones into confer's managed home: the decisions
//! `init`/`clone` and `adopt-clone` make from what git reports. Running git, creating files and
//! moving directories happen outside.
use vstd::prelude::*;
use crate::text::opt_str;
use crate::text::{join_seq, join_strings, chars_of, string_of, slice, trim, trimmed, is_suffix, ends_with, last_index_of, last_index, contains_seq, contains};

verus! {

/// `s` without every trailing `.git` (`str::trim_end_matches(".git")`).
pub open spec fn trim_git(s: Seq<char>) -> Seq<char>
    decreases s.len(),
{
    if s.len() >= 4 && is_suffix(".git"@, s) {
        trim_git(s.subrange(0, s.len() - 4))
    } else {
        s
    }
}

/// The part after the last `/` (`str::rsplit('/').next()`), which is the whole text without
/// one.
pub open spec fn last_segment(s: Seq<char>) -> Seq<char> {
    match last_index_of(s, '/') {
        Some(i) => s.subrange(i + 1, s.len() as int),
        None => s,
    }
}

fn last_segment_of(s: &[char]) -> (r: Vec<char>)
    ensures
        r@ == last_segment(s@),
{
    let n = s.len();
    match last_index(s, '/') {
        Some(i) => slice(s, i + 1, n),
        None => {
            proof {
                assert(!s@.contains('/'));
            }
            slice(s, 0, s.len())
        },
    }
}

fn trim_git_of(s: &[char]) -> (r: Vec<char>)
    ensures
        r@ == trim_git(s@),
{
    let mut end: usize = s.len();
    proof {
        assert(s@.subrange(0, s@.len() as int) =~= s@);
    }
    while end >= 4 && ends_with(slice(s, 0, end).as_slice(), chars_of(".git").as_slice())
        invariant
            end <= s@.len(),
            trim_git(s@) == trim_git(s@.subrange(0, end as int)),
        decreases end,
    {
        assert(s@.subrange(0, end as int).subrange(0, end - 4) =~= s@.subrange(0, end - 4));
        end -= 4;
    }
    slice(s, 0, end)
}

/// The directory name a clone of `name_src` (a repo shorthand or URL) gets: its last path
/// segment without `.git`.
pub open spec fn basename_spec(name_src: Seq<char>) -> Seq<char> {
    trim_git(last_segment(name_src))
}

pub fn clone_basename(name_src: &str) -> (r: String)
    ensures
        r@ == basename_spec(name_src@),
{
    let seg = last_segment_of(chars_of(name_src).as_slice());
    string_of(trim_git_of(seg.as_slice()).as_slice())
}

/// What the hub's branches (`git ls-remote --heads origin`) say.
#[derive(Clone, Copy, PartialEq, Eq, Structural, Debug)]
pub enum HubHeads {
    /// No branch at all: a fresh hub to scaffold.
    Fresh,
    /// It has `main`.
    HasMain,
    /// It has branches but no `main`.
    NoMain,
}

pub open spec fn hub_heads_spec(listing: Seq<char>) -> HubHeads {
    if trim(listing).len() == 0 {
        HubHeads::Fresh
    } else if contains_seq(listing, "refs/heads/main"@) {
        HubHeads::HasMain
    } else {
        HubHeads::NoMain
    }
}

/// Judge emptiness from the hub's branches, not the local checkout (a bare hub's HEAD may
/// name an unborn branch).
pub fn hub_heads(listing: &str) -> (r: HubHeads)
    ensures
        r == hub_heads_spec(listing@),
{
    let c = chars_of(listing);
    if trimmed(c.as_slice()).len() == 0 {
        HubHeads::Fresh
    } else if contains(c.as_slice(), chars_of("refs/heads/main").as_slice()) {
        HubHeads::HasMain
    } else {
        HubHeads::NoMain
    }
}

/// The `roles:` line of the health check: the role ids in order, or a hint when there are
/// none.
pub open spec fn roles_line_spec(ids: Seq<Seq<char>>) -> Seq<char> {
    if ids.len() == 0 {
        "(none — add to roles.toml)"@
    } else {
        join_seq(ids, ", "@)
    }
}

pub fn roles_line(roster: &crate::alias::Roster) -> (r: String)
    ensures
        r@ == roles_line_spec(roster.ids()),
{
    let ids = roster.id_list();
    if ids.len() == 0 {
        return "(none — add to roles.toml)".to_owned();
    }
    join_strings(&ids, ", ")
}

/// Why a clone may not be moved: the move could lose the only copy of some work.
#[derive(Clone, Copy, PartialEq, Eq, Structural, Debug)]
pub enum Unsafe {
    /// Uncommitted or untracked changes.
    Dirty,
    /// No upstream branch: the clone may be the only copy.
    NoUpstream,
    /// Commits not pushed.
    Unpushed,
}

/// A clone is safe to move only when it is clean, tracks an upstream, and has pushed
/// everything — checked in that order.
pub open spec fn move_safety_spec(dirty: bool, has_upstream: bool, unpushed: bool) -> Result<(), Unsafe> {
    if dirty {
        Err(Unsafe::Dirty)
    } else if !has_upstream {
        Err(Unsafe::NoUpstream)
    } else if unpushed {
        Err(Unsafe::Unpushed)
    } else {
        Ok(())
    }
}

pub fn move_safety(dirty: bool, has_upstream: bool, unpushed: bool) -> (r: Result<(), Unsafe>)
    ensures
        r == move_safety_spec(dirty, has_upstream, unpushed),
{
    if dirty {
        Err(Unsafe::Dirty)
    } else if !has_upstream {
        Err(Unsafe::NoUpstream)
    } else if unpushed {
        Err(Unsafe::Unpushed)
    } else {
        Ok(())
    }
}

pub open spec fn unsafe_reason(u: Unsafe) -> Seq<char> {
    match u {
        Unsafe::Dirty => "uncommitted or untracked changes"@,
        Unsafe::NoUpstream => "no upstream branch (this clone may be the only copy)"@,
        Unsafe::Unpushed => "unpushed commits"@,
    }
}

/// The reason given when a move is refused.
pub fn reason(u: Unsafe) -> (r: &'static str)
    ensures
        r@ == unsafe_reason(u),
{
    match u {
        Unsafe::Dirty => "uncommitted or untracked changes",
        Unsafe::NoUpstream => "no upstream branch (this clone may be the only copy)",
        Unsafe::Unpushed => "unpushed commits",
    }
}

/// A readable hub slug for a managed clone's directory: the origin's repo shorthand, else the
/// origin URL's last segment without `.git`, else the clone directory's own name, else `hub`.
pub open spec fn hub_slug_spec(shorthand: Option<Seq<char>>, origin: Option<Seq<char>>, dir_name: Option<Seq<char>>) -> Seq<char> {
    match shorthand {
        Some(s) => s,
        None => match origin {
            Some(u) => basename_spec(u),
            None => match dir_name {
                Some(d) => d,
                None => "hub"@,
            },
        },
    }
}

pub fn hub_slug(shorthand: &Option<String>, origin: &Option<String>, dir_name: &Option<String>) -> (r: String)
    ensures
        r@ == hub_slug_spec(opt_str(*shorthand), opt_str(*origin), opt_str(*dir_name)),
{
    match shorthand {
        Some(s) => s.clone(),
        None => match origin {
            Some(u) => clone_basename(u.as_str()),
            None => match dir_name {
                Some(d) => d.clone(),
                None => "hub".to_owned(),
            },
        },
    }
}


// ---------------------------------------------------------------- local hubs

/// A hub URL naming a local path: it starts with `/`, `~` or `.`.
pub open spec fn is_local_spec(url: Seq<char>) -> bool {
    url.len() > 0 && (url[0] == '/' || url[0] == '~' || url[0] == '.')
}

/// The directory a local hub URL names, `~` standing for `home`; `None` for a remote URL.
pub open spec fn local_hub_spec(url: Seq<char>, home: Seq<char>) -> Option<Seq<char>> {
    if !is_local_spec(url) {
        None
    } else if url == "~"@ {
        Some(home)
    } else if crate::text::is_prefix("~/"@, url) {
        Some(crate::config::join(home, url.subrange(2, url.len() as int)))
    } else {
        Some(url)
    }
}

pub fn local_hub_path(url: &str, home: &str) -> (r: Option<String>)
    ensures
        opt_str(r) == local_hub_spec(url@, home@),
{
    let c = chars_of(url);
    if c.len() == 0 || !(c[0] == '/' || c[0] == '~' || c[0] == '.') {
        return None;
    }
    if crate::text::same(c.as_slice(), chars_of("~").as_slice()) {
        return Some(home.to_owned());
    }
    if crate::text::starts_with(c.as_slice(), chars_of("~/").as_slice()) {
        proof {
            reveal_strlit("~/");
        }
        let rest = string_of(slice(c.as_slice(), 2, c.len()).as_slice());
        return Some(crate::config::join_exec(home, rest.as_str()));
    }
    Some(url.to_owned())
}

/// What to do with a local hub path.
#[derive(Clone, Copy, PartialEq, Eq, Structural, Debug)]
pub enum LocalHub {
    /// It already is a repository: clone it.
    Existing,
    /// Nothing there, or an empty directory: create a bare hub in it.
    Create,
    /// A non-empty directory that is not a repository (or one that cannot be listed): refuse,
    /// never scattering git plumbing into it.
    Refuse,
}

pub open spec fn local_hub_verdict_spec(is_repo: bool, exists: bool, has_entries: Option<bool>) -> LocalHub {
    if is_repo {
        LocalHub::Existing
    } else if exists && (has_entries != Some(false)) {
        LocalHub::Refuse
    } else {
        LocalHub::Create
    }
}

/// `has_entries` is whether the directory lists anything, `None` when it cannot be listed.
pub fn local_hub_verdict(is_repo: bool, exists: bool, has_entries: Option<bool>) -> (r: LocalHub)
    ensures
        r == local_hub_verdict_spec(is_repo, exists, has_entries),
{
    if is_repo {
        LocalHub::Existing
    } else if exists && has_entries != Some(false) {
        LocalHub::Refuse
    } else {
        LocalHub::Create
    }
}

} // verus!
