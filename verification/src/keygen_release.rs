//! Release notes: the changelog's sections and the version order that filters them. Reading
//! the embedded changelog, printing and self-updating happen outside.
use vstd::prelude::*;
use crate::text::{chars_of, string_of, slice, lines, split_lines, vv, is_prefix, starts_with, trim, trimmed, pieces, split_char, parse_u64, parse_u64_spec};
use crate::clonehome::{ws_tokens, split_ws};

verus! {

// ---------------------------------------------------------------- versions

/// A version's leading `X.Y[.Z]` as a triple (a missing patch is 0): the first
/// whitespace-separated word of the trimmed text, split at `.`, each part a `u64`. Anything
/// else (`Unreleased`) has none.
pub open spec fn semver_spec(s: Seq<char>) -> Option<(u64, u64, u64)> {
    let toks = ws_tokens(trim(s));
    if toks.len() == 0 {
        None
    } else {
        let parts = pieces(toks[0], '.');
        if parts.len() < 2 {
            None
        } else {
            let major = parse_u64_spec(parts[0]);
            let minor = parse_u64_spec(parts[1]);
            let patch = if parts.len() > 2 { parse_u64_spec(parts[2]) } else { Some(0u64) };
            if major is Some && minor is Some && patch is Some {
                Some((major->0, minor->0, patch->0))
            } else {
                None
            }
        }
    }
}

/// Parse a leading `X.Y.Z`, ignoring any trailing text.
pub fn parse_semver_prefix(s: &str) -> (r: Option<(u64, u64, u64)>)
    ensures
        r == semver_spec(s@),
{
    let c = trimmed(chars_of(s).as_slice());
    let toks = split_ws(c.as_slice());
    if toks.len() == 0 {
        return None;
    }
    assert(crate::clonehome::vv(toks@)[0] == toks@[0]@);
    let parts = split_char(toks[0].as_slice(), '.');
    if parts.len() < 2 {
        return None;
    }
    assert(vv(parts@)[0] == parts@[0]@ && vv(parts@)[1] == parts@[1]@);
    let major = parse_u64(parts[0].as_slice());
    let minor = parse_u64(parts[1].as_slice());
    let patch = if parts.len() > 2 {
        assert(vv(parts@)[2] == parts@[2]@);
        parse_u64(parts[2].as_slice())
    } else {
        Some(0)
    };
    match (major, minor, patch) {
        (Some(a), Some(b), Some(p)) => Some((a, b, p)),
        _ => None,
    }
}

/// Versions compare component by component.
pub open spec fn version_lt(a: (u64, u64, u64), b: (u64, u64, u64)) -> bool {
    a.0 < b.0 || (a.0 == b.0 && (a.1 < b.1 || (a.1 == b.1 && a.2 < b.2)))
}

fn version_newer(v: (u64, u64, u64), floor: (u64, u64, u64)) -> (b: bool)
    ensures
        b == version_lt(floor, v),
{
    floor.0 < v.0 || (floor.0 == v.0 && (floor.1 < v.1 || (floor.1 == v.1 && floor.2 < v.2)))
}

/// A section headed `heading` is shown for `--since` with version `floor` when its version is
/// newer, or when either does not parse (an `Unreleased` section is never hidden).
pub open spec fn newer_spec(heading: Seq<char>, floor: Option<(u64, u64, u64)>) -> bool {
    match (semver_spec(heading), floor) {
        (Some(v), Some(f)) => version_lt(f, v),
        _ => true,
    }
}

// ---------------------------------------------------------------- sections

/// Walking the first `n` lines: the finished sections and the one being read. A `## ` line
/// starts a section (its heading trimmed, its body starting with the line itself); later
/// lines join the current section's body, each with its newline; lines before the first
/// heading belong to none.
pub open spec fn walk(ls: Seq<Seq<char>>, n: nat) -> (Seq<(Seq<char>, Seq<char>)>, Option<(Seq<char>, Seq<char>)>)
    decreases n,
{
    if n == 0 {
        (Seq::empty(), None)
    } else {
        let (done, cur) = walk(ls, (n - 1) as nat);
        let line = ls[n - 1];
        if is_prefix("## "@, line) {
            let next = Some((trim(line.skip(3)), line + seq!['\n']));
            match cur {
                Some(c) => (done.push(c), next),
                None => (done, next),
            }
        } else {
            match cur {
                Some(c) => (done, Some((c.0, c.1 + line + seq!['\n']))),
                None => (done, None),
            }
        }
    }
}

/// The changelog's sections, in file order, as `(heading, body)`.
pub open spec fn sections_spec(text: Seq<char>) -> Seq<(Seq<char>, Seq<char>)> {
    let (done, cur) = walk(lines(text), lines(text).len());
    match cur {
        Some(c) => done.push(c),
        None => done,
    }
}

pub open spec fn pairs_view(v: Seq<(String, String)>) -> Seq<(Seq<char>, Seq<char>)> {
    v.map_values(|p: (String, String)| (p.0@, p.1@))
}

/// The sections of a changelog's text.
pub fn changelog_sections(text: &str) -> (sections: Vec<(String, String)>)
    ensures
        pairs_view(sections@) == sections_spec(text@),
{
    let c = chars_of(text);
    let ls = split_lines(c.as_slice());
    let marker = chars_of("## ");
    proof {
        reveal_strlit("## ");
    }
    let mut done: Vec<(String, String)> = Vec::new();
    let mut cur: Option<(String, Vec<char>)> = None;
    let mut i: usize = 0;
    while i < ls.len()
        invariant
            0 <= i <= ls@.len(),
            marker@ == "## "@,
            marker@.len() == 3,
            vv(ls@) == lines(text@),
            pairs_view(done@) == walk(lines(text@), i as nat).0,
            match walk(lines(text@), i as nat).1 {
                Some(w) => cur matches Some(p) && p.0@ == w.0 && p.1@ == w.1,
                None => cur is None,
            },
        decreases ls@.len() - i,
    {
        let line = &ls[i];
        assert(vv(ls@)[i as int] == line@);
        if starts_with(line.as_slice(), marker.as_slice()) {
            if let Some((h, b)) = cur {
                let ghost before = pairs_view(done@);
                let bs = string_of(b.as_slice());
                done.push((h, bs));
                assert(pairs_view(done@) =~= before.push((h@, b@)));
            }
            let n = line.len();
            let head = trimmed(slice(line.as_slice(), 3, n).as_slice());
            assert(slice_spec_of(line@) =~= line@.skip(3));
            let mut body = slice(line.as_slice(), 0, n);
            assert(line@.subrange(0, n as int) =~= line@);
            body.push('\n');
            cur = Some((string_of(head.as_slice()), body));
        } else {
            match cur {
                Some((h, b)) => {
                    let mut nb = b;
                    crate::text::push_all(&mut nb, line.as_slice());
                    nb.push('\n');
                    cur = Some((h, nb));
                },
                None => {},
            }
        }
        i += 1;
    }
    if let Some((h, b)) = cur {
        let ghost before = pairs_view(done@);
        let bs = string_of(b.as_slice());
        done.push((h, bs));
        assert(pairs_view(done@) =~= before.push((h@, b@)));
    }
    done
}

pub open spec fn slice_spec_of(line: Seq<char>) -> Seq<char> {
    line.subrange(3, line.len() as int)
}

proof fn lemma_walk_bodies(ls: Seq<Seq<char>>, n: nat)
    requires
        n <= ls.len(),
    ensures
        forall|j: int| 0 <= j < walk(ls, n).0.len() ==> is_prefix("## "@, #[trigger] walk(ls, n).0[j].1),
        walk(ls, n).1 matches Some(c) ==> is_prefix("## "@, c.1),
    decreases n,
{
    reveal_strlit("## ");
    if n > 0 {
        lemma_walk_bodies(ls, (n - 1) as nat);
        let (done, cur) = walk(ls, (n - 1) as nat);
        let line = ls[n - 1];
        if is_prefix("## "@, line) {
            assert((line + seq!['\n']).subrange(0, 3) =~= line.subrange(0, 3));
        } else if cur is Some {
            let c = cur->0;
            assert((c.1 + line + seq!['\n']).subrange(0, 3) =~= c.1.subrange(0, 3));
        }
    }
}

/// Every section's body starts with its own `## ` heading line: nothing before the first
/// heading (a file title) leaks into a section.
pub proof fn sections_start_with_their_heading(text: Seq<char>)
    ensures
        forall|j: int| 0 <= j < sections_spec(text).len() ==> is_prefix("## "@, #[trigger] sections_spec(text)[j].1),
{
    lemma_walk_bodies(lines(text), lines(text).len());
    let (done, cur) = walk(lines(text), lines(text).len());
    if cur is Some {
        assert forall|j: int| 0 <= j < sections_spec(text).len() implies is_prefix("## "@, #[trigger] sections_spec(text)[j].1) by {
            if j < done.len() {
                assert(sections_spec(text)[j] == done[j]);
            }
        }
    }
}

/// Which sections `confer changelog` shows: all of them with `--all`; with `--since`, those
/// newer than it (see `newer_spec`); otherwise just the newest (the first).
pub open spec fn selected_spec(sections: Seq<(Seq<char>, Seq<char>)>, since: Option<Seq<char>>, all: bool) -> Seq<(Seq<char>, Seq<char>)> {
    if all {
        sections
    } else if since is Some {
        sections.filter(|s: (Seq<char>, Seq<char>)| newer_spec(s.0, semver_spec(since->0)))
    } else {
        sections.take(if sections.len() < 1 { sections.len() as int } else { 1 })
    }
}

/// The sections to show, in order.
pub fn select_sections(sections: &Vec<(String, String)>, since: &Option<String>, all: bool) -> (r: Vec<(String, String)>)
    ensures
        pairs_view(r@) == selected_spec(
            pairs_view(sections@),
            match since {
                Some(s) => Some(s@),
                None => None,
            },
            all,
        ),
{
    let ghost sv = pairs_view(sections@);
    let mut out: Vec<(String, String)> = Vec::new();
    if all {
        let mut i: usize = 0;
        while i < sections.len()
            invariant
                0 <= i <= sections@.len(),
                sv == pairs_view(sections@),
                pairs_view(out@) == sv.take(i as int),
                out@.len() == i,
            decreases sections@.len() - i,
        {
            let ghost before = out@;
            let p = (sections[i].0.clone(), sections[i].1.clone());
            out.push(p);
            assert(out@ == before.push(p));
            assert(pairs_view(out@) =~= sv.take(i + 1));
            i += 1;
        }
        assert(sv.take(sections@.len() as int) =~= sv);
        return out;
    }
    match since {
        Some(s) => {
            let floor = parse_semver_prefix(s.as_str());
            let ghost pred = |x: (Seq<char>, Seq<char>)| newer_spec(x.0, semver_spec(s@));
            let mut i: usize = 0;
            while i < sections.len()
                invariant
                    0 <= i <= sections@.len(),
                    sv == pairs_view(sections@),
                    floor == semver_spec(s@),
                    pred == (|x: (Seq<char>, Seq<char>)| newer_spec(x.0, semver_spec(s@))),
                    pairs_view(out@) == sv.take(i as int).filter(pred),
                decreases sections@.len() - i,
            {
                assert(sv.take(i + 1) =~= sv.take(i as int).push(sv[i as int]));
                proof {
                    sv.take(i as int).lemma_filter_push(sv[i as int], pred);
                }
                let v = parse_semver_prefix(sections[i].0.as_str());
                let keep = match (v, floor) {
                    (Some(vv), Some(f)) => version_newer(vv, f),
                    _ => true,
                };
                if keep {
                    let ghost before = pairs_view(out@);
                    out.push((sections[i].0.clone(), sections[i].1.clone()));
                    assert(pairs_view(out@) =~= before.push(sv[i as int]));
                }
                i += 1;
            }
            assert(sv.take(sections@.len() as int) =~= sv);
            out
        },
        None => {
            if sections.len() > 0 {
                out.push((sections[0].0.clone(), sections[0].1.clone()));
                assert(pairs_view(out@) =~= sv.take(1));
            } else {
                assert(pairs_view(out@) =~= sv.take(0));
            }
            out
        },
    }
}

} // verus!
