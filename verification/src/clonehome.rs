//! Managed clone home: a hidden, organized tree of per-identity hub clones,
//! `<clones>/<hub-slug>-<hubtag>/<role-slug>-<keytag>/`. The path is a pure function of
//! `(hub_key, role-id, signing pubkey)`; resolution anchors on the trailing tags, the slug
//! prefixes are cosmetic.
use vstd::prelude::*;
use crate::text::opt_str;
use vstd::utf8::encode_utf8;
use vstd::string::StringSliceAdditionalSpecFns;
use crate::text::{ascii_alnum, ascii_digit, ascii_lower, chars_of, is_ascii_alnum, is_ascii_digit, is_ws, last_index, push_all, same, slice, string_of, to_ascii_lower, trim, trimmed, whitespace};

verus! {

// ====================================================================== tags

pub open spec fn fnv_offset() -> u64 {
    0xcbf2_9ce4_8422_2325
}

pub open spec fn fnv_prime() -> u64 {
    0x0000_0100_0000_01b3
}

/// FNV-1a-64 over `bytes`.
pub open spec fn fnv1a(bytes: Seq<u8>) -> u64
    decreases bytes.len(),
{
    if bytes.len() == 0 {
        fnv_offset()
    } else {
        (fnv1a(bytes.drop_last()) ^ (bytes.last() as u64)).wrapping_mul(fnv_prime())
    }
}

/// Lowercase hex digit for `d < 16`.
pub open spec fn hex_digit(d: nat) -> char {
    if d < 10 {
        ((d + 48) as u32) as char
    } else {
        ((d + 87) as u32) as char
    }
}

/// The low `w` hex digits of `n`, most significant first, zero-padded.
pub open spec fn hex_fixed(n: nat, w: nat) -> Seq<char>
    decreases w,
{
    if w == 0 {
        seq![]
    } else {
        hex_fixed(n / 16, (w - 1) as nat).push(hex_digit(n % 16))
    }
}

/// The 12-hex-digit tag of `s`: the low 48 bits of FNV-1a over its UTF-8 bytes.
pub open spec fn tag_of(s: Seq<char>) -> Seq<char> {
    hex_fixed((fnv1a(encode_utf8(s)) & 0xffff_ffff_ffff) as nat, 12)
}

pub fn fnv1a_exec(bytes: &[u8]) -> (h: u64)
    ensures
        h == fnv1a(bytes@),
{
    let mut h: u64 = 0xcbf2_9ce4_8422_2325;
    let mut i: usize = 0;
    while i < bytes.len()
        invariant
            0 <= i <= bytes@.len(),
            h == fnv1a(bytes@.take(i as int)),
        decreases bytes@.len() - i,
    {
        assert(bytes@.take(i + 1).drop_last() =~= bytes@.take(i as int));
        h = (h ^ (bytes[i] as u64)).wrapping_mul(0x0000_0100_0000_01b3);
        i += 1;
    }
    assert(bytes@.take(bytes@.len() as int) =~= bytes@);
    h
}

fn hex_fixed_exec(n: u64, w: usize) -> (r: Vec<char>)
    ensures
        r@ == hex_fixed(n as nat, w as nat),
    decreases w,
{
    if w == 0 {
        Vec::new()
    } else {
        let mut r = hex_fixed_exec(n / 16, w - 1);
        let d = n % 16;
        let c = if d < 10 { ((d as u8) + 48) as char } else { ((d as u8) + 87) as char };
        r.push(c);
        r
    }
}

/// Low bits of an FNV-1a-64 hash rendered as 12 lowercase hex digits. Hyphen-free and
/// case-fold-safe, so it can never contain the `-` that [`split_tag`] splits on.
fn hash_tag(s: &str) -> (r: String)
    ensures
        r@ == tag_of(s@),
{
    let b = s.as_bytes();
    let h = fnv1a_exec(b);
    let v = hex_fixed_exec(h & 0xffff_ffff_ffff, 12);
    string_of(v.as_slice())
}

/// Stable tag for a hub, from its machine-independent `hub_key` (root-commit sha).
pub fn hub_tag(hub_key: &str) -> (r: String)
    ensures
        r@ == tag_of(hub_key@),
{
    hash_tag(hub_key)
}

// ====================================================================== key material

/// Maximal runs of non-whitespace characters — what `split_whitespace` yields.
pub open spec fn ws_tokens(s: Seq<char>) -> Seq<Seq<char>>
    decreases s.len(),
{
    if s.len() == 0 {
        seq![]
    } else {
        let w = ws_tokens(s.drop_last());
        let c = s.last();
        if is_ws(c) {
            w
        } else if s.len() >= 2 && !is_ws(s[s.len() - 2]) {
            w.update(w.len() - 1, w.last().push(c))
        } else {
            w.push(seq![c])
        }
    }
}

pub open spec fn vv(ws: Seq<Vec<char>>) -> Seq<Seq<char>> {
    ws.map_values(|w: Vec<char>| w@)
}

proof fn lemma_ws_tokens_nonempty(s: Seq<char>)
    requires
        s.len() > 0,
        !is_ws(s.last()),
    ensures
        ws_tokens(s).len() > 0,
    decreases s.len(),
{
    if s.len() >= 2 && !is_ws(s[s.len() - 2]) {
        assert(s.drop_last().last() == s[s.len() - 2]);
        lemma_ws_tokens_nonempty(s.drop_last());
    }
}

/// The whitespace-separated tokens of `s`.
pub fn split_ws(s: &[char]) -> (ws: Vec<Vec<char>>)
    ensures
        vv(ws@) == ws_tokens(s@),
{
    let mut ws: Vec<Vec<char>> = Vec::new();
    let mut in_tok = false;
    let mut i: usize = 0;
    while i < s.len()
        invariant
            0 <= i <= s@.len(),
            vv(ws@) == ws_tokens(s@.take(i as int)),
            in_tok == (i > 0 && !is_ws(s@[i - 1])),
        decreases s@.len() - i,
    {
        let c = s[i];
        let ghost t = s@.take(i + 1);
        assert(t.drop_last() =~= s@.take(i as int));
        assert(t.last() == c);
        if whitespace(c) {
            in_tok = false;
        } else if in_tok {
            assert(t[t.len() - 2] == s@[i - 1]);
            proof {
                lemma_ws_tokens_nonempty(s@.take(i as int));
            }
            let mut last = ws.pop().unwrap();
            last.push(c);
            ws.push(last);
            assert(vv(ws@) =~= ws_tokens(t));
        } else {
            let mut w: Vec<char> = Vec::new();
            w.push(c);
            ws.push(w);
            assert(w@ =~= seq![c]);
            assert(vv(ws@) =~= ws_tokens(t));
            in_tok = true;
        }
        i += 1;
    }
    assert(s@.take(s@.len() as int) =~= s@);
    ws
}

/// Canonical key material: an ssh pubkey's algorithm + base64 body (the trailing comment
/// dropped), else the whole key trimmed.
pub open spec fn key_material_spec(pubkey: Seq<char>) -> Seq<char> {
    let t = ws_tokens(pubkey);
    if t.len() >= 2 {
        t[0] + seq![' '] + t[1]
    } else {
        trim(pubkey)
    }
}

fn key_material_chars(pubkey: &[char]) -> (r: Vec<char>)
    ensures
        r@ == key_material_spec(pubkey@),
{
    let t = split_ws(pubkey);
    if t.len() >= 2 {
        let mut r = slice(t[0].as_slice(), 0, t[0].len());
        r.push(' ');
        push_all(&mut r, t[1].as_slice());
        assert(vv(t@)[0] == t@[0]@ && vv(t@)[1] == t@[1]@);
        assert(r@ =~= t@[0]@ + seq![' '] + t@[1]@);
        r
    } else {
        trimmed(pubkey)
    }
}

/// Canonical key material for tagging (algorithm + body; the comment varies).
fn key_material(pubkey: &str) -> (r: String)
    ensures
        r@ == key_material_spec(pubkey@),
{
    let c = chars_of(pubkey);
    let m = key_material_chars(c.as_slice());
    string_of(m.as_slice())
}

/// Stable tag for an identity, derived in-process from its signing pubkey's canonical
/// material — so the comment never changes it.
pub fn key_tag(pubkey: &str) -> (r: String)
    ensures
        r@ == tag_of(key_material_spec(pubkey@)),
{
    let m = key_material(pubkey);
    hash_tag(m.as_str())
}

/// Two keys are the same key when their canonical material is equal.
pub open spec fn same_key_spec(a: Seq<char>, b: Seq<char>) -> bool {
    key_material_spec(a) == key_material_spec(b)
}

/// Same ssh key by algorithm + material (the trailing comment is ignored).
pub fn same_key(a: &str, b: &str) -> (r: bool)
    ensures
        r == same_key_spec(a@, b@),
{
    let ac = chars_of(a);
    let bc = chars_of(b);
    let ma = key_material_chars(ac.as_slice());
    let mb = key_material_chars(bc.as_slice());
    same(ma.as_slice(), mb.as_slice())
}

// ====================================================================== slugs

/// Characters the slug keeps (lowercased): ASCII alphanumerics and `_`.
pub open spec fn slug_keep(c: char) -> bool {
    is_ascii_alnum(c) || c == '_'
}

/// Left-to-right slugging before trimming: kept chars lowercased, every run of other chars
/// one `-`.
pub open spec fn slug_raw(s: Seq<char>) -> Seq<char>
    decreases s.len(),
{
    if s.len() == 0 {
        seq![]
    } else {
        let r = slug_raw(s.drop_last());
        let c = s.last();
        if slug_keep(c) {
            r.push(ascii_lower(c))
        } else if r.len() > 0 && r.last() == '-' {
            r
        } else {
            r.push('-')
        }
    }
}

/// `trim_matches('-')`.
pub open spec fn trim_dash_start(s: Seq<char>) -> Seq<char>
    decreases s.len(),
{
    if s.len() > 0 && s[0] == '-' {
        trim_dash_start(s.drop_first())
    } else {
        s
    }
}

pub open spec fn trim_dash_end(s: Seq<char>) -> Seq<char>
    decreases s.len(),
{
    if s.len() > 0 && s.last() == '-' {
        trim_dash_end(s.drop_last())
    } else {
        s
    }
}

pub open spec fn trim_dash(s: Seq<char>) -> Seq<char> {
    trim_dash_end(trim_dash_start(s))
}

pub open spec fn take_at_most(s: Seq<char>, n: nat) -> Seq<char> {
    if s.len() <= n { s } else { s.take(n as int) }
}

/// `slug`: lowercase ASCII alnum + `_`, other runs to one `-`, ends trimmed, capped at 24
/// chars, never empty (`"x"`).
pub open spec fn slug_spec(label: Seq<char>) -> Seq<char> {
    let s = trim_dash(take_at_most(trim_dash(slug_raw(label)), 24));
    if s.len() == 0 {
        seq!['x']
    } else {
        s
    }
}

proof fn lemma_trim_dash_start_skip(s: Seq<char>, i: int)
    requires
        0 <= i <= s.len(),
        forall|j: int| 0 <= j < i ==> s[j] == '-',
    ensures
        trim_dash_start(s) == trim_dash_start(s.subrange(i, s.len() as int)),
    decreases i,
{
    if i > 0 {
        assert(s.drop_first().subrange(i - 1, s.drop_first().len() as int) =~= s.subrange(i, s.len() as int));
        lemma_trim_dash_start_skip(s.drop_first(), i - 1);
    } else {
        assert(s.subrange(0, s.len() as int) =~= s);
    }
}

proof fn lemma_trim_dash_end_take(s: Seq<char>, i: int)
    requires
        0 <= i <= s.len(),
        forall|j: int| i <= j < s.len() ==> s[j] == '-',
    ensures
        trim_dash_end(s) == trim_dash_end(s.subrange(0, i)),
    decreases s.len() - i,
{
    if i < s.len() {
        assert(s.drop_last().subrange(0, i) =~= s.subrange(0, i));
        lemma_trim_dash_end_take(s.drop_last(), i);
    } else {
        assert(s.subrange(0, s.len() as int) =~= s);
    }
}

fn trim_dashes(s: &[char]) -> (r: Vec<char>)
    ensures
        r@ == trim_dash(s@),
{
    let mut a: usize = 0;
    while a < s.len() && s[a] == '-'
        invariant
            0 <= a <= s@.len(),
            forall|j: int| 0 <= j < a ==> s@[j] == '-',
        decreases s@.len() - a,
    {
        a += 1;
    }
    proof {
        lemma_trim_dash_start_skip(s@, a as int);
    }
    let t = slice(s, a, s.len());
    let mut b: usize = t.len();
    while b > 0 && t[b - 1] == '-'
        invariant
            0 <= b <= t@.len(),
            forall|j: int| b <= j < t@.len() ==> t@[j] == '-',
        decreases b,
    {
        b -= 1;
    }
    proof {
        lemma_trim_dash_end_take(t@, b as int);
    }
    slice(t.as_slice(), 0, b)
}

fn slug_raw_exec(s: &[char]) -> (r: Vec<char>)
    ensures
        r@ == slug_raw(s@),
{
    let mut out: Vec<char> = Vec::new();
    let mut dash = false;
    let mut i: usize = 0;
    while i < s.len()
        invariant
            0 <= i <= s@.len(),
            out@ == slug_raw(s@.take(i as int)),
            dash == (out@.len() > 0 && out@.last() == '-'),
        decreases s@.len() - i,
    {
        let c = s[i];
        assert(s@.take(i + 1).drop_last() =~= s@.take(i as int));
        if ascii_alnum(c) || c == '_' {
            let lc = to_ascii_lower(c);
            out.push(lc);
            dash = false;
        } else if !dash {
            out.push('-');
            dash = true;
        }
        i += 1;
    }
    assert(s@.take(s@.len() as int) =~= s@);
    out
}

/// Human-readable, path-safe slug for the cosmetic prefix of a segment. Never empty and
/// never holds a `/` or `..`.
pub fn slug(label: &str) -> (r: String)
    ensures
        r@ == slug_spec(label@),
{
    let c = chars_of(label);
    let raw = slug_raw_exec(c.as_slice());
    let t = trim_dashes(raw.as_slice());
    let cap = if t.len() <= 24 { t.len() } else { 24 };
    let capped = slice(t.as_slice(), 0, cap);
    assert(capped@ =~= take_at_most(t@, 24));
    let s = trim_dashes(capped.as_slice());
    if s.len() == 0 {
        string_of(&['x'])
    } else {
        string_of(s.as_slice())
    }
}

// ====================================================================== directory names

/// Managed directory NAME for a hub: `<hub-slug>-<hubtag>`.
pub fn hub_dir_name(hub_slug: &str, hub_key: &str) -> (r: String)
    ensures
        r@ == slug_spec(hub_slug@) + seq!['-'] + tag_of(hub_key@),
{
    let a = chars_of(slug(hub_slug).as_str());
    let t = chars_of(hub_tag(hub_key).as_str());
    let mut v = a;
    v.push('-');
    push_all(&mut v, t.as_slice());
    string_of(v.as_slice())
}

/// Managed directory NAME for an identity within a hub: `<role-slug>-<keytag>`.
pub fn role_dir_name(role_id: &str, pubkey: &str) -> (r: String)
    ensures
        r@ == slug_spec(role_id@) + seq!['-'] + tag_of(key_material_spec(pubkey@)),
{
    let a = chars_of(slug(role_id).as_str());
    let t = chars_of(key_tag(pubkey).as_str());
    let mut v = a;
    v.push('-');
    push_all(&mut v, t.as_slice());
    string_of(v.as_slice())
}

/// `rsplit_once('-')`: the text before and after the LAST `-`.
pub open spec fn split_tag_spec(s: Seq<char>) -> Option<(Seq<char>, Seq<char>)> {
    match crate::text::last_index_of(s, '-') {
        Some(i) => Some((s.subrange(0, i), s.subrange(i + 1, s.len() as int))),
        None => None,
    }
}

/// "Grab the last part": split a managed dir NAME into (cosmetic-slug, stable-tag) on the
/// LAST `-`. `None` when there is no separator (foreign dirs are ignored).
pub fn split_tag(dir_name: &str) -> (r: Option<(String, String)>)
    ensures
        r matches Some(p) ==> split_tag_spec(dir_name@) == Some((p.0@, p.1@)),
        r is None ==> split_tag_spec(dir_name@) is None,
{
    let c = chars_of(dir_name);
    let n = c.len();
    match last_index(c.as_slice(), '-') {
        Some(i) => {
            assert(i < n);
            let a = slice(c.as_slice(), 0, i);
            let b = slice(c.as_slice(), i + 1, c.len());
            Some((string_of(a.as_slice()), string_of(b.as_slice())))
        },
        None => None,
    }
}

/// A well-formed tag: exactly 12 lowercase hex digits.
pub open spec fn is_tag_spec(s: Seq<char>) -> bool {
    s.len() == 12 && forall|i: int| 0 <= i < s.len() ==> (is_ascii_digit(#[trigger] s[i]) || ('a' <= s[i] && s[i] <= 'f'))
}

fn is_tag_chars(s: &[char]) -> (r: bool)
    ensures
        r == is_tag_spec(s@),
{
    if s.len() != 12 {
        return false;
    }
    let mut i: usize = 0;
    while i < s.len()
        invariant
            0 <= i <= s@.len(),
            s@.len() == 12,
            forall|k: int| 0 <= k < i ==> (is_ascii_digit(#[trigger] s@[k]) || ('a' <= s@[k] && s@[k] <= 'f')),
        decreases s@.len() - i,
    {
        let c = s[i];
        if !(ascii_digit(c) || ('a' <= c && c <= 'f')) {
            return false;
        }
        i += 1;
    }
    true
}

fn is_tag(s: &str) -> (r: bool)
    ensures
        r == is_tag_spec(s@),
{
    let c = chars_of(s);
    is_tag_chars(c.as_slice())
}

/// Does a managed dir NAME carry exactly this well-formed stable tag as its trailing segment?
pub open spec fn tag_matches_spec(dir_name: Seq<char>, want: Seq<char>) -> bool {
    match split_tag_spec(dir_name) {
        Some((_, t)) => t == want && is_tag_spec(t),
        None => false,
    }
}

fn tag_matches(dir_name: &str, want: &str) -> (r: bool)
    ensures
        r == tag_matches_spec(dir_name@, want@),
{
    match split_tag(dir_name) {
        Some((_, t)) => {
            let tc = chars_of(t.as_str());
            let wc = chars_of(want);
            same(tc.as_slice(), wc.as_slice()) && is_tag_chars(tc.as_slice())
        },
        None => false,
    }
}

// ====================================================================== resolution

/// One `<hub-dir>/<role-dir>` entry found under the clones home.
pub struct Candidate {
    pub hub_dir: String,
    pub role_dir: String,
    /// Both entries are real directories (not symlinks).
    pub dirs: bool,
    /// `.confer/identity.json` is a regular file.
    pub identity_file: bool,
    /// The pubkey the clone's identity commits to, if any.
    pub pubkey: Option<String>,
}

/// Does `c` resolve as the clone of (hub tag, key tag), verifying the pubkey when one is
/// expected (a clone that records no matching pubkey is no match)?
pub open spec fn accepts(c: Candidate, hub_tag: Seq<char>, key_tag: Seq<char>, expect: Option<Seq<char>>) -> bool {
    &&& c.dirs
    &&& tag_matches_spec(c.hub_dir@, hub_tag)
    &&& tag_matches_spec(c.role_dir@, key_tag)
    &&& c.identity_file
    &&& match expect {
        Some(want) => match c.pubkey {
            Some(have) => key_material_spec(have@) == key_material_spec(want),
            None => false,
        },
        None => true,
    }
}

pub open spec fn opt_ref(o: Option<&str>) -> Option<Seq<char>> {
    match o {
        Some(s) => Some(s@),
        None => None,
    }
}

fn accepts_exec(c: &Candidate, hub_tag: &str, key_tag: &str, expect: Option<&str>) -> (r: bool)
    ensures
        r == accepts(*c, hub_tag@, key_tag@, opt_ref(expect)),
{
    if !c.dirs || !tag_matches(c.hub_dir.as_str(), hub_tag) || !tag_matches(c.role_dir.as_str(), key_tag)
        || !c.identity_file {
        return false;
    }
    match expect {
        Some(want) => match &c.pubkey {
            Some(have) => same_key(have.as_str(), want),
            None => false,
        },
        None => true,
    }
}

/// Choose the existing managed clone for (hub tag, key tag) among the entries found on disk:
/// the ONE accepted candidate; `None` when there is none, or more than one (ambiguous — one
/// could be planted, so fail closed rather than guess).
pub fn resolve_by_tags(cands: &[Candidate], hub_tag: &str, key_tag: &str, expect: Option<&str>) -> (r: Option<usize>)
    ensures
        r matches Some(i) ==> i < cands@.len() && accepts(cands@[i as int], hub_tag@, key_tag@, opt_ref(expect))
            && forall|j: int| 0 <= j < cands@.len() && j != i ==> !accepts(#[trigger] cands@[j], hub_tag@, key_tag@, opt_ref(expect)),
        r is None ==> forall|i: int| 0 <= i < cands@.len() && accepts(#[trigger] cands@[i], hub_tag@, key_tag@, opt_ref(expect))
            ==> exists|j: int| 0 <= j < cands@.len() && j != i && accepts(#[trigger] cands@[j], hub_tag@, key_tag@, opt_ref(expect)),
{
    let mut found: Option<usize> = None;
    let mut i: usize = 0;
    while i < cands.len()
        invariant
            0 <= i <= cands@.len(),
            found matches Some(f) ==> f < i && accepts(cands@[f as int], hub_tag@, key_tag@, opt_ref(expect))
                && forall|j: int| 0 <= j < i && j != f ==> !accepts(#[trigger] cands@[j], hub_tag@, key_tag@, opt_ref(expect)),
            found is None ==> forall|j: int| 0 <= j < i ==> !accepts(#[trigger] cands@[j], hub_tag@, key_tag@, opt_ref(expect)),
        decreases cands@.len() - i,
    {
        if accepts_exec(&cands[i], hub_tag, key_tag, expect) {
            if let Some(f) = found {
                assert(accepts(cands@[f as int], hub_tag@, key_tag@, opt_ref(expect)));
                assert(accepts(cands@[i as int], hub_tag@, key_tag@, opt_ref(expect)));
                return None;
            }
            found = Some(i);
        }
        i += 1;
    }
    found
}

/// The existing managed clone of identity `pubkey` in the hub keyed `hub_key`, among the
/// entries found under the clones home: the one accepted for the hub's and key's tags whose
/// recorded pubkey has the same key material.
pub fn resolve(hub_key: &str, pubkey: &str, cands: &[Candidate]) -> (r: Option<usize>)
    ensures
        r matches Some(i) ==> i < cands@.len() && accepts(cands@[i as int], tag_of(hub_key@), tag_of(key_material_spec(pubkey@)), Some(pubkey@))
            && forall|j: int| 0 <= j < cands@.len() && j != i ==> !accepts(#[trigger] cands@[j], tag_of(hub_key@), tag_of(key_material_spec(pubkey@)), Some(pubkey@)),
        r is None ==> forall|i: int| 0 <= i < cands@.len() && accepts(#[trigger] cands@[i], tag_of(hub_key@), tag_of(key_material_spec(pubkey@)), Some(pubkey@))
            ==> exists|j: int| 0 <= j < cands@.len() && j != i && accepts(#[trigger] cands@[j], tag_of(hub_key@), tag_of(key_material_spec(pubkey@)), Some(pubkey@)),
{
    let ht = hub_tag(hub_key);
    let kt = key_tag(pubkey);
    resolve_by_tags(cands, ht.as_str(), kt.as_str(), Some(pubkey))
}

/// The managed clones home: `<home>/.confer/clones`.
pub fn root(home: &str) -> (r: String)
    ensures
        r@ == crate::config::join(crate::config::join(home@, ".confer"@), "clones"@),
{
    let c = crate::config::join_exec(home, ".confer");
    crate::config::join_exec(c.as_str(), "clones")
}

/// Where a new managed clone of `(hub, role, pubkey)` goes:
/// `<home>/.confer/clones/<hub-dir-name>/<role-dir-name>`.
pub fn clone_dir(home: &str, hub_slug: &str, hub_key: &str, role_id: &str, pubkey: &str) -> (r: String)
    ensures
        r@ == crate::config::join(
            crate::config::join(crate::config::join(crate::config::join(home@, ".confer"@), "clones"@), slug_spec(hub_slug@) + seq!['-'] + tag_of(hub_key@)),
            slug_spec(role_id@) + seq!['-'] + tag_of(key_material_spec(pubkey@)),
        ),
{
    let r = root(home);
    let h = hub_dir_name(hub_slug, hub_key);
    let d = role_dir_name(role_id, pubkey);
    let a = crate::config::join_exec(r.as_str(), h.as_str());
    crate::config::join_exec(a.as_str(), d.as_str())
}

/// One managed clone on disk (for `confer clones`).
pub struct ManagedClone {
    pub path: String,
    pub role: String,
    pub hub_slug: String,
}

/// The label a listed clone shows: the role its identity records, else the cosmetic prefix
/// of its dir name, else the whole dir name.
pub open spec fn clone_label_spec(recorded: Option<Seq<char>>, dir_name: Seq<char>) -> Seq<char> {
    match recorded {
        Some(r) => r,
        None => match split_tag_spec(dir_name) {
            Some((s, _)) => s,
            None => dir_name,
        },
    }
}

pub fn clone_label(recorded: Option<String>, dir_name: &str) -> (r: String)
    ensures
        r@ == clone_label_spec(opt_str(recorded), dir_name@),
{
    match recorded {
        Some(r) => r,
        None => match split_tag(dir_name) {
            Some((s, _)) => s,
            None => dir_name.to_owned(),
        },
    }
}

// ====================================================================== laws

pub open spec fn lower_hex(c: char) -> bool {
    is_ascii_digit(c) || ('a' <= c && c <= 'f')
}

proof fn lemma_hex_fixed(n: nat, w: nat)
    ensures
        hex_fixed(n, w).len() == w,
        forall|i: int| 0 <= i < w ==> lower_hex(#[trigger] hex_fixed(n, w)[i]),
    decreases w,
{
    if w > 0 {
        lemma_hex_fixed(n / 16, (w - 1) as nat);
        let d = n % 16;
        assert(lower_hex(hex_digit(d)));
    }
}

/// Every tag is exactly 12 lowercase hex digits — well-formed for [`is_tag`] and free of the
/// `-` that [`split_tag`] splits on.
pub proof fn tag_is_well_formed(s: Seq<char>)
    ensures
        is_tag_spec(tag_of(s)),
        !tag_of(s).contains('-'),
{
    let t = tag_of(s);
    lemma_hex_fixed((fnv1a(encode_utf8(s)) & 0xffff_ffff_ffff) as nat, 12);
    assert forall|i: int| 0 <= i < t.len() implies (is_ascii_digit(#[trigger] t[i]) || ('a' <= t[i] && t[i] <= 'f')) by {
        assert(lower_hex(t[i]));
    }
    if t.contains('-') {
        let i = choose|i: int| 0 <= i < t.len() && t[i] == '-';
        assert(lower_hex(t[i]));
    }
}

/// A composed managed-dir name splits back into its cosmetic slug and its stable tag, and
/// matches that tag: `split_tag(slug + "-" + tag) == (slug, tag)`.
pub proof fn dir_name_round_trip(label: Seq<char>, key: Seq<char>)
    ensures
        split_tag_spec(slug_spec(label) + seq!['-'] + tag_of(key)) == Some((slug_spec(label), tag_of(key))),
        tag_matches_spec(slug_spec(label) + seq!['-'] + tag_of(key), tag_of(key)),
{
    let a = slug_spec(label);
    let t = tag_of(key);
    let name = a + seq!['-'] + t;
    tag_is_well_formed(key);
    let i = a.len() as int;
    assert(name[i] == '-');
    assert forall|j: int| i < j < name.len() implies name[j] != '-' by {
        assert(name[j] == t[j - i - 1]);
        if t[j - i - 1] == '-' {
            assert(t.contains('-'));
        }
    }
    crate::text::lemma_last_index(name, '-', i);
    assert(name.subrange(0, i) =~= a);
    assert(name.subrange(i + 1, name.len() as int) =~= t);
}

pub open spec fn slug_char(c: char) -> bool {
    ('a' <= c && c <= 'z') || is_ascii_digit(c) || c == '_' || c == '-'
}

pub open spec fn all_slug_chars(s: Seq<char>) -> bool {
    forall|i: int| 0 <= i < s.len() ==> slug_char(#[trigger] s[i])
}

proof fn lemma_slug_raw_chars(s: Seq<char>)
    ensures
        all_slug_chars(slug_raw(s)),
    decreases s.len(),
{
    if s.len() > 0 {
        lemma_slug_raw_chars(s.drop_last());
        let r = slug_raw(s.drop_last());
        let c = s.last();
        if slug_keep(c) {
            assert(slug_char(ascii_lower(c)));
            assert forall|i: int| 0 <= i < r.push(ascii_lower(c)).len() implies slug_char(#[trigger] r.push(ascii_lower(c))[i]) by {
                if i < r.len() {
                    assert(r.push(ascii_lower(c))[i] == r[i]);
                }
            }
        } else {
            assert forall|i: int| 0 <= i < r.push('-').len() implies slug_char(#[trigger] r.push('-')[i]) by {
                if i < r.len() {
                    assert(r.push('-')[i] == r[i]);
                }
            }
        }
    }
}

proof fn lemma_trim_dash_chars(s: Seq<char>)
    requires
        all_slug_chars(s),
    ensures
        all_slug_chars(trim_dash(s)),
        trim_dash(s).len() <= s.len(),
        trim_dash(s).len() == 0 || (trim_dash(s)[0] != '-' && trim_dash(s).last() != '-'),
{
    lemma_trim_dash_start(s);
    lemma_trim_dash_end(trim_dash_start(s));
}

proof fn lemma_trim_dash_start(s: Seq<char>)
    requires
        all_slug_chars(s),
    ensures
        all_slug_chars(trim_dash_start(s)),
        trim_dash_start(s).len() <= s.len(),
        trim_dash_start(s).len() == 0 || trim_dash_start(s)[0] != '-',
    decreases s.len(),
{
    if s.len() > 0 && s[0] == '-' {
        assert forall|i: int| 0 <= i < s.drop_first().len() implies slug_char(#[trigger] s.drop_first()[i]) by {
            assert(s.drop_first()[i] == s[i + 1]);
        }
        lemma_trim_dash_start(s.drop_first());
    }
}

proof fn lemma_trim_dash_end(s: Seq<char>)
    requires
        all_slug_chars(s),
        s.len() == 0 || s[0] != '-',
    ensures
        all_slug_chars(trim_dash_end(s)),
        trim_dash_end(s).len() <= s.len(),
        trim_dash_end(s).len() == 0 || (trim_dash_end(s)[0] != '-' && trim_dash_end(s).last() != '-'),
    decreases s.len(),
{
    if s.len() > 0 && s.last() == '-' {
        assert forall|i: int| 0 <= i < s.drop_last().len() implies slug_char(#[trigger] s.drop_last()[i]) by {
            assert(s.drop_last()[i] == s[i]);
        }
        if s.drop_last().len() > 0 {
            assert(s.drop_last()[0] == s[0]);
        }
        lemma_trim_dash_end(s.drop_last());
    }
}

/// A slug is never empty, at most 24 chars, and made only of `[a-z0-9_-]` with no leading
/// or trailing `-` — so it can hold neither a `/` nor a `..`, and a hostile label cannot
/// escape the clones home.
pub proof fn slug_is_path_safe(label: Seq<char>)
    ensures
        slug_spec(label).len() > 0,
        slug_spec(label).len() <= 24,
        all_slug_chars(slug_spec(label)),
        slug_spec(label)[0] != '-',
        slug_spec(label).last() != '-',
        !slug_spec(label).contains('/'),
{
    let raw = slug_raw(label);
    lemma_slug_raw_chars(label);
    lemma_trim_dash_chars(raw);
    let a = trim_dash(raw);
    let b = take_at_most(a, 24);
    assert(all_slug_chars(b)) by {
        assert forall|i: int| 0 <= i < b.len() implies slug_char(#[trigger] b[i]) by {
            assert(b[i] == a[i]);
        }
    }
    lemma_trim_dash_chars(b);
    let s = slug_spec(label);
    if trim_dash(b).len() == 0 {
        assert(s =~= seq!['x']);
    }
    if s.contains('/') {
        let i = choose|i: int| 0 <= i < s.len() && s[i] == '/';
        assert(slug_char(s[i]));
    }
}

/// No two neighbouring `-`.
pub open spec fn no_double_dash(s: Seq<char>) -> bool {
    forall|i: int| 0 <= i < s.len() - 1 ==> !(#[trigger] s[i] == '-' && s[i + 1] == '-')
}

proof fn lemma_slug_raw_no_double_dash(s: Seq<char>)
    ensures
        no_double_dash(slug_raw(s)),
    decreases s.len(),
{
    if s.len() > 0 {
        lemma_slug_raw_no_double_dash(s.drop_last());
        let r = slug_raw(s.drop_last());
        let t = slug_raw(s);
        assert forall|i: int| 0 <= i < t.len() - 1 implies !(#[trigger] t[i] == '-' && t[i + 1] == '-') by {
            if i + 1 < r.len() {
                assert(t[i] == r[i] && t[i + 1] == r[i + 1]);
            } else if t.len() == r.len() + 1 {
                assert(t[i] == r[i]);
                assert(i == r.len() - 1);
            }
        }
    }
}

proof fn lemma_subrange_no_double_dash(s: Seq<char>, a: int, b: int)
    requires
        no_double_dash(s),
        0 <= a <= b <= s.len(),
    ensures
        no_double_dash(s.subrange(a, b)),
{
    let t = s.subrange(a, b);
    assert forall|i: int| 0 <= i < t.len() - 1 implies !(#[trigger] t[i] == '-' && t[i + 1] == '-') by {
        assert(t[i] == s[a + i] && t[i + 1] == s[a + i + 1]);
    }
}

proof fn lemma_trim_dash_start_suffix(s: Seq<char>)
    ensures
        trim_dash_start(s).len() <= s.len(),
        trim_dash_start(s) == s.subrange(s.len() - trim_dash_start(s).len(), s.len() as int),
    decreases s.len(),
{
    if s.len() > 0 && s[0] == '-' {
        lemma_trim_dash_start_suffix(s.drop_first());
        let t = trim_dash_start(s.drop_first());
        assert(s.drop_first().subrange(s.drop_first().len() - t.len(), s.drop_first().len() as int) =~= s.subrange(
            s.len() - t.len(),
            s.len() as int,
        ));
    } else {
        assert(s.subrange(0, s.len() as int) =~= s);
    }
}

proof fn lemma_trim_dash_end_prefix(s: Seq<char>)
    ensures
        trim_dash_end(s).len() <= s.len(),
        trim_dash_end(s) == s.subrange(0, trim_dash_end(s).len() as int),
    decreases s.len(),
{
    if s.len() > 0 && s.last() == '-' {
        lemma_trim_dash_end_prefix(s.drop_last());
        let t = trim_dash_end(s.drop_last());
        assert(s.drop_last().subrange(0, t.len() as int) =~= s.subrange(0, t.len() as int));
    } else {
        assert(s.subrange(0, s.len() as int) =~= s);
    }
}

proof fn lemma_trim_dash_no_double_dash(s: Seq<char>)
    requires
        no_double_dash(s),
    ensures
        no_double_dash(trim_dash(s)),
{
    lemma_trim_dash_start_suffix(s);
    let a = trim_dash_start(s);
    lemma_subrange_no_double_dash(s, s.len() - a.len(), s.len() as int);
    lemma_trim_dash_end_prefix(a);
    lemma_subrange_no_double_dash(a, 0, trim_dash_end(a).len() as int);
}

proof fn lemma_slug_raw_fixed(s: Seq<char>)
    requires
        all_slug_chars(s),
        no_double_dash(s),
    ensures
        slug_raw(s) == s,
    decreases s.len(),
{
    if s.len() > 0 {
        let d = s.drop_last();
        assert forall|i: int| 0 <= i < d.len() implies slug_char(#[trigger] d[i]) by {
            assert(d[i] == s[i]);
        }
        assert forall|i: int| 0 <= i < d.len() - 1 implies !(#[trigger] d[i] == '-' && d[i + 1] == '-') by {
            assert(d[i] == s[i] && d[i + 1] == s[i + 1]);
        }
        lemma_slug_raw_fixed(d);
        assert(slug_char(s[s.len() - 1]));
        if s.len() >= 2 {
            assert(!(s[s.len() - 2] == '-' && s[s.len() - 1] == '-'));
        }
        assert(d.push(s.last()) =~= s);
    }
}

/// A slug holds no `--` and no `.` (so no `..`), and slugging a slug gives it back.
pub proof fn slug_is_canonical(label: Seq<char>)
    ensures
        no_double_dash(slug_spec(label)),
        !slug_spec(label).contains('.'),
        slug_spec(slug_spec(label)) == slug_spec(label),
{
    slug_is_path_safe(label);
    let s = slug_spec(label);
    let raw = slug_raw(label);
    lemma_slug_raw_no_double_dash(label);
    lemma_trim_dash_no_double_dash(raw);
    let a = trim_dash(raw);
    let b = take_at_most(a, 24);
    if a.len() > 24 {
        lemma_subrange_no_double_dash(a, 0, 24);
        assert(b == a.subrange(0, 24));
    }
    lemma_trim_dash_no_double_dash(b);
    if trim_dash(b).len() == 0 {
        assert(s =~= seq!['x']);
    }
    if s.contains('.') {
        let i = choose|i: int| 0 <= i < s.len() && s[i] == '.';
        assert(slug_char(s[i]));
    }
    lemma_slug_raw_fixed(s);
    assert(trim_dash_start(s) == s);
    assert(trim_dash_end(s) == s);
    assert(take_at_most(s, 24) == s);
}

/// "Same key" is an equivalence (symmetric, reflexive, transitive), and keys that are the
/// same get the same key tag, so one identity's clone directory does not move when its
/// key's comment changes.
pub proof fn same_key_is_an_equivalence(a: Seq<char>, b: Seq<char>, c: Seq<char>)
    ensures
        same_key_spec(a, b) == same_key_spec(b, a),
        same_key_spec(a, a),
        same_key_spec(a, b) && same_key_spec(b, c) ==> same_key_spec(a, c),
        same_key_spec(a, b) ==> tag_of(key_material_spec(a)) == tag_of(key_material_spec(b)),
{
}

} // verus!
