//! The local HTTP API's request-side logic: query strings, which hub a request may see, and
//! the small closed vocabularies and derived display values the JSON carries. Serving,
//! folding the hub and running git are outside.
use vstd::prelude::*;
use crate::text::opt_str;
use crate::text::strs;
use vstd::utf8::{encode_utf8, valid_utf8, decode_utf8};
use crate::text::{chars_of, string_of, same, first_index_of, pieces, split_char, slice, alphanumeric, unicode_alnum, ascii_upper, vv, all_ascii, is_ascii_alnum, last_index_of};
use crate::clonehome::{fnv1a, fnv1a_exec};

verus! {

// ---------------------------------------------------------------- percent-decoding

/// The string std's `String::from_utf8_lossy` makes of a byte sequence.
pub uninterp spec fn utf8_lossy(b: Seq<u8>) -> Seq<char>;

/// Trusted: std's `String::from_utf8_lossy` (then `into_owned`). Its result is named
/// `utf8_lossy`; on valid UTF-8 it is the decoded text. How invalid sequences are replaced
/// by U+FFFD is not stated.
#[verifier::external_body]
fn from_utf8_lossy(b: &[u8]) -> (s: String)
    ensures
        s@ == utf8_lossy(b@),
        valid_utf8(b@) ==> s@ == decode_utf8(b@),
{
    String::from_utf8_lossy(b).into_owned()
}

pub open spec fn hex_value(b: u8) -> int {
    if 48 <= b <= 57 {
        b - 48
    } else if 97 <= b <= 102 {
        b - 87
    } else {
        b - 55
    }
}

pub open spec fn hex_byte(b: u8) -> bool {
    (48 <= b <= 57) || (97 <= b <= 102) || (65 <= b <= 70)
}

/// The byte `u8::from_str_radix(h, 16)` reads from the two characters after a `%`: two hex
/// digits, or a `+` sign and one.
pub open spec fn escape_value(x: u8, y: u8) -> Option<u8> {
    if hex_byte(x) && hex_byte(y) {
        Some((hex_value(x) * 16 + hex_value(y)) as u8)
    } else if x == 43 && hex_byte(y) {
        Some(hex_value(y) as u8)
    } else {
        None
    }
}

/// Percent-decoding over bytes: `%XX` with a readable escape becomes that byte, `+` a space,
/// anything else passes through.
pub open spec fn decode_bytes(b: Seq<u8>) -> Seq<u8>
    decreases b.len(),
{
    if b.len() == 0 {
        Seq::empty()
    } else if b[0] == 37 && b.len() > 2 && escape_value(b[1], b[2]) is Some {
        seq![escape_value(b[1], b[2])->0] + decode_bytes(b.skip(3))
    } else if b[0] == 43 {
        seq![32u8] + decode_bytes(b.skip(1))
    } else {
        seq![b[0]] + decode_bytes(b.skip(1))
    }
}

/// The percent-decoded bytes read as UTF-8: decoded exactly when they are valid UTF-8,
/// otherwise what `from_utf8_lossy` makes of them.
pub open spec fn urldecode_spec(s: Seq<char>) -> Seq<char> {
    let b = decode_bytes(encode_utf8(s));
    if valid_utf8(b) {
        decode_utf8(b)
    } else {
        utf8_lossy(b)
    }
}

fn hex_of(b: u8) -> (r: bool)
    ensures
        r == hex_byte(b),
{
    (48 <= b && b <= 57) || (97 <= b && b <= 102) || (65 <= b && b <= 70)
}

fn value_of(b: u8) -> (v: u8)
    requires
        hex_byte(b),
    ensures
        v == hex_value(b),
{
    if b <= 57 {
        b - 48
    } else if b >= 97 {
        b - 87
    } else {
        b - 55
    }
}

fn escape(x: u8, y: u8) -> (r: Option<u8>)
    ensures
        r == escape_value(x, y),
{
    if hex_of(x) && hex_of(y) {
        let v = value_of(x) * 16 + value_of(y);
        Some(v)
    } else if x == 43 && hex_of(y) {
        Some(value_of(y))
    } else {
        None
    }
}

/// Percent-decode a query component (an unreadable escape passes through as it is).
pub fn urldecode(s: &str) -> (r: String)
    ensures
        r@ == urldecode_spec(s@),
{
    let bytes = s.as_bytes();
    let ghost b = bytes@;
    let mut out: Vec<u8> = Vec::new();
    let mut i: usize = 0;
    assert(b.skip(0) =~= b);
    while i < bytes.len()
        invariant
            0 <= i <= b.len(),
            b == bytes@,
            out@ + decode_bytes(b.skip(i as int)) == decode_bytes(b),
        decreases b.len() - i,
    {
        let ghost rest = b.skip(i as int);
        let c = bytes[i];
        assert(rest[0] == c);
        if c == 37 && bytes.len() - i > 2 {
            assert(rest[1] == b[i + 1] && rest[2] == b[i + 2]);
            match escape(bytes[i + 1], bytes[i + 2]) {
                Some(v) => {
                    assert(rest.skip(3) =~= b.skip(i + 3));
                    assert(out@.push(v) + decode_bytes(b.skip(i + 3)) =~= out@ + decode_bytes(rest));
                    out.push(v);
                    i += 3;
                },
                None => {
                    assert(rest.skip(1) =~= b.skip(i + 1));
                    assert(out@.push(c) + decode_bytes(b.skip(i + 1)) =~= out@ + decode_bytes(rest));
                    out.push(c);
                    i += 1;
                },
            }
        } else if c == 43 {
            assert(rest.skip(1) =~= b.skip(i + 1));
            assert(out@.push(32u8) + decode_bytes(b.skip(i + 1)) =~= out@ + decode_bytes(rest));
            out.push(32);
            i += 1;
        } else {
            assert(rest.skip(1) =~= b.skip(i + 1));
            assert(out@.push(c) + decode_bytes(b.skip(i + 1)) =~= out@ + decode_bytes(rest));
            out.push(c);
            i += 1;
        }
    }
    assert(decode_bytes(b.skip(i as int)) =~= Seq::<u8>::empty());
    assert(out@ =~= decode_bytes(b));
    from_utf8_lossy(out.as_slice())
}

// ---------------------------------------------------------------- query strings

/// The `k=v` items of a query string: after the first `?`, split at `&`, empties dropped.
pub open spec fn query_items(url: Seq<char>) -> Seq<Seq<char>> {
    let q = match first_index_of(url, '?') {
        Some(i) => url.skip(i + 1),
        None => Seq::<char>::empty(),
    };
    pieces(q, '&').filter(|s: Seq<char>| s.len() > 0)
}

/// One item's decoded key and value (no `=`: an empty value).
pub open spec fn item_pair(kv: Seq<char>) -> (Seq<char>, Seq<char>) {
    match first_index_of(kv, '=') {
        Some(j) => (urldecode_spec(kv.take(j)), urldecode_spec(kv.skip(j + 1))),
        None => (urldecode_spec(kv), Seq::<char>::empty()),
    }
}

/// The map of the first `n` items; a later value for a key replaces an earlier one.
pub open spec fn items_map(items: Seq<Seq<char>>, n: nat) -> Map<Seq<char>, Seq<char>>
    decreases n,
{
    if n == 0 {
        Map::empty()
    } else {
        let (k, v) = item_pair(items[n - 1]);
        items_map(items, (n - 1) as nat).insert(k, v)
    }
}

pub open spec fn qs_map(url: Seq<char>) -> Map<Seq<char>, Seq<char>> {
    items_map(query_items(url), query_items(url).len())
}

/// A decoded query: each key once, with its last value.
pub struct Query {
    pub pairs: Vec<(String, String)>,
}

pub open spec fn pairs_map(ps: Seq<(String, String)>) -> Map<Seq<char>, Seq<char>>
    decreases ps.len(),
{
    if ps.len() == 0 {
        Map::empty()
    } else {
        pairs_map(ps.drop_last()).insert(ps.last().0@, ps.last().1@)
    }
}

pub open spec fn keys_distinct(ps: Seq<(String, String)>) -> bool {
    forall|a: int, b: int| 0 <= a < b < ps.len() ==> (#[trigger] ps[a]).0@ != (#[trigger] ps[b]).0@
}

impl Query {
    pub open spec fn map(&self) -> Map<Seq<char>, Seq<char>> {
        pairs_map(self.pairs@)
    }

    pub open spec fn wf(&self) -> bool {
        keys_distinct(self.pairs@)
    }

    /// The value of `key`, if the query has it.
    pub fn get(&self, key: &str) -> (r: Option<String>)
        requires
            self.wf(),
        ensures
            r is Some <==> self.map().contains_key(key@),
            r matches Some(v) ==> v@ == self.map()[key@],
    {
        let k = key.to_owned();
        let mut i: usize = 0;
        while i < self.pairs.len()
            invariant
                0 <= i <= self.pairs@.len(),
                k@ == key@,
                self.wf(),
                forall|j: int| 0 <= j < i ==> (#[trigger] self.pairs@[j]).0@ != key@,
            decreases self.pairs@.len() - i,
        {
            if self.pairs[i].0 == k {
                proof {
                    lemma_pairs_map_at(self.pairs@, i as int);
                }
                return Some(self.pairs[i].1.clone());
            }
            i += 1;
        }
        proof {
            lemma_pairs_map_absent(self.pairs@, key@);
        }
        None
    }
}

proof fn lemma_pairs_map_absent(ps: Seq<(String, String)>, k: Seq<char>)
    requires
        forall|j: int| 0 <= j < ps.len() ==> (#[trigger] ps[j]).0@ != k,
    ensures
        !pairs_map(ps).contains_key(k),
    decreases ps.len(),
{
    if ps.len() > 0 {
        lemma_pairs_map_absent(ps.drop_last(), k);
    }
}

proof fn lemma_pairs_map_at(ps: Seq<(String, String)>, i: int)
    requires
        0 <= i < ps.len(),
        keys_distinct(ps),
    ensures
        pairs_map(ps).contains_key(ps[i].0@),
        pairs_map(ps)[ps[i].0@] == ps[i].1@,
    decreases ps.len(),
{
    if i < ps.len() - 1 {
        assert(keys_distinct(ps.drop_last()));
        lemma_pairs_map_at(ps.drop_last(), i);
        assert(ps.last().0@ != ps[i].0@);
    }
}

proof fn lemma_pairs_map_update(ps: Seq<(String, String)>, i: int, p: (String, String))
    requires
        0 <= i < ps.len(),
        keys_distinct(ps),
        p.0@ == ps[i].0@,
    ensures
        pairs_map(ps.update(i, p)) == pairs_map(ps).insert(p.0@, p.1@),
        keys_distinct(ps.update(i, p)),
    decreases ps.len(),
{
    let qs = ps.update(i, p);
    if i == ps.len() - 1 {
        assert(qs.drop_last() =~= ps.drop_last());
        assert(pairs_map(qs) =~= pairs_map(ps).insert(p.0@, p.1@));
    } else {
        assert(keys_distinct(ps.drop_last()));
        lemma_pairs_map_update(ps.drop_last(), i, p);
        assert(qs.drop_last() =~= ps.drop_last().update(i, p));
        assert(ps.last().0@ != ps[i].0@);
        assert(pairs_map(qs) =~= pairs_map(ps).insert(p.0@, p.1@));
    }
    assert forall|a: int, b: int| 0 <= a < b < qs.len() implies (#[trigger] qs[a]).0@ != (#[trigger] qs[b]).0@ by {
        assert(ps[a].0@ != ps[b].0@);
    }
}

fn query_part(url: &[char]) -> (q: Vec<char>)
    ensures
        q@ == match first_index_of(url@, '?') {
            Some(i) => url@.skip(i + 1),
            None => Seq::<char>::empty(),
        },
{
    let n = url.len();
    match crate::text::index_of(url, '?') {
        Some(i) => {
            let r = slice(url, i + 1, n);
            assert(r@ =~= url@.skip(i + 1));
            r
        },
        None => Vec::new(),
    }
}

fn decode_item(kv: &[char]) -> (r: (String, String))
    ensures
        (r.0@, r.1@) == item_pair(kv@),
{
    let n = kv.len();
    match crate::text::index_of(kv, '=') {
        Some(j) => {
            let k = slice(kv, 0, j);
            let v = slice(kv, j + 1, n);
            assert(k@ =~= kv@.take(j as int));
            assert(v@ =~= kv@.skip(j + 1));
            let ks = string_of(k.as_slice());
            let vs = string_of(v.as_slice());
            (urldecode(ks.as_str()), urldecode(vs.as_str()))
        },
        None => {
            let ks = string_of(kv);
            (urldecode(ks.as_str()), String::new())
        },
    }
}

/// Parse the query of `url` (`?k=v&k2=v2`), percent- and `+`-decoded; the last value of a
/// repeated key wins.
pub fn parse_qs(url: &str) -> (q: Query)
    ensures
        q.wf(),
        q.map() == qs_map(url@),
{
    let u = chars_of(url);
    let qpart = query_part(u.as_slice());
    let ps = split_char(qpart.as_slice(), '&');
    let ghost all = pieces(qpart@, '&');
    let ghost pred = |s: Seq<char>| s.len() > 0;
    let mut out = Query { pairs: Vec::new() };
    let mut i: usize = 0;
    while i < ps.len()
        invariant
            0 <= i <= ps@.len(),
            vv(ps@) == all,
            all == pieces(qpart@, '&'),
            pred == (|s: Seq<char>| s.len() > 0),
            query_items(url@) == all.filter(pred),
            out.wf(),
            out.map() == items_map(all.take(i as int).filter(pred), all.take(i as int).filter(pred).len()),
        decreases ps@.len() - i,
    {
        let ghost before = all.take(i as int).filter(pred);
        assert(all.take(i + 1) =~= all.take(i as int).push(all[i as int]));
        proof {
            all.take(i as int).lemma_filter_push(all[i as int], pred);
        }
        assert(vv(ps@)[i as int] == ps@[i as int]@);
        if ps[i].len() > 0 {
            let (k, v) = decode_item(ps[i].as_slice());
            let ghost after = before.push(all[i as int]);
            assert(after.take(before.len() as int) =~= before.take(before.len() as int));
            proof {
                lemma_items_map_prefix(after, before, before.len());
            }
            assert(items_map(after, after.len()) == items_map(before, before.len()).insert(k@, v@));
            insert_pair(&mut out, k, v);
        }
        i += 1;
    }
    assert(all.take(ps@.len() as int) =~= all);
    out
}

proof fn lemma_items_map_prefix(a: Seq<Seq<char>>, b: Seq<Seq<char>>, n: nat)
    requires
        n <= a.len(),
        n <= b.len(),
        a.take(n as int) == b.take(n as int),
    ensures
        items_map(a, n) == items_map(b, n),
    decreases n,
{
    if n > 0 {
        assert(a[n - 1] == a.take(n as int)[n - 1]);
        assert(b[n - 1] == b.take(n as int)[n - 1]);
        assert(a.take(n - 1) =~= a.take(n as int).take(n - 1));
        assert(b.take(n - 1) =~= b.take(n as int).take(n - 1));
        lemma_items_map_prefix(a, b, (n - 1) as nat);
    }
}

fn insert_pair(q: &mut Query, k: String, v: String)
    requires
        old(q).wf(),
    ensures
        final(q).wf(),
        final(q).map() == old(q).map().insert(k@, v@),
{
    let mut i: usize = 0;
    while i < q.pairs.len()
        invariant
            0 <= i <= q.pairs@.len(),
            q.pairs@ == old(q).pairs@,
            keys_distinct(q.pairs@),
            forall|j: int| 0 <= j < i ==> (#[trigger] q.pairs@[j]).0@ != k@,
        decreases q.pairs@.len() - i,
    {
        if q.pairs[i].0 == k {
            let ghost ps = q.pairs@;
            proof {
                lemma_pairs_map_update(ps, i as int, (k, v));
            }
            q.pairs.set(i, (k, v));
            return;
        }
        i += 1;
    }
    let ghost ps = q.pairs@;
    q.pairs.push((k, v));
    assert(q.pairs@.drop_last() =~= ps);
    assert forall|a: int, b: int| 0 <= a < b < q.pairs@.len() implies (#[trigger] q.pairs@[a]).0@ != (
    #[trigger] q.pairs@[b]).0@ by {
        if b < ps.len() {
            assert(ps[a].0@ != ps[b].0@);
        } else {
            assert(ps[a].0@ != k@);
        }
    }
}

// ---------------------------------------------------------------- which hub a request sees

/// A hub's API id: the label its clone shows (see `crosshub::hub_label`).
pub fn hub_id(url: &Option<String>, name: &Option<String>, root: &Option<String>) -> (id: String)
    requires
        root matches Some(r) ==> forall|i: int| 0 <= i < r@.len() ==> (r@[i] as u32) < 128,
    ensures
        id@ == crate::crosshub::hub_label_spec(
            opt_str(*url),
            opt_str(*name),
            opt_str(*root),
        ),
{
    crate::crosshub::hub_label(url, name, root)
}

/// The hub `?hub=<id>` picks among the followed hubs (their ids in `ids`): the first with that
/// id, or none. Without a (non-empty) `hub`, the current clone's hub (`cwd`, its index when it
/// is followed), else the first hub, else none.
pub open spec fn hub_idx_spec(ids: Seq<Seq<char>>, hub: Option<Seq<char>>, cwd: Option<int>) -> Option<int> {
    if hub is Some && (hub->0).len() > 0 {
        if exists|i: int| 0 <= i < ids.len() && ids[i] == hub->0 {
            Some(choose|i: int| 0 <= i < ids.len() && ids[i] == hub->0 && forall|j: int| 0 <= j < i ==> ids[j] != hub->0)
        } else {
            None
        }
    } else if cwd is Some {
        cwd
    } else if ids.len() > 0 {
        Some(0)
    } else {
        None
    }
}

pub open spec fn opt_idx(i: Option<usize>) -> Option<int> {
    match i {
        Some(x) => Some(x as int),
        None => None,
    }
}

/// Resolve `?hub=` to an index into the followed hubs.
pub fn resolve_hub_idx(ids: &Vec<String>, q: &Query, cwd: Option<usize>) -> (r: Option<usize>)
    requires
        q.wf(),
        cwd matches Some(c) ==> c < ids@.len(),
    ensures
        opt_idx(r) == hub_idx_spec(
            strs(ids@),
            if q.map().contains_key("hub"@) { Some(q.map()["hub"@]) } else { None },
            opt_idx(cwd),
        ),
{
    let hub = q.get("hub");
    let ghost want = if q.map().contains_key("hub"@) { Some(q.map()["hub"@]) } else { None::<Seq<char>> };
    assert(opt_str(hub) == want);
    if let Some(h) = hub {
        if !h.as_str().is_empty() {
            let mut i: usize = 0;
            while i < ids.len()
                invariant
                    0 <= i <= ids@.len(),
                    q.map().contains_key("hub"@),
                    h@ == q.map()["hub"@],
                    h@.len() > 0,
                    forall|j: int| 0 <= j < i ==> strs(ids@)[j] != h@,
                decreases ids@.len() - i,
            {
                assert(strs(ids@)[i as int] == ids@[i as int]@);
                if ids[i] == h {
                    proof {
                        let ids_v = strs(ids@);
                        assert(ids_v[i as int] == h@);
                        assert(exists|k: int| 0 <= k < ids_v.len() && ids_v[k] == h@);
                        assert(0 <= i < ids_v.len() && ids_v[i as int] == h@ && forall|j: int| 0 <= j < i ==> ids_v[j] != h@);
                        let k = choose|k: int| 0 <= k < ids_v.len() && ids_v[k] == h@ && forall|j: int| 0 <= j < k ==> ids_v[j] != h@;
                        if k < i {
                            assert(ids_v[k] != h@);
                        } else if k > i {
                            assert(ids_v[i as int] != h@);
                        }
                    }
                    return Some(i);
                }
                i += 1;
            }
            return None;
        }
    }
    match cwd {
        Some(c) => Some(c),
        None => if ids.len() > 0 {
            Some(0)
        } else {
            None
        },
    }
}

/// The hubs a request may reach: every followed hub only when the server was started for all
/// hubs; otherwise exactly the hubs it was started with.
pub fn allowed_hubs(dirs: Vec<String>, all_hubs: bool, followed: Vec<String>) -> (r: Vec<String>)
    ensures
        r@ == if all_hubs { followed@ } else { dirs@ },
{
    if all_hubs {
        followed
    } else {
        dirs
    }
}

// ---------------------------------------------------------------- display values

/// The Unicode uppercase mapping of a string, as `str::to_uppercase` computes it.
pub uninterp spec fn uppercase(s: Seq<char>) -> Seq<char>;

/// Trusted: std's `str::to_uppercase`. Its result is named `uppercase`; on ASCII text it
/// raises `a`–`z` and keeps everything else. Other characters follow Unicode's tables, which
/// are not stated.
#[verifier::external_body]
fn to_uppercase(s: &str) -> (r: String)
    ensures
        r@ == uppercase(s@),
        (forall|i: int| 0 <= i < s@.len() ==> (s@[i] as u32) < 128) ==> r@ == s@.map_values(|c: char| ascii_upper(c)),
{
    s.to_uppercase()
}

/// The first `n` alphanumeric characters of `s`, in order.
pub open spec fn alnum_prefix(s: Seq<char>, n: nat) -> Seq<char>
    decreases s.len(),
{
    if s.len() == 0 || n == 0 {
        Seq::empty()
    } else if unicode_alnum(s[0]) {
        seq![s[0]] + alnum_prefix(s.drop_first(), (n - 1) as nat)
    } else {
        alnum_prefix(s.drop_first(), n)
    }
}

/// [`alnum_prefix`] in plain characters for ASCII text: the first `n` ASCII letters and digits.
pub open spec fn ascii_alnum_prefix(s: Seq<char>, n: nat) -> Seq<char>
    decreases s.len(),
{
    if s.len() == 0 || n == 0 {
        Seq::empty()
    } else if is_ascii_alnum(s[0]) {
        seq![s[0]] + ascii_alnum_prefix(s.drop_first(), (n - 1) as nat)
    } else {
        ascii_alnum_prefix(s.drop_first(), n)
    }
}

/// [`abbr_spec`] in plain characters for ASCII text.
pub open spec fn ascii_abbr(display: Seq<char>) -> Seq<char> {
    let p = ascii_alnum_prefix(display, 2);
    if p.len() == 0 {
        "??"@
    } else {
        p.map_values(|c: char| ascii_upper(c))
    }
}

/// An avatar's two letters: the first two alphanumeric characters, uppercased; `??` when there
/// are none.
pub open spec fn abbr_spec(display: Seq<char>) -> Seq<char> {
    if alnum_prefix(display, 2).len() == 0 {
        "??"@
    } else {
        uppercase(alnum_prefix(display, 2))
    }
}

pub fn abbr_of(display: &str) -> (r: String)
    ensures
        r@ == abbr_spec(display@),
        all_ascii(display@) ==> r@ == ascii_abbr(display@),
{
    let d = chars_of(display);
    let mut letters: Vec<char> = Vec::new();
    let mut i: usize = 0;
    assert(d@.skip(0) =~= d@);
    while i < d.len() && letters.len() < 2
        invariant
            0 <= i <= d@.len(),
            d@ == display@,
            letters@.len() <= 2,
            letters@ + alnum_prefix(d@.skip(i as int), (2 - letters@.len()) as nat) == alnum_prefix(display@, 2),
            all_ascii(display@) ==> letters@ + ascii_alnum_prefix(d@.skip(i as int), (2 - letters@.len()) as nat)
                == ascii_alnum_prefix(display@, 2),
            all_ascii(display@) ==> all_ascii(letters@),
        decreases d@.len() - i,
    {
        let c = d[i];
        let ghost rest = d@.skip(i as int);
        assert(rest[0] == c);
        assert(rest.drop_first() =~= d@.skip(i + 1));
        proof {
            if all_ascii(display@) {
                assert((d@[i as int] as u32) < 128);
            }
        }
        if alphanumeric(c) {
            assert(letters@.push(c) + alnum_prefix(d@.skip(i + 1), (2 - letters@.len() - 1) as nat) =~= letters@ + (seq![c]
                + alnum_prefix(rest.drop_first(), (2 - letters@.len() - 1) as nat)));
            assert(letters@.push(c) + ascii_alnum_prefix(d@.skip(i + 1), (2 - letters@.len() - 1) as nat) =~= letters@ + (seq![c]
                + ascii_alnum_prefix(rest.drop_first(), (2 - letters@.len() - 1) as nat)));
            letters.push(c);
        }
        i += 1;
    }
    assert(alnum_prefix(d@.skip(i as int), (2 - letters@.len()) as nat) =~= Seq::<char>::empty());
    assert(ascii_alnum_prefix(d@.skip(i as int), (2 - letters@.len()) as nat) =~= Seq::<char>::empty());
    assert(letters@ =~= alnum_prefix(display@, 2));
    assert(all_ascii(display@) ==> letters@ =~= ascii_alnum_prefix(display@, 2));
    if letters.len() == 0 {
        "??".to_owned()
    } else {
        let l = string_of(letters.as_slice());
        to_uppercase(l.as_str())
    }
}

pub open spec fn palette(i: nat) -> Seq<char> {
    if i == 0 {
        "#e06c75"@
    } else if i == 1 {
        "#98c379"@
    } else if i == 2 {
        "#e5c07b"@
    } else if i == 3 {
        "#61afef"@
    } else if i == 4 {
        "#c678dd"@
    } else if i == 5 {
        "#56b6c2"@
    } else if i == 6 {
        "#d19a66"@
    } else {
        "#abb2bf"@
    }
}

/// A role's colour: the palette entry at the FNV-1a hash of its id's UTF-8 bytes, modulo the
/// palette's eight colours.
pub fn color_of(id: &str) -> (c: &'static str)
    ensures
        c@ == palette((fnv1a(encode_utf8(id@)) % 8) as nat),
{
    let h = fnv1a_exec(id.as_bytes());
    let k = h % 8;
    if k == 0 {
        "#e06c75"
    } else if k == 1 {
        "#98c379"
    } else if k == 2 {
        "#e5c07b"
    } else if k == 3 {
        "#61afef"
    } else if k == 4 {
        "#c678dd"
    } else if k == 5 {
        "#56b6c2"
    } else if k == 6 {
        "#d19a66"
    } else {
        "#abb2bf"
    }
}

fn is_str(s: &str, lit: &str) -> (b: bool)
    ensures
        b == (s@ == lit@),
{
    same(chars_of(s).as_slice(), chars_of(lit).as_slice())
}

/// A card's signing status in the closed `verified` vocabulary: `verified` is `signed`,
/// `first-sight` stays, anything else (a mismatch included) is `unverified`.
pub fn verified_of(status: &str) -> (r: &'static str)
    ensures
        r@ == if status@ == "verified"@ {
            "signed"@
        } else if status@ == "first-sight"@ {
            "first-sight"@
        } else {
            "unverified"@
        },
{
    if is_str(status, "verified") {
        "signed"
    } else if is_str(status, "first-sight") {
        "first-sight"
    } else {
        "unverified"
    }
}

/// The richer trust vocabulary: as `verified_of`, but a `mismatch` stays a mismatch.
pub fn trust_of(status: &str) -> (r: &'static str)
    ensures
        r@ == if status@ == "verified"@ {
            "signed"@
        } else if status@ == "first-sight"@ {
            "first-sight"@
        } else if status@ == "mismatch"@ {
            "mismatch"@
        } else {
            "unverified"@
        },
{
    if is_str(status, "verified") {
        "signed"
    } else if is_str(status, "first-sight") {
        "first-sight"
    } else if is_str(status, "mismatch") {
        "mismatch"
    } else {
        "unverified"
    }
}

/// The extension of a path, as `Path::extension` finds it.
pub uninterp spec fn path_extension(p: Seq<char>) -> Option<Seq<char>>;

/// What follows the last `/` of a path (all of it when there is none).
pub open spec fn last_segment_of(p: Seq<char>) -> Seq<char> {
    match last_index_of(p, '/') {
        Some(i) => p.skip(i + 1),
        None => p,
    }
}

/// The extension of a file name, as std documents `Path::extension`: the part after the last
/// `.`; none when there is no `.` or the only `.` starts the name.
pub open spec fn name_extension(name: Seq<char>) -> Option<Seq<char>> {
    match last_index_of(name, '.') {
        Some(i) => if i == 0 { None } else { Some(name.skip(i + 1)) },
        None => None,
    }
}

/// A path whose last `/`-segment is its file name on every platform: no `\` anywhere, and a
/// last segment that is not empty, not `.` or `..`, and holds no `:` (a drive prefix).
pub open spec fn plain_path(p: Seq<char>) -> bool {
    let name = last_segment_of(p);
    &&& !p.contains('\\')
    &&& name.len() > 0
    &&& name != "."@
    &&& name != ".."@
    &&& !name.contains(':')
}

/// Trusted: std's `Path::extension` (then `OsStr::to_str`). Its result is named
/// `path_extension`. For a plain path the file name is the last `/`-segment, and std
/// documents the extension as the part of the file name after its last `.`, with none when
/// the name has no `.` or only a leading one. What it gives for other paths (a trailing `/`,
/// a `.` or `..` component, platform prefixes) is not stated.
#[verifier::external_body]
pub(crate) fn extension(path: &str) -> (r: Option<String>)
    ensures
        opt_str(r) == path_extension(path@),
        plain_path(path@) ==> opt_str(r) == name_extension(last_segment_of(path@)),
{
    std::path::Path::new(path).extension().and_then(|e| e.to_str()).map(|e| e.to_string())
}

/// The highlighting language of a file extension (`text` for any other).
pub open spec fn lang_spec(e: Seq<char>) -> Seq<char> {
    if e == "rs"@ {
        "rust"@
    } else if e == "ts"@ {
        "typescript"@
    } else if e == "tsx"@ {
        "tsx"@
    } else if e == "js"@ || e == "mjs"@ || e == "cjs"@ {
        "javascript"@
    } else if e == "jsx"@ {
        "jsx"@
    } else if e == "py"@ {
        "python"@
    } else if e == "go"@ {
        "go"@
    } else if e == "rb"@ {
        "ruby"@
    } else if e == "java"@ {
        "java"@
    } else if e == "kt"@ {
        "kotlin"@
    } else if e == "swift"@ {
        "swift"@
    } else if e == "c"@ || e == "h"@ {
        "c"@
    } else if e == "cpp"@ || e == "cc"@ || e == "cxx"@ || e == "hpp"@ {
        "cpp"@
    } else if e == "md"@ {
        "markdown"@
    } else if e == "json"@ {
        "json"@
    } else if e == "yaml"@ || e == "yml"@ {
        "yaml"@
    } else if e == "toml"@ {
        "toml"@
    } else if e == "sh"@ || e == "bash"@ {
        "bash"@
    } else if e == "html"@ || e == "htm"@ {
        "html"@
    } else if e == "css"@ {
        "css"@
    } else if e == "sql"@ {
        "sql"@
    } else {
        "text"@
    }
}

/// The language for a file extension.
pub fn lang_for_extension(e: &str) -> (r: &'static str)
    ensures
        r@ == lang_spec(e@),
{
    if is_str(e, "rs") {
        "rust"
    } else if is_str(e, "ts") {
        "typescript"
    } else if is_str(e, "tsx") {
        "tsx"
    } else if is_str(e, "js") || is_str(e, "mjs") || is_str(e, "cjs") {
        "javascript"
    } else if is_str(e, "jsx") {
        "jsx"
    } else if is_str(e, "py") {
        "python"
    } else if is_str(e, "go") {
        "go"
    } else if is_str(e, "rb") {
        "ruby"
    } else if is_str(e, "java") {
        "java"
    } else if is_str(e, "kt") {
        "kotlin"
    } else if is_str(e, "swift") {
        "swift"
    } else if is_str(e, "c") || is_str(e, "h") {
        "c"
    } else if is_str(e, "cpp") || is_str(e, "cc") || is_str(e, "cxx") || is_str(e, "hpp") {
        "cpp"
    } else if is_str(e, "md") {
        "markdown"
    } else if is_str(e, "json") {
        "json"
    } else if is_str(e, "yaml") || is_str(e, "yml") {
        "yaml"
    } else if is_str(e, "toml") {
        "toml"
    } else if is_str(e, "sh") || is_str(e, "bash") {
        "bash"
    } else if is_str(e, "html") || is_str(e, "htm") {
        "html"
    } else if is_str(e, "css") {
        "css"
    } else if is_str(e, "sql") {
        "sql"
    } else {
        "text"
    }
}

/// The language of a file, by its extension (`text` without one).
pub fn lang_of(path: &str) -> (r: &'static str)
    ensures
        r@ == match path_extension(path@) {
            Some(e) => lang_spec(e),
            None => lang_spec(Seq::<char>::empty()),
        },
        plain_path(path@) ==> r@ == match name_extension(last_segment_of(path@)) {
            Some(e) => lang_spec(e),
            None => lang_spec(Seq::<char>::empty()),
        },
{
    proof {
        reveal_strlit("");
    }
    let ext = extension(path);
    match &ext {
        Some(e) => lang_for_extension(e.as_str()),
        None => {
            let r = lang_for_extension("");
            assert(""@ =~= Seq::<char>::empty());
            r
        },
    }
}

// ---------------------------------------------------------------- memoized staleness

/// How a pinned reference compares with its repository now.
#[derive(Clone, Copy, PartialEq, Eq, Structural, Debug)]
pub enum Staleness {
    Current,
    Changed,
    Unknown,
}

/// `(repo, sha, path, base_ref, fork_point)`.
pub type StalenessKey = (String, String, String, Option<String>, Option<String>);

pub type KeyView = (Seq<char>, Seq<char>, Seq<char>, Option<Seq<char>>, Option<Seq<char>>);

pub open spec fn key_view(k: StalenessKey) -> KeyView {
    (k.0@, k.1@, k.2@, opt_str(k.3), opt_str(k.4))
}

/// The staleness computed so far in one request, each distinct key once.
pub struct StalenessCache {
    pub entries: Vec<(StalenessKey, Staleness)>,
}

impl StalenessCache {
    pub fn new() -> (c: StalenessCache)
        ensures
            c.entries@.len() == 0,
    {
        StalenessCache { entries: Vec::new() }
    }

    pub fn len(&self) -> (n: usize)
        ensures
            n == self.entries@.len(),
    {
        self.entries.len()
    }

    pub open spec fn lookup(&self, k: KeyView) -> Option<Staleness> {
        if exists|i: int| 0 <= i < self.entries@.len() && key_view((#[trigger] self.entries@[i]).0) == k {
            Some(self.entries@[choose|i: int| 0 <= i < self.entries@.len() && key_view((#[trigger] self.entries@[i]).0) == k].1)
        } else {
            None
        }
    }

    pub open spec fn wf(&self) -> bool {
        forall|a: int, b: int|
            0 <= a < b < self.entries@.len() ==> key_view((#[trigger] self.entries@[a]).0) != key_view(
                (#[trigger] self.entries@[b]).0,
            )
    }
}

fn same_opt(a: &Option<String>, b: &Option<String>) -> (r: bool)
    ensures
        r == (opt_str(*a) == opt_str(*b)),
{
    match (a, b) {
        (Some(x), Some(y)) => *x == *y,
        (None, None) => true,
        _ => false,
    }
}

fn same_key(a: &StalenessKey, b: &StalenessKey) -> (r: bool)
    ensures
        r == (key_view(*a) == key_view(*b)),
{
    a.0 == b.0 && a.1 == b.1 && a.2 == b.2 && same_opt(&a.3, &b.3) && same_opt(&a.4, &b.4)
}

/// Staleness for `key`, computed (by `compute`) at most once per distinct key and for at most
/// `cap` distinct keys: a cached key answers from the cache, whatever the cap; a new key past
/// the cap is refused (`Unknown`, and `true` for "capped") without computing.
pub fn memoized_staleness<F: FnOnce() -> Staleness>(cache: &mut StalenessCache, cap: usize, key: StalenessKey, compute: F) -> (r: (Staleness, bool))
    requires
        old(cache).wf(),
        call_requires(compute, ()),
    ensures
        final(cache).wf(),
        match old(cache).lookup(key_view(key)) {
            Some(v) => r == (v, false) && final(cache).entries@ == old(cache).entries@,
            None => if old(cache).entries@.len() >= cap {
                r == (Staleness::Unknown, true) && final(cache).entries@ == old(cache).entries@
            } else {
                !r.1 && call_ensures(compute, (), r.0) && final(cache).lookup(key_view(key)) == Some(r.0)
                    && final(cache).entries@.len() == old(cache).entries@.len() + 1
                    && forall|k: KeyView| k != key_view(key) ==> #[trigger] final(cache).lookup(k) == old(cache).lookup(k)
            },
        },
{
    let mut i: usize = 0;
    while i < cache.entries.len()
        invariant
            0 <= i <= cache.entries@.len(),
            cache.entries@ == old(cache).entries@,
            old(cache).wf(),
            forall|j: int| 0 <= j < i ==> key_view((#[trigger] cache.entries@[j]).0) != key_view(key),
        decreases cache.entries@.len() - i,
    {
        if same_key(&cache.entries[i].0, &key) {
            let v = cache.entries[i].1;
            proof {
                let k = choose|j: int| 0 <= j < cache.entries@.len() && key_view((#[trigger] cache.entries@[j]).0) == key_view(key);
                if k < i {
                    assert(key_view(cache.entries@[k].0) != key_view(cache.entries@[i as int].0));
                } else if k > i {
                    assert(key_view(cache.entries@[i as int].0) != key_view(cache.entries@[k].0));
                }
            }
            return (v, false);
        }
        i += 1;
    }
    if cache.entries.len() >= cap {
        return (Staleness::Unknown, true);
    }
    let v = compute();
    let ghost before = cache.entries@;
    let ghost kv = key_view(key);
    cache.entries.push((key, v));
    let ghost after = cache.entries@;
    assert(after.drop_last() =~= before);
    assert(cache.wf()) by {
        assert forall|a: int, b: int| 0 <= a < b < after.len() implies key_view((#[trigger] after[a]).0) != key_view(
            (#[trigger] after[b]).0,
        ) by {
            if b < before.len() {
                assert(key_view(before[a].0) != key_view(before[b].0));
            } else {
                assert(key_view(before[a].0) != kv);
            }
        }
    }
    assert(key_view(after[before.len() as int].0) == kv);
    assert forall|k: KeyView| k != kv implies #[trigger] cache.lookup(k) == old(cache).lookup(k) by {
        if exists|j: int| 0 <= j < after.len() && key_view((#[trigger] after[j]).0) == k {
            let j = choose|j: int| 0 <= j < after.len() && key_view((#[trigger] after[j]).0) == k;
            assert(j < before.len());
            assert(key_view(before[j].0) == k);
        }
        if exists|j: int| 0 <= j < before.len() && key_view((#[trigger] before[j]).0) == k {
            let j = choose|j: int| 0 <= j < before.len() && key_view((#[trigger] before[j]).0) == k;
            assert(key_view(after[j].0) == k);
        }
    }
    (v, false)
}


// ---------------------------------------------------------------- the refs scope

/// Which hubs a `refs` request searches.
#[derive(Clone, Copy, PartialEq, Eq, Structural, Debug)]
pub enum RefsScope {
    /// Every followed hub (`?allHubs=1` on a server started `--all-hubs`).
    Every,
    /// The hub at this index.
    One(usize),
}

/// Why a `refs` request was refused: the HTTP status and the message.
pub struct Refusal {
    pub status: u16,
    pub message: &'static str,
}

/// `?allHubs=1` (or `true`) asks for every hub.
pub open spec fn wants_all(m: Map<Seq<char>, Seq<char>>) -> bool {
    m.contains_key("allHubs"@) && (m["allHubs"@] == "1"@ || m["allHubs"@] == "true"@)
}

/// A request for every hub is honoured only when the operator started the server with
/// `--all-hubs`; otherwise it is refused outright, never quietly narrowed. Without it, the
/// request searches the hub `?hub=` picks.
pub open spec fn refs_scope_spec(ids: Seq<Seq<char>>, m: Map<Seq<char>, Seq<char>>, cwd: Option<int>, server_all: bool) -> Result<RefsScope, u16> {
    if wants_all(m) {
        if server_all {
            Ok(RefsScope::Every)
        } else {
            Err(400)
        }
    } else {
        match hub_idx_spec(ids, if m.contains_key("hub"@) { Some(m["hub"@]) } else { None }, cwd) {
            Some(i) => Ok(RefsScope::One(i as usize)),
            None => Err(404),
        }
    }
}

pub fn refs_scope(ids: &Vec<String>, q: &Query, cwd: Option<usize>, server_all: bool) -> (r: Result<RefsScope, Refusal>)
    requires
        q.wf(),
        cwd matches Some(c) ==> c < ids@.len(),
    ensures
        match r {
            Ok(s) => refs_scope_spec(strs(ids@), q.map(), opt_idx(cwd), server_all) == Ok::<RefsScope, u16>(s),
            Err(e) => refs_scope_spec(strs(ids@), q.map(), opt_idx(cwd), server_all) == Err::<RefsScope, u16>(e.status)
                && e.message@ == if e.status == 400 {
                "allHubs=1 requires the server to be started with --all-hubs"@
            } else {
                "unknown hub"@
            },
        },
{
    let all = match q.get("allHubs") {
        Some(v) => {
            let c = chars_of(v.as_str());
            crate::text::same(c.as_slice(), chars_of("1").as_slice()) || crate::text::same(c.as_slice(), chars_of("true").as_slice())
        },
        None => false,
    };
    if all {
        if server_all {
            return Ok(RefsScope::Every);
        }
        return Err(Refusal { status: 400, message: "allHubs=1 requires the server to be started with --all-hubs" });
    }
    match resolve_hub_idx(ids, q, cwd) {
        Some(i) => {
            proof {
                let h = if q.map().contains_key("hub"@) { Some(q.map()["hub"@]) } else { None };
                assert(hub_idx_spec(strs(ids@), h, opt_idx(cwd)) == Some(i as int));
            }
            Ok(RefsScope::One(i))
        },
        None => Err(Refusal { status: 404, message: "unknown hub" }),
    }
}

/// The `?target=` of a `refs` request, when it is there and non-empty.
pub fn refs_target(q: &Query) -> (r: Option<String>)
    requires
        q.wf(),
    ensures
        r is Some <==> q.map().contains_key("target"@) && q.map()["target"@].len() > 0,
        r matches Some(t) ==> t@ == q.map()["target"@],
{
    match q.get("target") {
        Some(t) => {
            if t.as_str().is_empty() {
                None
            } else {
                Some(t)
            }
        },
        None => None,
    }
}

} // verus!
