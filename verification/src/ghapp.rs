//! GitHub App authentication: the JWT's segments, reading the few fields the App needs from
//! GitHub's JSON replies, the installation-token cache, and which credential requests to
//! answer. Signing (openssl), the API calls (curl) and the files are outside.
use vstd::prelude::*;
use crate::text::opt_str;
use vstd::utf8::encode_utf8;
use crate::text::{chars_of, string_of, slice, first_occurrence, first_index_of, find, index_of, trim_start, trimmed_start, is_ascii_digit, parse_u64, parse_u64_spec, is_prefix, starts_with, lines, split_lines, vv, decimal_u64, dec};

verus! {

/// The App's configuration: its id (the JWT issuer), the private key's path, the installation
/// to mint tokens for, and the App's slug.
pub struct AppConfig {
    pub app_id: String,
    pub key_path: String,
    pub installation_id: Option<u64>,
    pub slug: Option<String>,
}

// ---------------------------------------------------------------- base64url

/// The URL-safe base64 alphabet.
pub open spec fn b64_char(v: int) -> char {
    if v < 26 {
        ('A' as int + v) as char
    } else if v < 52 {
        ('a' as int + (v - 26)) as char
    } else if v < 62 {
        ('0' as int + (v - 52)) as char
    } else if v == 62 {
        '-'
    } else {
        '_'
    }
}

/// Unpadded URL-safe base64: each group of three bytes becomes four characters; a final group
/// of one or two bytes becomes two or three.
pub open spec fn b64(b: Seq<u8>) -> Seq<char>
    decreases b.len(),
{
    if b.len() == 0 {
        Seq::empty()
    } else {
        let x0 = b[0] as int;
        let x1 = if b.len() > 1 { b[1] as int } else { 0 };
        let x2 = if b.len() > 2 { b[2] as int } else { 0 };
        let c0 = b64_char(x0 / 4);
        let c1 = b64_char((x0 % 4) * 16 + x1 / 16);
        let c2 = b64_char((x1 % 16) * 4 + x2 / 64);
        let c3 = b64_char(x2 % 64);
        if b.len() == 1 {
            seq![c0, c1]
        } else if b.len() == 2 {
            seq![c0, c1, c2]
        } else {
            seq![c0, c1, c2, c3] + b64(b.skip(3))
        }
    }
}

fn b64_of(v: u8) -> (c: char)
    requires
        v < 64,
    ensures
        c == b64_char(v as int),
{
    if v < 26 {
        ((65 + v) as u8) as char
    } else if v < 52 {
        ((97 + (v - 26)) as u8) as char
    } else if v < 62 {
        ((48 + (v - 52)) as u8) as char
    } else if v == 62 {
        '-'
    } else {
        '_'
    }
}

/// URL-safe base64 without padding (the JWT segment encoding).
pub fn b64url(bytes: &[u8]) -> (s: String)
    ensures
        s@ == b64(bytes@),
{
    let mut out: Vec<char> = Vec::new();
    let mut i: usize = 0;
    let n = bytes.len();
    assert(bytes@.skip(0) =~= bytes@);
    while i < n
        invariant
            0 <= i <= n,
            n == bytes@.len(),
            out@ + b64(bytes@.skip(i as int)) == b64(bytes@),
        decreases n - i,
    {
        let rest_len = n - i;
        let ghost rest = bytes@.skip(i as int);
        let b0 = bytes[i];
        assert(rest[0] == b0);
        if rest_len == 1 {
            out.push(b64_of(b0 / 4));
            out.push(b64_of((b0 % 4) * 16));
            assert(b64(bytes@.skip(i + 1)) =~= Seq::<char>::empty());
            i = n;
        } else if rest_len == 2 {
            let b1 = bytes[i + 1];
            assert(rest[1] == b1);
            out.push(b64_of(b0 / 4));
            out.push(b64_of((b0 % 4) * 16 + b1 / 16));
            out.push(b64_of((b1 % 16) * 4));
            i = n;
        } else {
            let b1 = bytes[i + 1];
            let b2 = bytes[i + 2];
            assert(rest[1] == b1 && rest[2] == b2);
            assert(rest.skip(3) =~= bytes@.skip(i + 3));
            out.push(b64_of(b0 / 4));
            out.push(b64_of((b0 % 4) * 16 + b1 / 16));
            out.push(b64_of((b1 % 16) * 4 + b2 / 64));
            out.push(b64_of(b2 % 64));
            i = i + 3;
        }
        assert(i == n ==> bytes@.skip(i as int) =~= Seq::<u8>::empty());
        assert(out@ + b64(bytes@.skip(i as int)) =~= b64(bytes@));
    }
    assert(bytes@.skip(n as int) =~= Seq::<u8>::empty());
    assert(out@ =~= b64(bytes@));
    string_of(out.as_slice())
}

// ---------------------------------------------------------------- reading GitHub's replies

/// The text after `"key"` and the `:` that follows it, leading whitespace dropped.
pub open spec fn after_key(body: Seq<char>, key: Seq<char>) -> Option<Seq<char>> {
    let needle = seq!['"'] + key + seq!['"'];
    match first_occurrence(body, needle) {
        None => None,
        Some(i) => {
            let rest = body.skip(i + needle.len());
            match first_index_of(rest, ':') {
                None => None,
                Some(c) => Some(trim_start(rest.skip(c + 1))),
            }
        },
    }
}

/// The string value of the first `"key"` (the text between the quotes after its colon).
pub open spec fn json_str_spec(body: Seq<char>, key: Seq<char>) -> Option<Seq<char>> {
    match after_key(body, key) {
        None => None,
        Some(a) => if a.len() > 0 && a[0] == '"' {
            match first_index_of(a.skip(1), '"') {
                Some(e) => Some(a.skip(1).take(e)),
                None => None,
            }
        } else {
            None
        },
    }
}

/// The length of the leading run of ASCII digits.
pub open spec fn digit_run(a: Seq<char>) -> int
    decreases a.len(),
{
    if a.len() > 0 && is_ascii_digit(a[0]) {
        1 + digit_run(a.drop_first())
    } else {
        0
    }
}

/// The unquoted number after the first `"key"`.
pub open spec fn json_num_spec(body: Seq<char>, key: Seq<char>) -> Option<u64> {
    match after_key(body, key) {
        None => None,
        Some(a) => parse_u64_spec(a.take(digit_run(a))),
    }
}

fn needle_of(key: &str) -> (n: Vec<char>)
    ensures
        n@ == seq!['"'] + key@ + seq!['"'],
{
    let mut needle: Vec<char> = Vec::new();
    needle.push('"');
    crate::text::push_str(&mut needle, key);
    needle.push('"');
    assert(needle@ =~= seq!['"'] + key@ + seq!['"']);
    needle
}

fn after_colon(rest: &[char]) -> (r: Option<Vec<char>>)
    ensures
        match first_index_of(rest@, ':') {
            None => r is None,
            Some(c) => r matches Some(v) && v@ == trim_start(rest@.skip(c + 1)),
        },
{
    let rn = rest.len();
    let c = match index_of(rest, ':') {
        Some(c) => c,
        None => return None,
    };
    let tail = slice(rest, c + 1, rn);
    assert(tail@ =~= rest@.skip(c + 1));
    Some(trimmed_start(tail.as_slice()))
}

fn after_key_exec(body: &[char], key: &str) -> (r: Option<Vec<char>>)
    ensures
        match after_key(body@, key@) {
            Some(a) => r matches Some(v) && v@ == a,
            None => r is None,
        },
{
    let needle = needle_of(key);
    let n = body.len();
    let i = match find(body, needle.as_slice()) {
        Some(i) => i,
        None => return None,
    };
    let rest = slice(body, i + needle.len(), n);
    assert(rest@ =~= body@.skip(i + needle@.len()));
    after_colon(rest.as_slice())
}

/// The string value of the first `"key"` in a JSON reply.
pub fn json_str(body: &str, key: &str) -> (r: Option<String>)
    ensures
        opt_str(r) == json_str_spec(body@, key@),
{
    let b = chars_of(body);
    let a = match after_key_exec(b.as_slice(), key) {
        Some(a) => a,
        None => return None,
    };
    if a.len() == 0 || a[0] != '"' {
        return None;
    }
    let an = a.len();
    let inner = slice(a.as_slice(), 1, an);
    assert(inner@ =~= a@.skip(1));
    match index_of(inner.as_slice(), '"') {
        Some(e) => {
            let v = slice(inner.as_slice(), 0, e);
            assert(v@ =~= inner@.take(e as int));
            Some(string_of(v.as_slice()))
        },
        None => None,
    }
}

/// The unquoted number after the first `"key"` in a JSON reply.
pub fn json_num(body: &str, key: &str) -> (r: Option<u64>)
    ensures
        r == json_num_spec(body@, key@),
{
    let b = chars_of(body);
    let a = match after_key_exec(b.as_slice(), key) {
        Some(a) => a,
        None => return None,
    };
    let mut end: usize = 0;
    assert(a@.skip(0) =~= a@);
    while end < a.len() && a[end] >= '0' && a[end] <= '9'
        invariant
            0 <= end <= a@.len(),
            digit_run(a@) == end + digit_run(a@.skip(end as int)),
        decreases a@.len() - end,
    {
        assert(a@.skip(end as int).drop_first() =~= a@.skip(end + 1));
        end += 1;
    }
    assert(digit_run(a@.skip(end as int)) == 0) by {
        if end < a@.len() {
            assert(a@.skip(end as int)[0] == a@[end as int]);
        }
    }
    let digits = slice(a.as_slice(), 0, end);
    assert(digits@ =~= a@.take(end as int));
    parse_u64(digits.as_slice())
}

/// Why an App operation could not go on.
#[derive(Clone, Copy, PartialEq, Eq, Structural, Debug)]
pub enum AppError {
    /// `GET /app/installations` listed none.
    NoInstallation,
    /// No `installation_id` is configured.
    NoInstallationId,
    /// The access-token reply carried no token.
    NoToken,
}

/// The App's installation: the first `id` that `GET /app/installations` answered with.
pub fn find_installation(reply: &str) -> (r: Result<u64, AppError>)
    ensures
        match json_num_spec(reply@, "id"@) {
            Some(n) => r == Ok::<u64, AppError>(n),
            None => r == Err::<u64, AppError>(AppError::NoInstallation),
        },
{
    match json_num(reply, "id") {
        Some(n) => Ok(n),
        None => Err(AppError::NoInstallation),
    }
}

/// The installation to mint a token for.
pub fn installation_of(cfg: &AppConfig) -> (r: Result<u64, AppError>)
    ensures
        match cfg.installation_id {
            Some(n) => r == Ok::<u64, AppError>(n),
            None => r == Err::<u64, AppError>(AppError::NoInstallationId),
        },
{
    match cfg.installation_id {
        Some(n) => Ok(n),
        None => Err(AppError::NoInstallationId),
    }
}

/// The token in an access-token reply, and when to stop using it: 55 minutes from `now`.
pub fn minted_token(reply: &str, now: u64) -> (r: Result<(String, u64), AppError>)
    requires
        now <= u64::MAX - 3300,
    ensures
        match json_str_spec(reply@, "token"@) {
            Some(t) => r matches Ok(p) && p.0@ == t && p.1 == now + 3300,
            None => r == Err::<(String, u64), AppError>(AppError::NoToken),
        },
{
    match json_str(reply, "token") {
        Some(t) => Ok((t, now + 55 * 60)),
        None => Err(AppError::NoToken),
    }
}

// ---------------------------------------------------------------- the token cache

/// A cached token is reused while more than five minutes remain.
pub open spec fn cached_spec(cache: Seq<char>, now: u64) -> Option<Seq<char>> {
    match (json_str_spec(cache, "token"@), json_num_spec(cache, "expires"@)) {
        (Some(t), Some(e)) => if e > now + 300 {
            Some(t)
        } else {
            None
        },
        _ => None,
    }
}

/// The token in the cache file's text, if it is still fresh at `now` (seconds since the
/// epoch).
pub fn cached_token(cache: &str, now: u64) -> (r: Option<String>)
    requires
        now <= u64::MAX - 300,
    ensures
        opt_str(r) == cached_spec(cache@, now),
{
    let t = json_str(cache, "token");
    let e = json_num(cache, "expires");
    match (t, e) {
        (Some(t), Some(e)) => {
            if e > now + 300 {
                Some(t)
            } else {
                None
            }
        },
        _ => None,
    }
}

/// The cache file's line for a token expiring at `expires`.
pub open spec fn cache_line_spec(token: Seq<char>, expires: u64) -> Seq<char> {
    "{\"token\":\""@ + token + "\",\"expires\":"@ + dec(expires as nat) + "}\n"@
}

pub fn cache_line(token: &str, expires: u64) -> (s: String)
    ensures
        s@ == cache_line_spec(token@, expires),
{
    let mut s = String::new();
    s.append("{\"token\":\"");
    s.append(token);
    s.append("\",\"expires\":");
    let d = string_of(decimal_u64(expires).as_slice());
    s.append(d.as_str());
    s.append("}\n");
    s
}

/// The token a cache line records is the token read back from it, when the token holds no
/// `"` (GitHub's tokens never do).
#[verifier::rlimit(60)]
pub proof fn cache_line_reads_back_its_token(token: Seq<char>, expires: u64)
    requires
        !token.contains('"'),
    ensures
        json_str_spec(cache_line_spec(token, expires), "token"@) == Some(token),
{
    let head = "{\"token\":\""@;
    let rest_of_line = "\",\"expires\":"@ + dec(expires as nat) + "}\n"@;
    let line = cache_line_spec(token, expires);
    assert(line =~= head + (token + rest_of_line));
    reveal_strlit("{\"token\":\"");
    reveal_strlit("token");
    let needle = seq!['"'] + "token"@ + seq!['"'];
    assert(head.len() == 10);
    assert(line.subrange(1, 8) =~= head.subrange(1, 8));
    assert(head.subrange(1, 8) =~= needle);
    assert(!crate::text::occurs_at(line, needle, 0)) by {
        assert(line.subrange(0, 7)[1] == head[1]);
    }
    crate::text::lemma_first_occurrence(line, needle, 1);
    let rest = line.skip(8);
    assert(rest =~= head.skip(8) + (token + rest_of_line));
    assert(rest[0] == ':');
    crate::text::lemma_first_index(rest, ':', 0);
    let tail = rest.skip(1);
    assert(tail =~= seq!['"'] + (token + rest_of_line));
    assert(!crate::text::is_ws(tail[0]));
    assert(trim_start(tail) == tail);
    let inner = tail.skip(1);
    assert(inner =~= token + rest_of_line);
    reveal_strlit("\",\"expires\":");
    assert(inner[token.len() as int] == '"');
    assert forall|j: int| 0 <= j < token.len() implies inner[j] != '"' by {
        assert(inner[j] == token[j]);
        assert(token.contains(token[j]));
    }
    crate::text::lemma_first_index(inner, '"', token.len() as int);
    assert(inner.take(token.len() as int) =~= token);
}

// ---------------------------------------------------------------- credentials

/// The host a git credential request names: the first `host=` line, else none (empty).
pub open spec fn request_host(input: Seq<char>) -> Seq<char> {
    let ls = lines(input);
    if exists|i: int| 0 <= i < ls.len() && is_prefix("host="@, #[trigger] ls[i]) {
        let i = choose|i: int| 0 <= i < ls.len() && is_prefix("host="@, #[trigger] ls[i]) && forall|j: int|
            0 <= j < i ==> !is_prefix("host="@, #[trigger] ls[j]);
        ls[i].skip(5)
    } else {
        Seq::empty()
    }
}

/// Answer a credential `get` only for GitHub (or a request that names no host).
pub fn answers_credential(input: &str) -> (b: bool)
    ensures
        b == (request_host(input@).len() == 0 || request_host(input@) == "github.com"@),
{
    let c = chars_of(input);
    let ls = split_lines(c.as_slice());
    let prefix = chars_of("host=");
    proof {
        reveal_strlit("host=");
    }
    let mut i: usize = 0;
    while i < ls.len()
        invariant
            0 <= i <= ls@.len(),
            prefix@ == "host="@,
            prefix@.len() == 5,
            vv(ls@) == lines(input@),
            forall|j: int| 0 <= j < i ==> !is_prefix("host="@, #[trigger] lines(input@)[j]),
        decreases ls@.len() - i,
    {
        assert(vv(ls@)[i as int] == ls@[i as int]@);
        if starts_with(ls[i].as_slice(), prefix.as_slice()) {
            let n = ls[i].len();
            let host = slice(ls[i].as_slice(), 5, n);
            proof {
                let l = lines(input@);
                assert(is_prefix("host="@, l[i as int]));
                let k = choose|k: int| 0 <= k < l.len() && is_prefix("host="@, #[trigger] l[k]) && forall|j: int|
                    0 <= j < k ==> !is_prefix("host="@, #[trigger] l[j]);
                if k < i {
                } else if k > i {
                    assert(!is_prefix("host="@, l[i as int]));
                }
                assert(host@ =~= l[i as int].skip(5));
            }
            let hs = string_of(host.as_slice());
            return host.len() == 0 || crate::text::same(host.as_slice(), chars_of("github.com").as_slice());
        }
        i += 1;
    }
    true
}

// ---------------------------------------------------------------- the JWT

/// The JWT's header and claims: RS256, issued a minute before `now` (clock skew), expiring
/// nine minutes after it, issued by the App.
pub open spec fn claims_spec(now: u64, app_id: Seq<char>) -> Seq<char> {
    let iat: u64 = if now >= 60 { (now - 60) as u64 } else { 0 };
    "{\"iat\":"@ + dec(iat as nat) + ",\"exp\":"@ + dec((now + 540) as nat) + ",\"iss\":\""@ + app_id + "\"}"@
}

/// The text a JWT signs: the encoded header, a dot, the encoded claims.
pub open spec fn signing_input_spec(now: u64, app_id: Seq<char>) -> Seq<char> {
    b64(encode_utf8("{\"alg\":\"RS256\",\"typ\":\"JWT\"}"@)) + "."@ + b64(
        encode_utf8(claims_spec(now, app_id)),
    )
}

pub fn signing_input(now: u64, app_id: &str) -> (s: String)
    requires
        now <= u64::MAX - 540,
    ensures
        s@ == signing_input_spec(now, app_id@),
{
    let iat: u64 = if now >= 60 { now - 60 } else { 0 };
    let mut claims = String::new();
    claims.append("{\"iat\":");
    claims.append(string_of(decimal_u64(iat).as_slice()).as_str());
    claims.append(",\"exp\":");
    claims.append(string_of(decimal_u64(now + 540).as_slice()).as_str());
    claims.append(",\"iss\":\"");
    claims.append(app_id);
    claims.append("\"}");
    assert(claims@ =~= claims_spec(now, app_id@));
    let header = "{\"alg\":\"RS256\",\"typ\":\"JWT\"}";
    let h = b64url(header.as_bytes());
    let p = b64url(claims.as_str().as_bytes());
    let mut s = String::new();
    s.append(h.as_str());
    s.append(".");
    s.append(p.as_str());
    s
}

/// The JWT: the signed text, a dot, the encoded signature.
pub fn jwt(signing_input: &str, signature: &[u8]) -> (s: String)
    ensures
        s@ == signing_input@ + "."@ + b64(signature@),
{
    let mut s = String::new();
    s.append(signing_input);
    s.append(".");
    let sig = b64url(signature);
    s.append(sig.as_str());
    s
}

} // verus!
