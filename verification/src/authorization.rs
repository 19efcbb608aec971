//! The `Authorization: bearer: <token>` request header.
use vstd::prelude::*;
use vstd::string::*;

use crate::text::push_char;

verus! {

/// Why a request carries no usable token.
#[derive(Debug)]
pub enum JWTError {
    /// The request has no `authorization` header.
    AuthorizationMissing,
    /// The header does not hold `bearer: ` followed by a token.
    MissingJWT,
}

/// The bearer token of a request.
#[derive(Debug)]
pub struct JWTAuthorization {
    pub token: String,
}

/// A header byte that may stand in header text: visible ASCII, or a tab.
pub open spec fn is_visible(b: u8) -> bool {
    (32 <= b && b < 127) || b == 9
}

/// The characters of header bytes, one per byte.
pub open spec fn header_chars(bytes: Seq<u8>) -> Seq<char> {
    bytes.map_values(|b: u8| b as char)
}

/// Header text holds the tab and the characters from the space to `~`, and each byte
/// stands for the character with its code.
pub proof fn law_header_bytes(b: u8, bytes: Seq<u8>)
    ensures
        is_visible(b) <==> ((b as char) == '\t' || (' ' <= (b as char) && (b as char) <= '~')),
        header_chars(bytes).len() == bytes.len(),
        forall|i: int| 0 <= i < bytes.len() ==> (#[trigger] header_chars(bytes)[i]) as u32 == bytes[i] as u32,
{
}

/// A header value's bytes as text, as a header value's `to_str` reads it: `None` where a
/// byte is neither visible ASCII nor a tab, else one character per byte.
pub fn header_text(bytes: &[u8]) -> (r: Option<String>)
    ensures
        r is None <==> exists|i: int| 0 <= i < bytes@.len() && !is_visible(#[trigger] bytes@[i]),
        r matches Some(t) ==> t@ == header_chars(bytes@),
{
    let mut text = String::new();
    let mut i: usize = 0;
    while i < bytes.len()
        invariant
            i <= bytes@.len(),
            forall|k: int| 0 <= k < i ==> is_visible(#[trigger] bytes@[k]),
            text@ == header_chars(bytes@.take(i as int)),
        decreases bytes@.len() - i,
    {
        let b: u8 = bytes[i];
        if !((32 <= b && b < 127) || b == 9) {
            return None;
        }
        push_char(&mut text, b as char);
        assert(bytes@.take(i + 1) =~= bytes@.take(i as int).push(b));
        assert(header_chars(bytes@.take(i + 1)) =~= header_chars(bytes@.take(i as int)).push(b as char));
        i = i + 1;
    }
    assert(bytes@.take(i as int) =~= bytes@);
    Some(text)
}

/// Characters with the Unicode `White_Space` property (what `char::is_whitespace` accepts).
pub open spec fn is_white(c: char) -> bool {
    ||| ('\u{9}' <= c && c <= '\u{d}')
    ||| c == ' '
    ||| c == '\u{85}'
    ||| c == '\u{a0}'
    ||| c == '\u{1680}'
    ||| ('\u{2000}' <= c && c <= '\u{200a}')
    ||| c == '\u{2028}'
    ||| c == '\u{2029}'
    ||| c == '\u{202f}'
    ||| c == '\u{205f}'
    ||| c == '\u{3000}'
}

/// `s` without its leading white space.
pub open spec fn trim_start(s: Seq<char>) -> Seq<char>
    decreases s.len(),
{
    if s.len() > 0 && is_white(s[0]) {
        trim_start(s.drop_first())
    } else {
        s
    }
}

/// `s` without its trailing white space.
pub open spec fn trim_end(s: Seq<char>) -> Seq<char>
    decreases s.len(),
{
    if s.len() > 0 && is_white(s.last()) {
        trim_end(s.drop_last())
    } else {
        s
    }
}

/// `s` without leading and trailing white space (`str::trim`).
pub open spec fn trim(s: Seq<char>) -> Seq<char> {
    trim_end(trim_start(s))
}

/// `p` stands in `t` from position `i` on.
pub open spec fn occurs_at(t: Seq<char>, p: Seq<char>, i: int) -> bool {
    0 <= i && i + p.len() <= t.len() && t.subrange(i, i + p.len()) == p
}

/// The first position at or after `k` where `p` stands in `t`.
pub open spec fn first_from(t: Seq<char>, p: Seq<char>, k: nat) -> Option<nat>
    decreases t.len() + 1 - k,
{
    if k + p.len() > t.len() {
        None
    } else if occurs_at(t, p, k as int) {
        Some(k)
    } else {
        first_from(t, p, k + 1)
    }
}

/// The second piece of `t` split at `p`: what stands between the first occurrence of `p`
/// and the next one (or the end); none if `p` does not occur.
pub open spec fn second_piece(t: Seq<char>, p: Seq<char>) -> Option<Seq<char>> {
    match first_from(t, p, 0) {
        None => None,
        Some(i) => {
            let start = i + p.len();
            match first_from(t, p, start) {
                Some(j) => Some(t.subrange(start as int, j as int)),
                None => Some(t.subrange(start as int, t.len() as int)),
            }
        },
    }
}

/// The token in a header value: the second piece of the trimmed value split at `bearer: `.
pub open spec fn header_token(value: Seq<char>) -> Option<Seq<char>> {
    second_piece(trim(value), "bearer: "@)
}

proof fn lemma_trim_start_skip(s: Seq<char>, k: int)
    requires
        0 <= k <= s.len(),
        forall|i: int| 0 <= i < k ==> is_white(#[trigger] s[i]),
    ensures
        trim_start(s) == trim_start(s.skip(k)),
    decreases k,
{
    if k > 0 {
        assert(s.skip(1) =~= s.drop_first());
        lemma_trim_start_skip(s.drop_first(), k - 1);
        assert(s.drop_first().skip(k - 1) =~= s.skip(k));
    } else {
        assert(s.skip(0) =~= s);
    }
}

proof fn lemma_trim_end_take(s: Seq<char>, k: int)
    requires
        0 <= k <= s.len(),
        forall|i: int| k <= i < s.len() ==> is_white(#[trigger] s[i]),
    ensures
        trim_end(s) == trim_end(s.take(k)),
    decreases s.len() - k,
{
    if k < s.len() {
        lemma_trim_end_take(s.drop_last(), k);
        assert(s.drop_last().take(k) =~= s.take(k));
    } else {
        assert(s.take(k) =~= s);
    }
}

proof fn lemma_first_from_some(t: Seq<char>, p: Seq<char>, k: nat)
    ensures
        first_from(t, p, k) matches Some(i) ==> k <= i && occurs_at(t, p, i as int),
    decreases t.len() + 1 - k,
{
    if k + p.len() <= t.len() && !occurs_at(t, p, k as int) {
        lemma_first_from_some(t, p, k + 1);
    }
}

proof fn lemma_first_from_min(t: Seq<char>, p: Seq<char>, k: nat)
    ensures
        first_from(t, p, k) matches Some(j) ==> forall|i: int| k <= i < j ==> !occurs_at(t, p, i),
        first_from(t, p, k) is None ==> forall|i: int| k <= i ==> !occurs_at(t, p, i),
    decreases t.len() + 1 - k,
{
    if k + p.len() <= t.len() && !occurs_at(t, p, k as int) {
        lemma_first_from_min(t, p, k + 1);
    }
}

/// The token never holds `bearer: `: it ends where the next `bearer: ` begins.
pub proof fn law_token_holds_no_marker(value: Seq<char>)
    ensures
        header_token(value) matches Some(token) ==> forall|q: int|
            !occurs_at(token, "bearer: "@, q),
{
    let t = trim(value);
    let p = "bearer: "@;
    reveal_strlit("bearer: ");
    lemma_first_from_some(t, p, 0);
    if let Some(i) = first_from(t, p, 0) {
        let start = i + p.len();
        lemma_first_from_min(t, p, start);
        lemma_first_from_some(t, p, start);
        let token = header_token(value)->0;
        assert forall|q: int| !occurs_at(token, p, q) by {
            if occurs_at(token, p, q) {
                match first_from(t, p, start) {
                    Some(j) => {
                        assert(token =~= t.subrange(start as int, j as int));
                        assert(t.subrange(start + q, start + q + p.len()) =~= token.subrange(
                            q,
                            q + p.len(),
                        ));
                        assert(occurs_at(t, p, start + q));
                    },
                    None => {
                        assert(token =~= t.subrange(start as int, t.len() as int));
                        assert(t.subrange(start + q, start + q + p.len()) =~= token.subrange(
                            q,
                            q + p.len(),
                        ));
                        assert(occurs_at(t, p, start + q));
                    },
                }
            }
        }
    }
}

proof fn lemma_first_from_absent(t: Seq<char>, p: Seq<char>, k: nat)
    requires
        forall|i: int| k <= i ==> !occurs_at(t, p, i),
    ensures
        first_from(t, p, k) is None,
    decreases t.len() + 1 - k,
{
    if k + p.len() <= t.len() {
        lemma_first_from_absent(t, p, k + 1);
    }
}

/// A header written as `bearer: ` and a token gives that token back, when the token ends in
/// no white space and holds no `bearer: `.
pub proof fn law_header_round_trip(token: Seq<char>)
    requires
        token.len() > 0,
        !is_white(token.last()),
        forall|q: int| !occurs_at(token, "bearer: "@, q),
    ensures
        header_token("bearer: "@ + token) == Some(token),
{
    let p = "bearer: "@;
    reveal_strlit("bearer: ");
    let v = p + token;
    assert(v[0] == 'b');
    assert(trim_start(v) == v);
    assert(v.last() == token.last());
    assert(trim_end(v) == v);
    assert(v.subrange(0, p.len() as int) =~= p);
    assert(occurs_at(v, p, 0));
    assert forall|i: int| p.len() <= i implies !occurs_at(v, p, i) by {
        if occurs_at(v, p, i) {
            let q = i - p.len();
            assert(token.subrange(q, q + p.len()) =~= v.subrange(i, i + p.len()));
            assert(occurs_at(token, p, q));
        }
    }
    lemma_first_from_absent(v, p, p.len());
    assert(v.subrange(p.len() as int, v.len() as int) =~= token);
}

/// White space is the Unicode `White_Space` set: among ASCII characters exactly the space
/// and tab to carriage return, beyond them exactly the listed code points; so no letter,
/// digit or other visible ASCII character is white space.
pub proof fn law_white_space_is_unicode(c: char)
    ensures
        is_white(c) <==> set![
            9u32, 10, 11, 12, 13, 32, 0x85, 0xa0, 0x1680, 0x2000, 0x2001, 0x2002, 0x2003, 0x2004,
            0x2005, 0x2006, 0x2007, 0x2008, 0x2009, 0x200a, 0x2028, 0x2029, 0x202f, 0x205f,
            0x3000,
        ].contains(c as u32),
        ('!' <= c && c <= '~') ==> !is_white(c),
{
}

/// A header written as `bearer: ` and a token that ends in a visible ASCII character (a
/// letter, a digit or a sign) and holds no `bearer: ` gives that whole token back.
pub proof fn law_visible_token_round_trip(token: Seq<char>)
    requires
        token.len() > 0,
        '!' <= token.last() && token.last() <= '~',
        forall|q: int| !occurs_at(token, "bearer: "@, q),
    ensures
        header_token("bearer: "@ + token) == Some(token),
{
    law_white_space_is_unicode(token.last());
    law_header_round_trip(token);
}

proof fn lemma_all_white_trims_away(b: Seq<char>)
    requires
        forall|i: int| 0 <= i < b.len() ==> is_white(#[trigger] b[i]),
    ensures
        trim_start(b) == Seq::<char>::empty(),
{
    lemma_trim_start_skip(b, b.len() as int);
    assert(b.skip(b.len() as int) =~= Seq::<char>::empty());
}

proof fn lemma_trim_start_append(s: Seq<char>, b: Seq<char>)
    ensures
        trim_start(s + b) == if trim_start(s).len() > 0 {
            trim_start(s) + b
        } else {
            trim_start(b)
        },
    decreases s.len(),
{
    if s.len() == 0 {
        assert(s + b =~= b);
    } else if is_white(s[0]) {
        assert((s + b).drop_first() =~= s.drop_first() + b);
        lemma_trim_start_append(s.drop_first(), b);
    } else {
        assert((s + b)[0] == s[0]);
    }
}

/// White space around a header value does not change its token.
pub proof fn law_surrounding_white_space(before: Seq<char>, value: Seq<char>, after: Seq<char>)
    requires
        forall|i: int| 0 <= i < before.len() ==> is_white(#[trigger] before[i]),
        forall|i: int| 0 <= i < after.len() ==> is_white(#[trigger] after[i]),
    ensures
        trim(before + value + after) == trim(value),
        header_token(before + value + after) == header_token(value),
{
    let whole = before + value + after;
    assert forall|i: int| 0 <= i < before.len() implies is_white(#[trigger] whole[i]) by {
        assert(whole[i] == before[i]);
    }
    lemma_trim_start_skip(whole, before.len() as int);
    assert(whole.skip(before.len() as int) =~= value + after);
    lemma_trim_start_append(value, after);
    let ts = trim_start(value);
    if ts.len() > 0 {
        let x = ts + after;
        assert forall|i: int| ts.len() <= i < x.len() implies is_white(#[trigger] x[i]) by {
            assert(x[i] == after[i - ts.len()]);
        }
        lemma_trim_end_take(x, ts.len() as int);
        assert(x.take(ts.len() as int) =~= ts);
    } else {
        lemma_all_white_trims_away(after);
        assert(ts =~= Seq::<char>::empty());
    }
}

fn is_white_char(c: char) -> (b: bool)
    ensures
        b == is_white(c),
{
    ('\u{9}' <= c && c <= '\u{d}') || c == ' ' || c == '\u{85}' || c == '\u{a0}' || c
        == '\u{1680}' || ('\u{2000}' <= c && c <= '\u{200a}') || c == '\u{2028}' || c
        == '\u{2029}' || c == '\u{202f}' || c == '\u{205f}' || c == '\u{3000}'
}

fn chars_of(s: &str) -> (v: Vec<char>)
    ensures
        v@ == s@,
{
    let n = s.unicode_len();
    let mut v: Vec<char> = Vec::new();
    let mut i: usize = 0;
    while i < n
        invariant
            n == s@.len(),
            i <= n,
            v@ == s@.take(i as int),
        decreases n - i,
    {
        v.push(s.get_char(i));
        assert(s@.take(i + 1) =~= s@.take(i as int).push(s@[i as int]));
        i = i + 1;
    }
    assert(s@.take(n as int) =~= s@);
    v
}

/// Whether `p` stands in `t` at `i`.
fn matches_at(t: &Vec<char>, p: &Vec<char>, i: usize) -> (b: bool)
    requires
        i <= t@.len(),
    ensures
        b == occurs_at(t@, p@, i as int),
{
    if p.len() > t.len() - i {
        return false;
    }
    let mut k: usize = 0;
    while k < p.len()
        invariant
            i + p@.len() <= t@.len(),
            t@.len() <= usize::MAX,
            k <= p@.len(),
            forall|m: int| 0 <= m < k ==> t@[i + m] == p@[m],
        decreases p@.len() - k,
    {
        if t[i + k] != p[k] {
            assert(t@.subrange(i as int, i + p@.len())[k as int] != p@[k as int]);
            return false;
        }
        k = k + 1;
    }
    assert(t@.subrange(i as int, i + p@.len()) =~= p@);
    true
}

/// The first position at or after `from` where `p` stands in `t`.
fn find_from(t: &Vec<char>, p: &Vec<char>, from: usize) -> (r: Option<usize>)
    requires
        from <= t@.len(),
    ensures
        r == match first_from(t@, p@, from as nat) {
            Some(i) => Some(i as usize),
            None => None::<usize>,
        },
{
    let mut k = from;
    while k < t.len()
        invariant
            from <= k,
            k <= t@.len(),
            first_from(t@, p@, from as nat) == first_from(t@, p@, k as nat),
        decreases t@.len() - k,
    {
        if matches_at(t, p, k) {
            return Some(k);
        }
        if p.len() > t.len() - k {
            return None;
        }
        k = k + 1;
    }
    if matches_at(t, p, k) {
        Some(k)
    } else {
        assert(first_from(t@, p@, (k + 1) as nat) is None);
        None
    }
}

fn string_of(cs: &Vec<char>, from: usize, to: usize) -> (s: String)
    requires
        from <= to <= cs@.len(),
    ensures
        s@ == cs@.subrange(from as int, to as int),
{
    let mut s = String::new();
    let mut i = from;
    while i < to
        invariant
            from <= i <= to,
            to <= cs@.len(),
            s@ == cs@.subrange(from as int, i as int),
        decreases to - i,
    {
        push_char(&mut s, cs[i]);
        assert(cs@.subrange(from as int, i + 1) =~= cs@.subrange(from as int, i as int).push(
            cs@[i as int],
        ));
        i = i + 1;
    }
    s
}

impl JWTAuthorization {
    /// Reads the token out of an `authorization` header value.
    pub fn parse(s: &str) -> (r: Result<JWTAuthorization, JWTError>)
        ensures
            match header_token(s@) {
                None => r matches Err(JWTError::MissingJWT),
                Some(token) => r matches Ok(auth) && auth.token@ == token,
            },
    {
        let all = chars_of(s);
        let n = all.len();
        let mut lo: usize = 0;
        while lo < n && is_white_char(all[lo])
            invariant
                n == all@.len(),
                lo <= n,
                forall|i: int| 0 <= i < lo ==> is_white(#[trigger] all@[i]),
            decreases n - lo,
        {
            lo = lo + 1;
        }
        let mut hi: usize = n;
        while hi > lo && is_white_char(all[hi - 1])
            invariant
                n == all@.len(),
                lo <= hi <= n,
                forall|i: int| hi <= i < n ==> is_white(#[trigger] all@[i]),
            decreases hi,
        {
            hi = hi - 1;
        }
        let t = string_of(&all, lo, hi);
        let cs = chars_of(t.as_str());
        proof {
            let st = all@.skip(lo as int);
            lemma_trim_start_skip(all@, lo as int);
            assert(trim_start(st) == st);
            lemma_trim_end_take(st, (hi - lo) as int);
            assert(st.take((hi - lo) as int) =~= cs@);
            if hi > lo {
                assert(!is_white(cs@[0]));
            }
            if hi > lo {
                assert(!is_white(cs@.last()));
            }
            assert(trim_end(cs@) == cs@);
            assert(trim_start(cs@) == cs@);
            assert(trim(s@) == cs@);
        }
        let pattern = chars_of("bearer: ");
        proof {
            reveal_strlit("bearer: ");
        }
        proof {
            lemma_first_from_some(cs@, pattern@, 0);
        }
        match find_from(&cs, &pattern, 0) {
            None => Err(JWTError::MissingJWT),
            Some(i) => {
                let start = i + pattern.len();
                proof {
                    lemma_first_from_some(cs@, pattern@, start as nat);
                }
                match find_from(&cs, &pattern, start) {
                    Some(j) => Ok(JWTAuthorization { token: string_of(&cs, start, j) }),
                    None => Ok(JWTAuthorization { token: string_of(&cs, start, cs.len()) }),
                }
            },
        }
    }

    /// The token of a request, given its `authorization` header value if it has one.
    pub fn from_header(header: Option<&str>) -> (r: Result<JWTAuthorization, JWTError>)
        ensures
            header is None ==> r matches Err(JWTError::AuthorizationMissing),
            header matches Some(value) ==> match header_token(value@) {
                None => r matches Err(JWTError::MissingJWT),
                Some(token) => r matches Ok(auth) && auth.token@ == token,
            },
    {
        match header {
            None => Err(JWTError::AuthorizationMissing),
            Some(value) => JWTAuthorization::parse(value),
        }
    }
}

impl std::str::FromStr for JWTAuthorization {
    type Err = JWTError;

    fn from_str(s: &str) -> (r: Result<Self, Self::Err>)
        ensures
            match header_token(s@) {
                None => r matches Err(JWTError::MissingJWT),
                Some(token) => r matches Ok(auth) && auth.token@ == token,
            },
    {
        JWTAuthorization::parse(s)
    }
}

impl JWTError {
    /// The text a client is answered with.
    pub fn message(&self) -> (s: &'static str)
        ensures
            self is AuthorizationMissing ==> s@ == "Authorization header missing"@,
            self is MissingJWT ==> s@ == "Invalid bearer prefix or jwt missing"@,
    {
        match self {
            JWTError::AuthorizationMissing => "Authorization header missing",
            JWTError::MissingJWT => "Invalid bearer prefix or jwt missing",
        }
    }
}

} // verus!
