//! Month-key derivation.
//!
//! A timestamp cell is expected to look like `YYYY-MM-DD hh:mm`: the month key
//! is the first seven characters of its first whitespace-delimited token. A
//! timestamp with no token, or whose token is shorter than seven characters,
//! yields no month key.

use vstd::prelude::*;

verus! {

/// ASCII whitespace, the separator between the date token and the rest of a
/// timestamp.
pub open spec fn is_ws(c: char) -> bool {
    c == ' ' || c == '\t' || c == '\n' || c == '\r' || c == '\x0c'
}

/// The longest whitespace-free prefix of `s`.
pub open spec fn token_prefix(s: Seq<char>) -> Seq<char>
    decreases s.len(),
{
    if s.len() == 0 || is_ws(s[0]) {
        Seq::empty()
    } else {
        seq![s[0]] + token_prefix(s.drop_first())
    }
}

/// The month key of a timestamp: the first seven characters of its first
/// whitespace-delimited token, if that token has at least seven characters.
pub open spec fn month_of(s: Seq<char>) -> Option<Seq<char>>
    decreases s.len(),
{
    if s.len() == 0 {
        None
    } else if is_ws(s[0]) {
        month_of(s.drop_first())
    } else if token_prefix(s).len() >= 7 {
        Some(token_prefix(s).take(7))
    } else {
        None
    }
}

pub fn is_whitespace_char(c: char) -> (r: bool)
    ensures
        r == is_ws(c),
{
    c == ' ' || c == '\t' || c == '\n' || c == '\r' || c == '\x0c'
}

/// On a string whose first `m` characters are not whitespace, the token prefix
/// covers at least those `m` characters; if a whitespace character or the end
/// of the string follows them, it covers exactly those.
proof fn lemma_token_prefix(s: Seq<char>, m: int)
    requires
        0 <= m <= s.len(),
        forall|t: int| 0 <= t < m ==> !is_ws(s[t]),
    ensures
        token_prefix(s).len() >= m,
        token_prefix(s).take(m) == s.take(m),
        m == s.len() || is_ws(s[m]) ==> token_prefix(s).len() == m,
    decreases m,
{
    if m == 0 {
        assert(token_prefix(s).take(0) =~= s.take(0));
    } else {
        let rest = s.drop_first();
        assert(forall|t: int| 0 <= t < m - 1 ==> !is_ws(rest[t]));
        lemma_token_prefix(rest, m - 1);
        assert(token_prefix(s) == seq![s[0]] + token_prefix(rest));
        assert(token_prefix(s).take(m) =~= s.take(m)) by {
            assert(forall|t: int| 0 < t < m ==> #[trigger] token_prefix(s).take(m)[t]
                == token_prefix(rest).take(m - 1)[t - 1]);
        }
        if m == s.len() || is_ws(s[m]) {
            assert(m - 1 == rest.len() || is_ws(rest[m - 1]));
        }
    }
}

/// Derive the month key of a timestamp: split on ASCII whitespace, take the
/// first token, and keep its first seven characters. Returns `None` when the
/// timestamp holds no token or the token is shorter than seven characters.
pub fn derive_month_key(ts: &str) -> (r: Option<String>)
    ensures
        r matches Some(m) ==> month_of(ts@) == Some(m@),
        r is None ==> month_of(ts@) is None,
{
    let n = ts.unicode_len();
    let mut i: usize = 0;
    proof {
        assert(ts@.skip(0) =~= ts@);
    }
    // Skip leading whitespace.
    loop
        invariant
            i <= n,
            n == ts@.len(),
            month_of(ts@) == month_of(ts@.skip(i as int)),
        ensures
            i <= n,
            month_of(ts@) == month_of(ts@.skip(i as int)),
            i < n ==> !is_ws(ts@[i as int]),
            i == n ==> month_of(ts@) is None,
        decreases n - i,
    {
        if i == n {
            proof {
                assert(ts@.skip(i as int) =~= Seq::<char>::empty());
            }
            break;
        }
        let c = ts.get_char(i);
        if !is_whitespace_char(c) {
            break;
        }
        proof {
            assert(ts@.skip(i as int).drop_first() =~= ts@.skip(i as int + 1));
        }
        i = i + 1;
    }
    if i == n {
        return None;
    }
    let ghost rest = ts@.skip(i as int);
    // Measure the token, up to seven characters.
    let mut j: usize = i;
    loop
        invariant
            i <= j <= n,
            j - i <= 7,
            n == ts@.len(),
            forall|t: int| i <= t < j ==> !is_ws(ts@[t]),
        ensures
            i <= j <= n,
            j - i <= 7,
            forall|t: int| i <= t < j ==> !is_ws(ts@[t]),
            j - i == 7 || j == n || is_ws(ts@[j as int]),
        decreases n - j,
    {
        if j == n || j - i == 7 {
            break;
        }
        if is_whitespace_char(ts.get_char(j)) {
            break;
        }
        j = j + 1;
    }
    proof {
        assert(rest.len() == n - i);
        assert(forall|t: int| 0 <= t < j - i ==> rest[t] == ts@[t + i] && !is_ws(rest[t]));
        lemma_token_prefix(rest, j - i);
    }
    if j - i == 7 {
        let token = ts.substring_char(i, j);
        let key = String::from_str(token);
        proof {
            assert(token_prefix(rest).take(7) =~= rest.take(7));
            assert(key@ =~= rest.take(7)) by {
                assert(key@ == ts@.subrange(i as int, j as int));
            }
        }
        Some(key)
    } else {
        proof {
            if j < n {
                assert(is_ws(rest[j - i]));
            }
            assert(j - i == rest.len() || is_ws(rest[j - i]));
            assert(token_prefix(rest).len() < 7);
        }
        None
    }
}

} // verus!
