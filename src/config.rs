//! Gateway settings and the parsing of their textual forms.

use vstd::prelude::*;
use crate::text::{split_on, split_text, trim_white, trimmed};

verus! {

/// Settings read at startup.
#[derive(Debug, Clone)]
pub struct Config {
    pub database_url: String,
    pub redis_url: String,
    pub port: u16,
    pub vk_secret: Option<String>,
    pub cors_allowed_origins: Option<Vec<String>>,
}

/// The non-empty pieces, in order.
pub open spec fn non_empty(pieces: Seq<Seq<char>>) -> Seq<Seq<char>>
    decreases pieces.len(),
{
    if pieces.len() == 0 {
        Seq::<Seq<char>>::empty()
    } else {
        let front = non_empty(pieces.drop_last());
        if pieces.last().len() > 0 {
            front.push(pieces.last())
        } else {
            front
        }
    }
}

/// The trimmed pieces of a comma-separated list.
pub open spec fn trimmed_pieces(raw: Seq<char>) -> Seq<Seq<char>> {
    split_on(raw, ',').map_values(|p: Seq<char>| trimmed(p))
}

/// The origins among already trimmed pieces: the non-empty ones, or none
/// at all when every piece is empty.
pub fn keep_origins(pieces: Vec<String>) -> (r: Option<Vec<String>>)
    ensures
        ({
            let o = non_empty(pieces@.map_values(|s: String| s@));
            if o.len() == 0 {
                r is None
            } else {
                r is Some && r->Some_0@.map_values(|s: String| s@) == o
            }
        }),
{
    let ghost ps = pieces@.map_values(|p: String| p@);
    let mut out: Vec<String> = Vec::new();
    let mut i: usize = 0;
    assert(ps.subrange(0, 0) =~= Seq::<Seq<char>>::empty());
    assert(out@.map_values(|s: String| s@) =~= Seq::<Seq<char>>::empty());
    while i < pieces.len()
        invariant
            ps == pieces@.map_values(|p: String| p@),
            i <= pieces@.len(),
            out@.map_values(|s: String| s@) == non_empty(ps.subrange(0, i as int)),
        decreases pieces.len() - i,
    {
        assert(ps.subrange(0, i + 1).drop_last() =~= ps.subrange(0, i as int));
        assert(ps[i as int] == pieces@[i as int]@);
        if pieces[i].as_str().unicode_len() > 0 {
            let ghost prev = out@;
            out.push(pieces[i].clone());
            assert(out@.map_values(|s: String| s@) =~= prev.map_values(|s: String| s@).push(ps[i as int]));
        }
        i = i + 1;
    }
    assert(ps.subrange(0, pieces@.len() as int) =~= ps);
    if out.len() == 0 {
        None
    } else {
        Some(out)
    }
}

/// The allowed CORS origins from a comma-separated list: each piece
/// trimmed, empty ones dropped; none when nothing is left.
pub fn parse_cors_origins(raw: &str) -> (r: Option<Vec<String>>)
    ensures
        ({
            let o = non_empty(trimmed_pieces(raw@));
            if o.len() == 0 {
                r is None
            } else {
                r is Some && r->Some_0@.map_values(|s: String| s@) == o
            }
        }),
{
    let pieces = split_text(raw, ',');
    let mut cleaned: Vec<String> = Vec::new();
    let mut i: usize = 0;
    while i < pieces.len()
        invariant
            i <= pieces@.len(),
            cleaned@.len() == i,
            forall|k: int| 0 <= k < i ==> (#[trigger] cleaned@[k])@ == trimmed(pieces@[k]@),
        decreases pieces.len() - i,
    {
        cleaned.push(String::from_str(trim_white(pieces[i].as_str())));
        i = i + 1;
    }
    assert(cleaned@.map_values(|s: String| s@) =~= trimmed_pieces(raw@));
    keep_origins(cleaned)
}

pub open spec fn is_digit(c: char) -> bool {
    '0' <= c <= '9'
}

/// The number that a string of decimal digits denotes.
pub open spec fn digits_value(s: Seq<char>) -> nat
    decreases s.len(),
{
    if s.len() == 0 {
        0
    } else {
        digits_value(s.drop_last()) * 10 + (s.last() as nat - '0' as nat) as nat
    }
}

pub open spec fn all_digits(b: Seq<char>) -> bool {
    forall|i: int| 0 <= i < b.len() ==> is_digit(#[trigger] b[i])
}

/// The text without one leading `+`.
pub open spec fn unsigned_body(s: Seq<char>) -> Seq<char> {
    if s.len() > 0 && s[0] == '+' {
        s.drop_first()
    } else {
        s
    }
}

/// An unsigned number as `str::parse` reads it: an optional `+`, then one
/// or more decimal digits, denoting at most `max`.
pub open spec fn unsigned_of(s: Seq<char>, max: nat) -> Option<nat> {
    let body = unsigned_body(s);
    if body.len() > 0 && all_digits(body) && digits_value(body) <= max {
        Some(digits_value(body))
    } else {
        None
    }
}

proof fn lemma_digits_value_grows(s: Seq<char>, n: int)
    requires
        0 <= n <= s.len(),
        forall|i: int| 0 <= i < s.len() ==> is_digit(#[trigger] s[i]),
    ensures
        digits_value(s) >= digits_value(s.subrange(0, n)),
    decreases s.len() - n,
{
    if n < s.len() {
        lemma_digits_value_grows(s, n + 1);
        assert(s.subrange(0, n + 1).drop_last() =~= s.subrange(0, n));
    } else {
        assert(s.subrange(0, n) =~= s);
    }
}

/// `unsigned_of(s, max)`, executable.
pub fn parse_unsigned(s: &str, max: u64) -> (r: Option<u64>)
    ensures
        match unsigned_of(s@, max as nat) {
            Some(v) => r is Some && r->Some_0 as nat == v,
            None => r is None,
        },
{
    let n = s.unicode_len();
    let start: usize = if n > 0 && s.get_char(0) == '+' {
        1
    } else {
        0
    };
    let ghost body = unsigned_body(s@);
    assert(body =~= s@.subrange(start as int, n as int));
    if start == n {
        return None;
    }
    let mut acc: u64 = 0;
    let mut i: usize = start;
    assert(body.subrange(0, 0) =~= Seq::<char>::empty());
    while i < n
        invariant
            n == s@.len(),
            start <= i <= n,
            body == s@.subrange(start as int, n as int),
            body == unsigned_body(s@),
            forall|k: int| 0 <= k < i - start ==> is_digit(#[trigger] body[k]),
            acc as nat == digits_value(body.subrange(0, i - start)),
            acc <= max,
        decreases n - i,
    {
        let c = s.get_char(i);
        assert(c == body[i - start]);
        if !('0' <= c && c <= '9') {
            assert(!is_digit(body[i - start]));
            assert(!all_digits(body));

            return None;
        }
        let d = (c as u32 - '0' as u32) as u64;
        assert(d as nat == (c as nat - '0' as nat) as nat);
        let ghost pre = body.subrange(0, i - start + 1);
        assert(pre.last() == c);
        assert(pre.drop_last() =~= body.subrange(0, i - start));
        assert(digits_value(pre) == digits_value(pre.drop_last()) * 10 + (pre.last() as nat - '0' as nat) as nat);
        assert(digits_value(pre) == acc as nat * 10 + d as nat);
        assert(body.subrange(0, i - start + 1).drop_last() =~= body.subrange(0, i - start));
        let next: u128 = acc as u128 * 10 + d as u128;
        if next > max as u128 {
            proof {
                if all_digits(body) {
                    lemma_digits_value_grows(body, i - start + 1);
                    assert(digits_value(body) > max);
                }
            }
            return None;
        }
        acc = next as u64;
        i = i + 1;
    }
    assert(body.subrange(0, n - start) =~= body);
    Some(acc)
}

/// A port number as text.
pub fn parse_port(s: &str) -> (r: Option<u16>)
    ensures
        match unsigned_of(s@, 65535) {
            Some(v) => r is Some && r->Some_0 as nat == v,
            None => r is None,
        },
{
    match parse_unsigned(s, 65535) {
        Some(v) => Some(v as u16),
        None => None,
    }
}

/// A number of seconds as text.
pub fn parse_seconds(s: &str) -> (r: Option<u64>)
    ensures
        match unsigned_of(s@, u64::MAX as nat) {
            Some(v) => r is Some && r->Some_0 as nat == v,
            None => r is None,
        },
{
    parse_unsigned(s, u64::MAX)
}

} // verus!
