//! Settings of the service, read from plain values.

use vstd::prelude::*;
use vstd::string::*;

verus! {

/// The port used when none, or an unreadable one, is given.
pub const DEFAULT_PORT: u16 = 3000;

/// An ASCII decimal digit.
pub open spec fn is_digit(c: char) -> bool {
    '0' <= c && c <= '9'
}

/// `s` without one leading `+`.
pub open spec fn unsigned_digits(s: Seq<char>) -> Seq<char> {
    if s.len() > 0 && s[0] == '+' {
        s.drop_first()
    } else {
        s
    }
}

/// Every character of `d` is a decimal digit.
pub open spec fn all_digits(d: Seq<char>) -> bool {
    forall|i: int| 0 <= i < d.len() ==> is_digit(#[trigger] d[i])
}

/// The value of a run of decimal digits.
pub open spec fn digits_value(d: Seq<char>) -> int
    decreases d.len(),
{
    if d.len() == 0 {
        0
    } else {
        digits_value(d.drop_last()) * 10 + (d.last() as int - '0' as int)
    }
}

/// The port that text `s` names, read as `u16`'s `from_str` reads it: an
/// optional `+`, then one or more decimal digits, with a value that fits.
pub open spec fn port_value(s: Seq<char>) -> Option<u16> {
    let d = unsigned_digits(s);
    if d.len() > 0 && all_digits(d) && digits_value(d) <= 65535 {
        Some(digits_value(d) as u16)
    } else {
        None
    }
}

/// Among digits, a prefix never has a larger value than the whole.
pub proof fn lemma_digits_value_grows(d: Seq<char>, k: int)
    requires
        0 <= k <= d.len(),
        forall|i: int| 0 <= i < d.len() ==> is_digit(#[trigger] d[i]),
    ensures
        0 <= digits_value(d.take(k)) <= digits_value(d),
    decreases d.len(),
{
    if d.len() > 0 {
        if k == d.len() {
            assert(d.take(k) =~= d);
            lemma_digits_value_grows(d.drop_last(), k - 1);
            assert(d.drop_last().take(k - 1) =~= d.drop_last());
        } else {
            lemma_digits_value_grows(d.drop_last(), k);
            assert(d.drop_last().take(k) =~= d.take(k));
        }
        assert(is_digit(d[d.len() - 1]));
    } else {
        assert(d.take(k) =~= d);
    }
}

/// Reads a port number; `None` for anything `port_value` rejects.
pub fn parse_port(s: &str) -> (r: Option<u16>)
    ensures
        r == port_value(s@),
{
    let n = s.unicode_len();
    let start: usize = if n > 0 && s.get_char(0) == '+' {
        1
    } else {
        0
    };
    let ghost d = unsigned_digits(s@);
    assert(d =~= s@.subrange(start as int, n as int));
    if start >= n {
        return None;
    }
    let mut v: u32 = 0;
    let mut i: usize = start;
    while i < n
        invariant
            start <= i <= n,
            start <= 1,
            n == s@.len(),
            d.len() == n - start,
            d == s@.subrange(start as int, n as int),
            d == unsigned_digits(s@),
            forall|j: int| 0 <= j < i - start ==> is_digit(#[trigger] d[j]),
            v as int == digits_value(d.take(i - start)),
            v <= 65535,
        decreases n - i,
    {
        let c = s.get_char(i);
        if c < '0' || c > '9' {
            proof {
                assert(!is_digit(d[i - start]));
                assert(!all_digits(d));
            }
            return None;
        }
        proof {
            assert(d.take(i - start + 1).drop_last() =~= d.take(i - start));
            assert(d[i - start] == c);
            assert(d.take(i - start + 1).last() == c);
        }
        let digit: u32 = (c as u32) - ('0' as u32);
        let next: u32 = v * 10 + digit;
        assert(next as int == digits_value(d.take(i - start + 1)));
        if next > 65535 {
            proof {
                if all_digits(d) {
                    lemma_digits_value_grows(d, i - start + 1);
                    assert(digits_value(d) > 65535);
                }
            }
            return None;
        }
        v = next;
        i = i + 1;
    }
    assert(d.take(n - start) =~= d);
    Some(v as u16)
}

/// Where the service keeps its data, the port it listens on, and the
/// origin its browser clients come from.
pub struct Config {
    pub database_url: String,
    pub api_port: u16,
    pub cors_origin: String,
}

impl Config {
    /// Settings from optional values: an absent value takes its default,
    /// and an unreadable port is `DEFAULT_PORT`.
    pub fn from_values(database_url: Option<String>, api_port: Option<String>, cors_origin: Option<String>) -> (r:
        Config)
        ensures
            r.database_url@ == match database_url {
                Some(u) => u@,
                None => "sqlite:./data.db"@,
            },
            r.api_port == match api_port {
                Some(t) => match port_value(t@) {
                    Some(p) => p,
                    None => DEFAULT_PORT,
                },
                None => DEFAULT_PORT,
            },
            r.cors_origin@ == match cors_origin {
                Some(o) => o@,
                None => "http://localhost:5173"@,
            },
    {
        let database_url = match database_url {
            Some(u) => u,
            None => "sqlite:./data.db".to_owned(),
        };
        let api_port = match api_port {
            Some(t) => match parse_port(t.as_str()) {
                Some(p) => p,
                None => DEFAULT_PORT,
            },
            None => DEFAULT_PORT,
        };
        let cors_origin = match cors_origin {
            Some(o) => o,
            None => "http://localhost:5173".to_owned(),
        };
        Config { database_url, api_port, cors_origin }
    }
}

} // verus!
