use crate::paging::PageError;
use vstd::prelude::*;
use vstd::string::StrSliceExecFns;
use vstd::utf8::is_ascii_chars;

verus! {

/// The offset of a page where the request gives none.
pub const DEFAULT_OFFSET: i32 = 0;

/// The limit of a page where the request gives none.
pub const DEFAULT_LIMIT: i32 = 5;

/// The value that the query string `query` gives to the parameter `key`, as
/// `qstring` decodes it.
pub uninterp spec fn query_param(query: Seq<char>, key: Seq<char>) -> Option<Seq<char>>;

/// Relies on `qstring::QString::from` and `QString::get`: the value of the
/// first pair named `key`, which depends on the two strings alone. Parsing
/// slices the query at its first character, which panics on a character
/// of more than one byte, so the query is ASCII.
#[verifier::external_body]
fn query_value(query: &str, key: &str) -> (r: Option<String>)
    requires
        is_ascii_chars(query@),
    ensures
        match r {
            Some(v) => query_param(query@, key@) == Some(v@),
            None => query_param(query@, key@) == None::<Seq<char>>,
        },
{
    qstring::QString::from(query).get(key).map(|v| v.to_string())
}

/// `c` is an ASCII decimal digit.
pub open spec fn is_digit(c: char) -> bool {
    '0' <= c <= '9'
}

/// The number that the decimal digits `s` write.
pub open spec fn digits_value(s: Seq<char>) -> int
    decreases s.len(),
{
    if s.len() == 0 {
        0
    } else {
        digits_value(s.drop_last()) * 10 + (s.last() as int - '0' as int)
    }
}

/// `s` is one or more decimal digits.
pub open spec fn is_digits(s: Seq<char>) -> bool {
    s.len() > 0 && forall|i: int| 0 <= i < s.len() ==> is_digit(#[trigger] s[i])
}

/// The integer that `s` writes in decimal, with an optional leading `+` or
/// `-`, if it writes one.
pub open spec fn decimal_value(s: Seq<char>) -> Option<int> {
    if s.len() > 0 && (s[0] == '-' || s[0] == '+') {
        if is_digits(s.drop_first()) {
            if s[0] == '-' {
                Some(-digits_value(s.drop_first()))
            } else {
                Some(digits_value(s.drop_first()))
            }
        } else {
            None
        }
    } else if is_digits(s) {
        Some(digits_value(s))
    } else {
        None
    }
}

/// The `i32` that `s` writes in decimal, if it writes one in range.
pub open spec fn i32_of(s: Seq<char>) -> Option<i32> {
    match decimal_value(s) {
        Some(v) => if i32::MIN <= v <= i32::MAX {
            Some(v as i32)
        } else {
            None
        },
        None => None,
    }
}

proof fn lemma_digits_value_grows(s: Seq<char>, k: int)
    requires
        0 <= k <= s.len(),
        forall|i: int| 0 <= i < s.len() ==> is_digit(#[trigger] s[i]),
    ensures
        0 <= digits_value(s.subrange(0, k)) <= digits_value(s),
    decreases s.len() - k,
{
    if k < s.len() {
        lemma_digits_value_grows(s, k + 1);
        let t = s.subrange(0, k + 1);
        assert(t.drop_last() =~= s.subrange(0, k));
        assert(is_digit(t.last()));
    } else {
        assert(s.subrange(0, k) =~= s);
        lemma_digits_value_nonneg(s);
    }
}

proof fn lemma_digits_value_nonneg(s: Seq<char>)
    requires
        forall|i: int| 0 <= i < s.len() ==> is_digit(#[trigger] s[i]),
    ensures
        digits_value(s) >= 0,
    decreases s.len(),
{
    if s.len() > 0 {
        lemma_digits_value_nonneg(s.drop_last());
        assert(is_digit(s[s.len() - 1]));
    }
}

/// Reads an `i32` written in decimal, with an optional leading sign.
pub fn parse_i32(s: &str) -> (r: Option<i32>)
    ensures
        r == i32_of(s@),
{
    let n: usize = s.unicode_len();
    if n == 0 {
        return None;
    }
    let first = s.get_char(0);
    let negative = first == '-';
    let start: usize = if first == '-' || first == '+' { 1 } else { 0 };
    if start == n {
        return None;
    }
    let ghost d = s@.subrange(start as int, n as int);
    proof {
        if start == 1 {
            assert(d =~= s@.drop_first());
        } else {
            assert(d =~= s@);
        }
    }
    // The magnitude read so far; it is kept at most 2^31, the largest that
    // an i32 can take, and reading stops once it goes past.
    let mut acc: i64 = 0;
    let mut k: usize = start;
    while k < n
        invariant
            start <= k <= n,
            n == s@.len(),
            n > 0,
            d == s@.subrange(start as int, n as int),
            start == 1 <==> (s@[0] == '-' || s@[0] == '+'),
            start == 0 || start == 1,
            start == 1 ==> d == s@.drop_first(),
            start == 0 ==> d == s@,
            negative == (s@[0] == '-'),
            forall|i: int| 0 <= i < k - start ==> is_digit(#[trigger] d[i]),
            acc == digits_value(d.subrange(0, k - start)),
            0 <= acc <= 0x8000_0000,
        decreases n - k,
    {
        let c = s.get_char(k);
        if !('0' <= c && c <= '9') {
            assert(!is_digit(d[k - start]));
            return None;
        }
        proof {
            let t = d.subrange(0, k + 1 - start);
            assert(t.drop_last() =~= d.subrange(0, k - start));
            assert(t.last() == c);
        }
        acc = acc * 10 + (c as i64 - '0' as i64);
        if acc > 0x8000_0000 {
            // Not every digit need be read: find out whether the rest are
            // digits, which decides between "out of range" and "malformed".
            let mut j: usize = k + 1;
            while j < n
                invariant
                    start <= k < j <= n,
                    n == s@.len(),
                    n > 0,
                    d == s@.subrange(start as int, n as int),
                    start == 1 <==> (s@[0] == '-' || s@[0] == '+'),
                    start == 0 || start == 1,
                    start == 1 ==> d == s@.drop_first(),
                    start == 0 ==> d == s@,
                    negative == (s@[0] == '-'),
                    forall|i: int| 0 <= i < j - start ==> is_digit(#[trigger] d[i]),
                    acc == digits_value(d.subrange(0, k + 1 - start)),
                    acc > 0x8000_0000,
                decreases n - j,
            {
                let c2 = s.get_char(j);
                if !('0' <= c2 && c2 <= '9') {
                    assert(!is_digit(d[j - start]));
                    return None;
                }
                j = j + 1;
            }
            proof {
                lemma_digits_value_grows(d, (k + 1 - start) as int);
            }
            return None;
        }
        k = k + 1;
    }
    proof {
        assert(d.subrange(0, k - start) =~= d);
    }
    if negative {
        Some((-acc) as i32)
    } else if acc > 0x7fff_ffff {
        None
    } else {
        Some(acc as i32)
    }
}

/// The text of an optional raw value.
pub open spec fn text_of(raw: Option<String>) -> Option<Seq<char>> {
    match raw {
        Some(t) => Some(t@),
        None => None,
    }
}

/// The value of a page bound given as `raw`, `default` where none is given.
pub open spec fn bound_of(raw: Option<Seq<char>>, default: i32) -> Option<i32> {
    match raw {
        Some(t) => i32_of(t),
        None => Some(default),
    }
}

/// The offset and the limit of a page that the raw values `offset` and
/// `limit` ask for, with their defaults where a value is not given.
pub open spec fn bounds_of(offset: Option<Seq<char>>, limit: Option<Seq<char>>) -> Result<
    (i32, i32),
    PageError,
> {
    match (bound_of(offset, DEFAULT_OFFSET), bound_of(limit, DEFAULT_LIMIT)) {
        (Some(o), Some(l)) => Ok((o, l)),
        _ => Err(PageError::Malformed),
    }
}

fn bound(raw: &Option<String>, default: i32) -> (r: Option<i32>)
    ensures
        r == bound_of(text_of(*raw), default),
{
    match raw {
        Some(t) => parse_i32(t.as_str()),
        None => Some(default),
    }
}

/// The offset and the limit of a page, from the raw values of the request's
/// `offset` and `limit` parameters: 0 and 5 where they are not given, and
/// `Malformed` where one is not an `i32` in decimal.
pub fn page_bounds(offset: &Option<String>, limit: &Option<String>) -> (r: Result<
    (i32, i32),
    PageError,
>)
    ensures
        r == bounds_of(text_of(*offset), text_of(*limit)),
{
    let o = bound(offset, DEFAULT_OFFSET);
    let l = bound(limit, DEFAULT_LIMIT);
    match (o, l) {
        (Some(o), Some(l)) => Ok((o, l)),
        _ => Err(PageError::Malformed),
    }
}

/// The offset and the limit of a page that the query string `query` asks
/// for; a query that is not ASCII, which no URL holds, is `Malformed`.
pub fn query_bounds(query: &str) -> (r: Result<(i32, i32), PageError>)
    ensures
        r == if is_ascii_chars(query@) {
            bounds_of(query_param(query@, "offset"@), query_param(query@, "limit"@))
        } else {
            Err(PageError::Malformed)
        },
{
    if !query.is_ascii() {
        return Err(PageError::Malformed);
    }
    let offset = query_value(query, "offset");
    let limit = query_value(query, "limit");
    page_bounds(&offset, &limit)
}

} // verus!
