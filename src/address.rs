use crate::error::FetchError;
use vstd::prelude::*;
use vstd::string::StringSliceAdditionalSpecFns;

verus! {

pub const SLASH: u8 = 47;

pub const COLON: u8 = 58;

pub const CR: u8 = 13;

pub const LF: u8 = 10;

/// The port used when an address names none.
pub const DEFAULT_PORT: u16 = 80;

/// Where a request goes: host and port to connect to, path for the request line.
pub struct Target {
    pub host: Vec<u8>,
    pub port: u16,
    pub path: Vec<u8>,
}

/// ASCII whitespace: space, tab, line feed, vertical tab, form feed, carriage return.
pub open spec fn is_space(b: u8) -> bool {
    b == 32 || (9 <= b && b <= 13)
}

pub open spec fn trim_front(s: Seq<u8>) -> Seq<u8>
    decreases s.len(),
{
    if s.len() > 0 && is_space(s[0]) {
        trim_front(s.drop_first())
    } else {
        s
    }
}

pub open spec fn trim_back(s: Seq<u8>) -> Seq<u8>
    decreases s.len(),
{
    if s.len() > 0 && is_space(s.last()) {
        trim_back(s.drop_last())
    } else {
        s
    }
}

/// The address with leading and trailing whitespace removed.
pub open spec fn trimmed(s: Seq<u8>) -> Seq<u8> {
    trim_back(trim_front(s))
}

/// ASCII lower case of one byte.
pub open spec fn lower(b: u8) -> u8 {
    if 65 <= b && b <= 90 {
        (b + 32) as u8
    } else {
        b
    }
}

/// `http://`
pub open spec fn http_scheme() -> Seq<u8> {
    seq![104u8, 116, 116, 112, 58, 47, 47]
}

/// `https://`
pub open spec fn https_scheme() -> Seq<u8> {
    seq![104u8, 116, 116, 112, 115, 58, 47, 47]
}

/// `s` starts with the lower-case prefix `p`, ignoring ASCII case in `s`.
pub open spec fn starts_with_ci(s: Seq<u8>, p: Seq<u8>) -> bool {
    p.len() <= s.len() && forall|i: int| 0 <= i < p.len() ==> lower(#[trigger] s[i]) == p[i]
}

/// Length of the scheme prefix of `s`, 0 when there is none.
pub open spec fn scheme_len(s: Seq<u8>) -> int {
    if starts_with_ci(s, http_scheme()) {
        7
    } else if starts_with_ci(s, https_scheme()) {
        8
    } else {
        0
    }
}

/// The trimmed address without its scheme prefix.
pub open spec fn after_scheme(s: Seq<u8>) -> Seq<u8> {
    let t = trimmed(s);
    t.skip(scheme_len(t))
}

/// Index of the first `c` in `s`, or `s.len()` when there is none.
pub open spec fn first_index(s: Seq<u8>, c: u8) -> int
    decreases s.len(),
{
    if s.len() == 0 {
        0
    } else if s[0] == c {
        0
    } else {
        1 + first_index(s.drop_first(), c)
    }
}

/// Index of the last `c` in `s`, or -1 when there is none.
pub open spec fn last_index(s: Seq<u8>, c: u8) -> int
    decreases s.len(),
{
    if s.len() == 0 {
        -1
    } else if s.last() == c {
        s.len() - 1
    } else {
        last_index(s.drop_last(), c)
    }
}

pub open spec fn is_digit(b: u8) -> bool {
    48 <= b && b <= 57
}

pub open spec fn all_digits(s: Seq<u8>) -> bool {
    forall|i: int| 0 <= i < s.len() ==> is_digit(#[trigger] s[i])
}

/// The number written by the decimal digits `s`.
pub open spec fn digits_value(s: Seq<u8>) -> nat
    decreases s.len(),
{
    if s.len() == 0 {
        0
    } else {
        digits_value(s.drop_last()) * 10 + (s.last() - 48) as nat
    }
}

/// The port written by `seg`: one or more decimal digits with a value that fits in 16 bits.
pub open spec fn port_of(seg: Seq<u8>) -> Option<u16> {
    if seg.len() > 0 && all_digits(seg) && digits_value(seg) <= 65535 {
        Some(digits_value(seg) as u16)
    } else {
        None
    }
}

/// Neither a carriage return nor a line feed occurs in `s`.
pub open spec fn no_line_break(s: Seq<u8>) -> bool {
    forall|i: int| 0 <= i < s.len() ==> #[trigger] s[i] != CR && s[i] != LF
}

/// `host[:port]`: the part of `r` before the first slash.
pub open spec fn authority(r: Seq<u8>) -> Seq<u8> {
    r.take(first_index(r, SLASH))
}

/// The request path: from the first slash of `r` on, or `/` when `r` has none.
pub open spec fn path_of(r: Seq<u8>) -> Seq<u8> {
    if first_index(r, SLASH) < r.len() {
        r.skip(first_index(r, SLASH))
    } else {
        seq![SLASH]
    }
}

/// The host: the authority before its last colon, or all of it.
pub open spec fn host_of(a: Seq<u8>) -> Seq<u8> {
    if last_index(a, COLON) < 0 {
        a
    } else {
        a.take(last_index(a, COLON))
    }
}

/// The port: the authority after its last colon, or the default port when it has none.
pub open spec fn port_of_authority(a: Seq<u8>) -> Option<u16> {
    if last_index(a, COLON) < 0 {
        Some(DEFAULT_PORT)
    } else {
        port_of(a.skip(last_index(a, COLON) + 1))
    }
}

/// Host, port and path of an address, or `None` when it cannot be used.
pub open spec fn resolve(s: Seq<u8>) -> Option<(Seq<u8>, u16, Seq<u8>)> {
    let r = after_scheme(s);
    let a = authority(r);
    let h = host_of(a);
    let p = path_of(r);
    match port_of_authority(a) {
        Some(port) => if h.len() > 0 && no_line_break(h) && no_line_break(p) {
            Some((h, port, p))
        } else {
            None
        },
        None => None,
    }
}

pub(crate) proof fn lemma_trim_front(s: Seq<u8>, i: int)
    requires
        0 <= i <= s.len(),
        forall|k: int| 0 <= k < i ==> is_space(#[trigger] s[k]),
        i == s.len() || !is_space(s[i]),
    ensures
        trim_front(s) == s.skip(i),
    decreases i,
{
    if i == 0 {
        assert(s.skip(0) =~= s);
    } else {
        assert(is_space(s[0]));
        let t = s.drop_first();
        assert forall|k: int| 0 <= k < i - 1 implies is_space(#[trigger] t[k]) by {
            assert(t[k] == s[k + 1]);
        }
        lemma_trim_front(t, i - 1);
        assert(t.skip(i - 1) =~= s.skip(i));
    }
}

pub(crate) proof fn lemma_trim_back(s: Seq<u8>, j: int)
    requires
        0 <= j <= s.len(),
        forall|k: int| j <= k < s.len() ==> is_space(#[trigger] s[k]),
        j == 0 || !is_space(s[j - 1]),
    ensures
        trim_back(s) == s.take(j),
    decreases s.len() - j,
{
    if j == s.len() {
        assert(s.take(j) =~= s);
    } else {
        assert(is_space(s.last()));
        let t = s.drop_last();
        lemma_trim_back(t, j);
        assert(t.take(j) =~= s.take(j));
    }
}

pub(crate) proof fn lemma_first_index(s: Seq<u8>, c: u8, k: int)
    requires
        0 <= k <= s.len(),
        forall|j: int| 0 <= j < k ==> #[trigger] s[j] != c,
        k == s.len() || s[k] == c,
    ensures
        first_index(s, c) == k,
    decreases s.len(),
{
    if s.len() > 0 && k > 0 {
        let t = s.drop_first();
        assert forall|j: int| 0 <= j < k - 1 implies #[trigger] t[j] != c by {
            assert(t[j] == s[j + 1]);
        }
        lemma_first_index(t, c, k - 1);
    }
}

pub(crate) proof fn lemma_last_index(s: Seq<u8>, c: u8, k: int)
    requires
        -1 <= k < s.len(),
        k >= 0 ==> s[k] == c,
        forall|j: int| k < j < s.len() ==> #[trigger] s[j] != c,
    ensures
        last_index(s, c) == k,
    decreases s.len(),
{
    if s.len() > 0 && s.last() != c {
        lemma_last_index(s.drop_last(), c, k);
    }
}

proof fn lemma_digits_monotone(s: Seq<u8>, n: int)
    requires
        0 <= n <= s.len(),
        all_digits(s),
    ensures
        digits_value(s.take(n)) <= digits_value(s),
    decreases s.len(),
{
    if n < s.len() {
        let t = s.drop_last();
        assert(all_digits(t)) by {
            assert forall|i: int| 0 <= i < t.len() implies is_digit(#[trigger] t[i]) by {
                assert(t[i] == s[i]);
            }
        }
        lemma_digits_monotone(t, n);
        assert(t.take(n) =~= s.take(n));
        let v = digits_value(t);
        assert(v <= v * 10 + (s.last() - 48) as nat) by (nonlinear_arith);
    } else {
        assert(s.take(n) =~= s);
    }
}

/// The bytes of `b` from `lo` up to `hi`.
fn copy_range(b: &[u8], lo: usize, hi: usize) -> (r: Vec<u8>)
    requires
        lo <= hi <= b@.len(),
    ensures
        r@ == b@.subrange(lo as int, hi as int),
{
    let mut r: Vec<u8> = Vec::new();
    let mut i: usize = lo;
    while i < hi
        invariant
            lo <= i <= hi <= b@.len(),
            r@ == b@.subrange(lo as int, i as int),
        decreases hi - i,
    {
        r.push(b[i]);
        i = i + 1;
        assert(r@ =~= b@.subrange(lo as int, i as int));
    }
    r
}

/// Index of the first `c` in `b[lo..hi]`, or `hi`.
fn find_first(b: &[u8], lo: usize, hi: usize, c: u8) -> (k: usize)
    requires
        lo <= hi <= b@.len(),
    ensures
        lo <= k <= hi,
        k - lo == first_index(b@.subrange(lo as int, hi as int), c),
{
    let mut k: usize = lo;
    while k < hi && b[k] != c
        invariant
            lo <= k <= hi <= b@.len(),
            forall|j: int| lo <= j < k ==> #[trigger] b@[j] != c,
        decreases hi - k,
    {
        k = k + 1;
    }
    proof {
        let s = b@.subrange(lo as int, hi as int);
        assert forall|j: int| 0 <= j < k - lo implies #[trigger] s[j] != c by {
            assert(s[j] == b@[lo + j]);
        }
        lemma_first_index(s, c, k - lo);
    }
    k
}

/// Index of the last `c` in `b[lo..hi]`, relative to `lo`, or -1.
fn find_last(b: &[u8], lo: usize, hi: usize, c: u8) -> (k: Option<usize>)
    requires
        lo <= hi <= b@.len(),
    ensures
        match k {
            Some(k) => lo <= k < hi && k - lo == last_index(b@.subrange(lo as int, hi as int), c),
            None => last_index(b@.subrange(lo as int, hi as int), c) == -1,
        },
{
    let mut k: usize = hi;
    while k > lo && b[k - 1] != c
        invariant
            lo <= k <= hi <= b@.len(),
            forall|j: int| k <= j < hi ==> #[trigger] b@[j] != c,
        decreases k - lo,
    {
        k = k - 1;
    }
    let ghost s = b@.subrange(lo as int, hi as int);
    if k == lo {
        proof {
            assert forall|j: int| -1 < j < s.len() implies #[trigger] s[j] != c by {
                assert(s[j] == b@[lo + j]);
            }
            lemma_last_index(s, c, -1);
        }
        None
    } else {
        proof {
            assert forall|j: int| k - 1 - lo < j < s.len() implies #[trigger] s[j] != c by {
                assert(s[j] == b@[lo + j]);
            }
            lemma_last_index(s, c, k - 1 - lo);
        }
        Some(k - 1)
    }
}

/// The port written by `b[lo..hi]`.
fn parse_port(b: &[u8], lo: usize, hi: usize) -> (r: Option<u16>)
    requires
        lo <= hi <= b@.len(),
    ensures
        r == port_of(b@.subrange(lo as int, hi as int)),
{
    let ghost s = b@.subrange(lo as int, hi as int);
    if lo == hi {
        return None;
    }
    let mut acc: u32 = 0;
    let mut i: usize = lo;
    while i < hi
        invariant
            lo <= i <= hi <= b@.len(),
            s == b@.subrange(lo as int, hi as int),
            acc <= 65535,
            acc as nat == digits_value(s.take(i - lo)),
            all_digits(s.take(i - lo)),
        decreases hi - i,
    {
        let d = b[i];
        if d < 48 || d > 57 {
            assert(!is_digit(s[i - lo]));
            return None;
        }
        proof {
            let t = s.take(i - lo + 1);
            assert(t.drop_last() =~= s.take(i - lo));
            assert(t.last() == d);
            assert(all_digits(t)) by {
                assert forall|j: int| 0 <= j < t.len() implies is_digit(#[trigger] t[j]) by {
                    if j < t.len() - 1 {
                        assert(t[j] == s.take(i - lo)[j]);
                    }
                }
            }
        }
        acc = acc * 10 + (d - 48) as u32;
        i = i + 1;
        if acc > 65535 {
            proof {
                if all_digits(s) {
                    lemma_digits_monotone(s, i - lo);
                }
            }
            return None;
        }
    }
    assert(s.take(i - lo) =~= s);
    Some(acc as u16)
}

/// Neither a carriage return nor a line feed occurs in `v`.
pub(crate) fn check_no_line_break(v: &[u8]) -> (r: bool)
    ensures
        r == no_line_break(v@),
{
    let mut i: usize = 0;
    while i < v.len()
        invariant
            i <= v@.len(),
            forall|j: int| 0 <= j < i ==> #[trigger] v@[j] != CR && v@[j] != LF,
        decreases v@.len() - i,
    {
        if v[i] == CR || v[i] == LF {
            return false;
        }
        i = i + 1;
    }
    true
}

fn lower_byte(x: u8) -> (r: u8)
    ensures
        r == lower(x),
{
    if 65 <= x && x <= 90 {
        x + 32
    } else {
        x
    }
}

fn is_space_byte(x: u8) -> (r: bool)
    ensures
        r == is_space(x),
{
    x == 32 || (9 <= x && x <= 13)
}

/// Whether `b[lo..hi]` starts with `p`, ignoring ASCII case in `b`.
pub(crate) fn starts_with_ci_at(b: &[u8], lo: usize, hi: usize, p: &Vec<u8>) -> (r: bool)
    requires
        lo <= hi <= b@.len(),
    ensures
        r == starts_with_ci(b@.subrange(lo as int, hi as int), p@),
{
    let ghost s = b@.subrange(lo as int, hi as int);
    if p.len() > hi - lo {
        return false;
    }
    let mut i: usize = 0;
    while i < p.len()
        invariant
            p@.len() <= hi - lo,
            lo <= hi <= b@.len(),
            s == b@.subrange(lo as int, hi as int),
            i <= p@.len(),
            forall|j: int| 0 <= j < i ==> lower(#[trigger] s[j]) == p@[j],
        decreases p@.len() - i,
    {
        assert(s[i as int] == b@[lo + i]);
        if lower_byte(b[lo + i]) != p[i] {
            return false;
        }
        i = i + 1;
    }
    true
}

/// Length of the scheme prefix of `b[lo..hi]`.
fn scheme_length(b: &[u8], lo: usize, hi: usize) -> (k: usize)
    requires
        lo <= hi <= b@.len(),
    ensures
        k == scheme_len(b@.subrange(lo as int, hi as int)),
        lo + k <= hi,
{
    let http: Vec<u8> = vec![104u8, 116, 116, 112, 58, 47, 47];
    let https: Vec<u8> = vec![104u8, 116, 116, 112, 115, 58, 47, 47];
    assert(http@ =~= http_scheme());
    assert(https@ =~= https_scheme());
    if starts_with_ci_at(b, lo, hi, &http) {
        7
    } else if starts_with_ci_at(b, lo, hi, &https) {
        8
    } else {
        0
    }
}

/// Resolves an address into the host and port to connect to and the path to request.
///
/// ASCII whitespace around the address is ignored, and so is an `http://` or `https://`
/// prefix in any case. The path starts at the first slash and is `/` when there is
/// none; the port follows the last colon before it and is 80 when there is no colon.
/// An empty host, a port that is not 0 to 65535 in decimal digits, or a line break in
/// host or path makes the address invalid.
pub fn parse_address(address: &str) -> (r: Result<Target, FetchError>)
    ensures
        match r {
            Ok(t) => resolve(address.spec_bytes()) == Some((t.host@, t.port, t.path@)),
            Err(e) => resolve(address.spec_bytes()) is None && e == FetchError::InvalidAddress,
        },
{
    let b = address.as_bytes();
    let ghost a = b@;
    let mut lo: usize = 0;
    while lo < b.len() && is_space_byte(b[lo])
        invariant
            lo <= b@.len(),
            forall|k: int| 0 <= k < lo ==> is_space(#[trigger] b@[k]),
        decreases b@.len() - lo,
    {
        lo = lo + 1;
    }
    let mut hi: usize = b.len();
    while hi > lo && is_space_byte(b[hi - 1])
        invariant
            lo <= hi <= b@.len(),
            forall|k: int| hi <= k < b@.len() ==> is_space(#[trigger] b@[k]),
        decreases hi - lo,
    {
        hi = hi - 1;
    }
    proof {
        lemma_trim_front(a, lo as int);
        let f = a.skip(lo as int);
        assert forall|k: int| hi - lo <= k < f.len() implies is_space(#[trigger] f[k]) by {
            assert(f[k] == a[lo + k]);
        }
        if hi > lo {
            assert(f[hi - lo - 1] == a[hi - 1]);
        }
        lemma_trim_back(f, hi - lo);
        assert(f.take(hi - lo) =~= a.subrange(lo as int, hi as int));
    }
    let start = lo + scheme_length(b, lo, hi);
    let ghost rest = a.subrange(start as int, hi as int);
    assert(after_scheme(a) =~= rest);
    let m = find_first(b, start, hi, SLASH);
    assert(authority(rest) =~= a.subrange(start as int, m as int));
    let path = if m < hi {
        copy_range(b, m, hi)
    } else {
        let p: Vec<u8> = vec![SLASH];
        assert(p@ =~= seq![SLASH]);
        p
    };
    assert(path@ =~= path_of(rest));
    let ghost auth = a.subrange(start as int, m as int);
    let (host_end, port) = match find_last(b, start, m, COLON) {
        None => (m, Some(DEFAULT_PORT)),
        Some(c) => {
            assert(auth.skip(c - start + 1) =~= a.subrange(c + 1, m as int));
            (c, parse_port(b, c + 1, m))
        },
    };
    assert(port == port_of_authority(auth));
    match port {
        None => Err(FetchError::InvalidAddress),
        Some(port) => {
            let host = copy_range(b, start, host_end);
            assert(host@ =~= host_of(auth));
            if host.len() == 0 || !check_no_line_break(host.as_slice()) || !check_no_line_break(
                path.as_slice(),
            ) {
                Err(FetchError::InvalidAddress)
            } else {
                Ok(Target { host, port, path })
            }
        },
    }
}

} // verus!
