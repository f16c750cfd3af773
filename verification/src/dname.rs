//! Domain-name normalization and suffix matching.
//!
//! Names are modelled by their byte sequences. Normalization lowercases the
//! ASCII letters and strips trailing dots; the cache key and the domain
//! filter both build on it.
use vstd::prelude::*;

verus! {

/// ASCII code of '.'
pub const DOT: u8 = 0x2e;

/// Lowercase a single byte: ASCII letters 'A'..'Z' map to 'a'..'z',
/// everything else is unchanged.
pub open spec fn lower_byte(b: u8) -> u8 {
    if 0x41 <= b && b <= 0x5a {
        (b + 0x20) as u8
    } else {
        b
    }
}

/// Lowercase a whole byte sequence.
pub open spec fn lower_bytes(s: Seq<u8>) -> Seq<u8> {
    s.map_values(|b: u8| lower_byte(b))
}

/// Drop every trailing '.' byte.
pub open spec fn strip_trailing_dots(s: Seq<u8>) -> Seq<u8>
    decreases s.len(),
{
    if s.len() > 0 && s.last() == DOT {
        strip_trailing_dots(s.drop_last())
    } else {
        s
    }
}

/// Normalization used for cache keys: lowercase, then strip trailing dots.
pub open spec fn normalize_bytes(s: Seq<u8>) -> Seq<u8> {
    strip_trailing_dots(lower_bytes(s))
}

/// ASCII whitespace, as trimmed from configured domain-list entries.
pub open spec fn is_ascii_ws(b: u8) -> bool {
    b == 0x20 || (0x09 <= b && b <= 0x0d)
}

/// Drop trailing ASCII whitespace.
pub open spec fn trim_end_ws(s: Seq<u8>) -> Seq<u8>
    decreases s.len(),
{
    if s.len() > 0 && is_ascii_ws(s.last()) {
        trim_end_ws(s.drop_last())
    } else {
        s
    }
}

/// Drop leading ASCII whitespace.
pub open spec fn trim_start_ws(s: Seq<u8>) -> Seq<u8>
    decreases s.len(),
{
    if s.len() > 0 && is_ascii_ws(s.first()) {
        trim_start_ws(s.drop_first())
    } else {
        s
    }
}

/// Normalization used for configured domain lists: trim ASCII whitespace,
/// lowercase, strip trailing dots; an entry left empty becomes ".".
pub open spec fn norm_domain_bytes(s: Seq<u8>) -> Seq<u8> {
    let x = normalize_bytes(trim_end_ws(trim_start_ws(s)));
    if x.len() == 0 {
        seq![DOT]
    } else {
        x
    }
}

/// `q` matches the suffix `s`: they are equal, or `q` ends with "." + `s`.
pub open spec fn is_suffix_bytes(q: Seq<u8>, s: Seq<u8>) -> bool {
    q == s || (q.len() > s.len() && q.subrange(q.len() - s.len() - 1, q.len() as int) == seq![
        DOT,
    ] + s)
}

/// The byte sequence of a `String` (its UTF-8 encoding); the model that the
/// library's contracts state name properties over.
pub open spec fn string_bytes(s: &String) -> Seq<u8> {
    vstd::utf8::encode_utf8(s@)
}

/// Bytes of a borrowed `str`.
pub open spec fn str_bytes(s: &str) -> Seq<u8> {
    vstd::utf8::encode_utf8(s@)
}

/// All bytes are below 0x80.
pub open spec fn all_ascii_bytes(s: Seq<u8>) -> bool {
    forall|i: int| 0 <= i < s.len() ==> s[i] < 0x80
}

/// Byte equality of two slices.
pub fn bytes_eq(a: &[u8], b: &[u8]) -> (r: bool)
    ensures
        r == (a@ == b@),
{
    if a.len() != b.len() {
        proof {
            assert(a@.len() != b@.len());
        }
        return false;
    }
    let n = a.len();
    let mut i: usize = 0;
    while i < n
        invariant
            n == a@.len() == b@.len(),
            0 <= i <= n,
            forall|j: int| 0 <= j < i ==> a@[j] == b@[j],
        decreases n - i,
    {
        if a[i] != b[i] {
            return false;
        }
        i = i + 1;
    }
    proof {
        assert(a@ =~= b@);
    }
    true
}

/// Exec form of `lower_byte`.
pub fn lower_byte_exec(b: u8) -> (r: u8)
    ensures
        r == lower_byte(b),
{
    if 0x41 <= b && b <= 0x5a {
        b + 0x20
    } else {
        b
    }
}

/// Lowercase a byte vector in place of building a new one.
pub fn lower_vec(s: &[u8]) -> (r: Vec<u8>)
    ensures
        r@ == lower_bytes(s@),
{
    let mut out: Vec<u8> = Vec::new();
    let n = s.len();
    let mut i: usize = 0;
    while i < n
        invariant
            n == s@.len(),
            0 <= i <= n,
            out@.len() == i,
            forall|j: int| 0 <= j < i ==> out@[j] == lower_byte(s@[j]),
        decreases n - i,
    {
        out.push(lower_byte_exec(s[i]));
        i = i + 1;
    }
    proof {
        assert(out@ =~= lower_bytes(s@));
    }
    out
}

/// `strip_trailing_dots(s)` is the prefix of `s` that ends before its
/// trailing run of dots.
pub proof fn lemma_strip_is_take(s: Seq<u8>, k: int)
    requires
        0 <= k <= s.len(),
        forall|j: int| k <= j < s.len() ==> s[j] == DOT,
        k > 0 ==> s[k - 1] != DOT,
    ensures
        strip_trailing_dots(s) == s.take(k),
    decreases s.len(),
{
    if s.len() > 0 && s.last() == DOT {
        assert(k < s.len());
        assert(s.drop_last() =~= s.take(s.len() - 1));
        lemma_strip_is_take(s.drop_last(), k);
        assert(s.drop_last().take(k) =~= s.take(k));
    } else {
        assert(k == s.len());
        assert(s.take(k) =~= s);
    }
}

/// Strip trailing dots from a byte slice.
pub fn strip_dots_vec(s: &[u8]) -> (r: Vec<u8>)
    ensures
        r@ == strip_trailing_dots(s@),
{
    let mut k = s.len();
    while k > 0 && s[k - 1] == DOT
        invariant
            0 <= k <= s@.len(),
            forall|j: int| k <= j < s@.len() ==> s@[j] == DOT,
        decreases k,
    {
        k = k - 1;
    }
    proof {
        lemma_strip_is_take(s@, k as int);
    }
    let mut out: Vec<u8> = Vec::new();
    let mut i: usize = 0;
    while i < k
        invariant
            0 <= i <= k <= s@.len(),
            out@.len() == i,
            forall|j: int| 0 <= j < i ==> out@[j] == s@[j],
        decreases k - i,
    {
        out.push(s[i]);
        i = i + 1;
    }
    proof {
        assert(out@ =~= s@.take(k as int));
    }
    out
}

/// Normalize the bytes of a name: lowercase, then strip trailing dots.
pub fn normalize_vec(s: &[u8]) -> (r: Vec<u8>)
    ensures
        r@ == normalize_bytes(s@),
{
    let low = lower_vec(s);
    strip_dots_vec(low.as_slice())
}

/// `trim_end_ws(s)` keeps the prefix of `s` before its trailing whitespace.
proof fn lemma_trim_end_is_take(s: Seq<u8>, k: int)
    requires
        0 <= k <= s.len(),
        forall|j: int| k <= j < s.len() ==> is_ascii_ws(s[j]),
        k > 0 ==> !is_ascii_ws(s[k - 1]),
    ensures
        trim_end_ws(s) == s.take(k),
    decreases s.len(),
{
    if s.len() > 0 && is_ascii_ws(s.last()) {
        assert(k < s.len());
        assert(s.drop_last() =~= s.take(s.len() - 1));
        lemma_trim_end_is_take(s.drop_last(), k);
        assert(s.drop_last().take(k) =~= s.take(k));
    } else {
        assert(k == s.len());
        assert(s.take(k) =~= s);
    }
}

/// `trim_start_ws(s)` keeps the suffix of `s` after its leading whitespace.
proof fn lemma_trim_start_is_skip(s: Seq<u8>, k: int)
    requires
        0 <= k <= s.len(),
        forall|j: int| 0 <= j < k ==> is_ascii_ws(s[j]),
        k < s.len() ==> !is_ascii_ws(s[k]),
    ensures
        trim_start_ws(s) == s.skip(k),
    decreases s.len(),
{
    if s.len() > 0 && is_ascii_ws(s.first()) {
        assert(k > 0);
        assert(s.drop_first() =~= s.skip(1));
        lemma_trim_start_is_skip(s.drop_first(), k - 1);
        assert(s.drop_first().skip(k - 1) =~= s.skip(k));
    } else {
        assert(k == 0);
        assert(s.skip(0) =~= s);
    }
}

/// Exec test for ASCII whitespace.
fn is_ws(b: u8) -> (r: bool)
    ensures
        r == is_ascii_ws(b),
{
    b == 0x20 || (0x09 <= b && b <= 0x0d)
}

/// Trim ASCII whitespace from both ends of a byte slice.
pub fn trim_ws_vec(s: &[u8]) -> (r: Vec<u8>)
    ensures
        r@ == trim_end_ws(trim_start_ws(s@)),
{
    let n = s.len();
    let mut a: usize = 0;
    while a < n && is_ws(s[a])
        invariant
            0 <= a <= n,
            n == s@.len(),
            forall|j: int| 0 <= j < a ==> is_ascii_ws(s@[j]),
        decreases n - a,
    {
        a = a + 1;
    }
    proof {
        lemma_trim_start_is_skip(s@, a as int);
    }
    let mut b = n;
    while b > a && is_ws(s[b - 1])
        invariant
            a <= b <= n,
            n == s@.len(),
            forall|j: int| b <= j < n ==> is_ascii_ws(s@[j]),
        decreases b,
    {
        b = b - 1;
    }
    proof {
        lemma_trim_end_is_take(s@.skip(a as int), b - a);
        assert(s@.skip(a as int).take(b - a) =~= s@.subrange(a as int, b as int));
    }
    let mut out: Vec<u8> = Vec::new();
    let mut i = a;
    while i < b
        invariant
            a <= i <= b <= s@.len(),
            out@.len() == i - a,
            forall|j: int| a <= j < i ==> out@[j - a] == s@[j],
        decreases b - i,
    {
        out.push(s[i]);
        i = i + 1;
    }
    proof {
        assert(out@ =~= s@.subrange(a as int, b as int));
    }
    out
}

/// Relies on `String::from_utf8`: a vector of ASCII bytes becomes the string
/// holding exactly those bytes.
#[verifier::external_body]
pub fn string_from_ascii(v: Vec<u8>) -> (r: String)
    requires
        all_ascii_bytes(v@),
    ensures
        string_bytes(&r) == v@,
        r@.len() == v@.len(),
{
    match String::from_utf8(v) {
        Ok(s) => s,
        Err(_) => String::new(),
    }
}

/// Normalization preserves ASCII-ness: every output byte comes from an input
/// byte, lowercased.
pub proof fn lemma_normalize_ascii(s: Seq<u8>)
    requires
        all_ascii_bytes(s),
    ensures
        all_ascii_bytes(normalize_bytes(s)),
{
    lemma_strip_subrange_of(lower_bytes(s));
    assert forall|i: int| 0 <= i < normalize_bytes(s).len() implies normalize_bytes(s)[i]
        < 0x80 by {
        assert(normalize_bytes(s)[i] == lower_bytes(s)[i]);
        assert(lower_bytes(s)[i] == lower_byte(s[i]));
    }
}

/// `strip_trailing_dots(s)` is a prefix of `s`.
pub proof fn lemma_strip_subrange_of(s: Seq<u8>)
    ensures
        strip_trailing_dots(s).len() <= s.len(),
        forall|i: int|
            0 <= i < strip_trailing_dots(s).len() ==> strip_trailing_dots(s)[i] == s[i],
    decreases s.len(),
{
    if s.len() > 0 && s.last() == DOT {
        lemma_strip_subrange_of(s.drop_last());
        assert(forall|i: int| 0 <= i < s.drop_last().len() ==> s.drop_last()[i] == s[i]);
    }
}

/// Normalize a domain-list entry as the filter does: trim ASCII whitespace,
/// lowercase, strip trailing dots, and make an empty entry ".".
pub fn norm_domain(s: &str) -> (r: String)
    requires
        s.is_ascii(),
    ensures
        string_bytes(&r) == norm_domain_bytes(str_bytes(s)),
{
    broadcast use vstd::string::is_ascii_spec_bytes;

    let bytes = s.as_bytes();
    let trimmed = trim_ws_vec(bytes);
    let mut x = normalize_vec(trimmed.as_slice());
    proof {
        vstd::utf8::is_ascii_chars_encode_utf8(s@);
        assert(all_ascii_bytes(str_bytes(s)));
        lemma_trim_ascii(str_bytes(s));
        lemma_normalize_ascii(trim_end_ws(trim_start_ws(str_bytes(s))));
    }
    if x.len() == 0 {
        x.push(DOT);
        proof {
            assert(x@ =~= seq![DOT]);
        }
    }
    string_from_ascii(x)
}

/// Trimming preserves ASCII-ness.
proof fn lemma_trim_ascii(s: Seq<u8>)
    requires
        all_ascii_bytes(s),
    ensures
        all_ascii_bytes(trim_end_ws(trim_start_ws(s))),
    decreases s.len(),
{
    lemma_trim_start_ascii(s);
    lemma_trim_end_ascii(trim_start_ws(s));
}

proof fn lemma_trim_start_ascii(s: Seq<u8>)
    requires
        all_ascii_bytes(s),
    ensures
        all_ascii_bytes(trim_start_ws(s)),
    decreases s.len(),
{
    if s.len() > 0 && is_ascii_ws(s.first()) {
        assert(all_ascii_bytes(s.drop_first()));
        lemma_trim_start_ascii(s.drop_first());
    }
}

proof fn lemma_trim_end_ascii(s: Seq<u8>)
    requires
        all_ascii_bytes(s),
    ensures
        all_ascii_bytes(trim_end_ws(s)),
    decreases s.len(),
{
    if s.len() > 0 && is_ascii_ws(s.last()) {
        assert(all_ascii_bytes(s.drop_last()));
        lemma_trim_end_ascii(s.drop_last());
    }
}

/// Lowercasing twice is the same as lowercasing once.
pub proof fn lemma_lower_idempotent(s: Seq<u8>)
    ensures
        lower_bytes(lower_bytes(s)) == lower_bytes(s),
{
    assert forall|i: int| 0 <= i < s.len() implies lower_bytes(lower_bytes(s))[i] == lower_bytes(
        s,
    )[i] by {
        assert(lower_bytes(s)[i] == lower_byte(s[i]));
        assert(lower_bytes(lower_bytes(s))[i] == lower_byte(lower_byte(s[i])));
    }
    assert(lower_bytes(lower_bytes(s)) =~= lower_bytes(s));
}

/// Lowercasing commutes with stripping trailing dots.
pub proof fn lemma_lower_strip_commute(s: Seq<u8>)
    ensures
        lower_bytes(strip_trailing_dots(s)) == strip_trailing_dots(lower_bytes(s)),
    decreases s.len(),
{
    if s.len() > 0 && s.last() == DOT {
        assert(lower_bytes(s).last() == lower_byte(s.last()));
        lemma_lower_strip_commute(s.drop_last());
        assert(lower_bytes(s).drop_last() =~= lower_bytes(s.drop_last()));
    } else if s.len() > 0 {
        assert(lower_bytes(s).last() == lower_byte(s.last()));
        assert(lower_byte(s.last()) == DOT ==> s.last() == DOT);
        assert(lower_bytes(strip_trailing_dots(s)) =~= strip_trailing_dots(lower_bytes(s)));
    } else {
        assert(lower_bytes(s) =~= s);
    }
}

/// Stripping trailing dots twice is the same as stripping once.
pub proof fn lemma_strip_idempotent(s: Seq<u8>)
    ensures
        strip_trailing_dots(strip_trailing_dots(s)) == strip_trailing_dots(s),
    decreases s.len(),
{
    if s.len() > 0 && s.last() == DOT {
        lemma_strip_idempotent(s.drop_last());
    }
}

/// Normalization is idempotent: a name already normalized stays as it is.
pub proof fn lemma_normalize_idempotent(s: Seq<u8>)
    ensures
        normalize_bytes(normalize_bytes(s)) == normalize_bytes(s),
{
    lemma_lower_strip_commute(lower_bytes(s));
    lemma_lower_idempotent(s);
    lemma_strip_idempotent(lower_bytes(s));
}

/// `q` matches the suffix `suffix`: equal, or `q` ends with "." + `suffix`.
pub fn is_suffix(q: &str, suffix: &str) -> (r: bool)
    ensures
        r == is_suffix_bytes(str_bytes(q), str_bytes(suffix)),
{
    let qb = q.as_bytes();
    let sb = suffix.as_bytes();
    if bytes_eq(qb, sb) {
        return true;
    }
    if qb.len() <= sb.len() {
        return false;
    }
    let start = qb.len() - sb.len() - 1;
    if qb[start] != DOT {
        proof {
            assert(str_bytes(q).subrange(
                str_bytes(q).len() - str_bytes(suffix).len() - 1,
                str_bytes(q).len() as int,
            )[0] == str_bytes(q)[start as int]);
            assert((seq![DOT] + str_bytes(suffix))[0] == DOT);
        }
        return false;
    }
    let n = sb.len();
    let mut i: usize = 0;
    while i < n
        invariant
            n == sb@.len(),
            start == qb@.len() - n - 1,
            qb@.len() > n,
            0 <= i <= n,
            qb@.len() <= usize::MAX,
            qb@ == str_bytes(q),
            sb@ == str_bytes(suffix),
            forall|j: int| 0 <= j < i ==> qb@[start + 1 + j] == sb@[j],
        decreases n - i,
    {
        if qb[start + 1 + i] != sb[i] {
            proof {
                let tail = qb@.subrange(qb@.len() - sb@.len() - 1, qb@.len() as int);
                let pat = seq![DOT] + sb@;
                assert(tail[i + 1] == qb@[start + 1 + i]);
                assert(pat[i + 1] == sb@[i as int]);
            }
            return false;
        }
        i = i + 1;
    }
    proof {
        let tail = qb@.subrange(qb@.len() - sb@.len() - 1, qb@.len() as int);
        let pat = seq![DOT] + sb@;
        assert(tail =~= pat);
    }
    true
}

} // verus!
