//! Textual parsing of IPv4 addresses, decimal numbers and separator-split
//! fields, with exact contracts: a parse succeeds exactly on the strings
//! the grammar admits, and yields the value the grammar gives them.
use vstd::prelude::*;

verus! {

/// Join parts with a separator byte between them.
pub open spec fn join_with(parts: Seq<Seq<u8>>, sep: u8) -> Seq<u8>
    decreases parts.len(),
{
    if parts.len() == 0 {
        Seq::empty()
    } else if parts.len() == 1 {
        parts[0]
    } else {
        parts[0] + seq![sep] + join_with(parts.skip(1), sep)
    }
}

/// `parts` is the decomposition of `s` at the separator: joining them with
/// the separator restores `s`, and no part holds the separator itself.
pub open spec fn is_split(s: Seq<u8>, sep: u8, parts: Seq<Seq<u8>>) -> bool {
    parts.len() >= 1 && join_with(parts, sep) == s && (forall|i: int|
        0 <= i < parts.len() ==> !(#[trigger] parts[i]).contains(sep))
}

/// The decomposition at a separator is unique.
pub proof fn lemma_split_unique(s: Seq<u8>, sep: u8, p1: Seq<Seq<u8>>, p2: Seq<Seq<u8>>)
    requires
        is_split(s, sep, p1),
        is_split(s, sep, p2),
    ensures
        p1 == p2,
    decreases p1.len(),
{
    lemma_join_head(p1, sep);
    lemma_join_head(p2, sep);
    if p1.len() == 1 && p2.len() == 1 {
        assert(p1 =~= p2);
    } else if p1.len() == 1 {
        assert(!p1[0].contains(sep));
        assert(s[p2[0].len() as int] == sep);
        assert(p1[0][p2[0].len() as int] == sep);
        assert(false);
    } else if p2.len() == 1 {
        assert(!p2[0].contains(sep));
        assert(s[p1[0].len() as int] == sep);
        assert(p2[0][p1[0].len() as int] == sep);
        assert(false);
    } else {
        let a = p1[0].len() as int;
        let b = p2[0].len() as int;
        if a < b {
            assert(s[a] == sep);
            assert(p2[0][a] == sep);
            assert(false);
        } else if b < a {
            assert(s[b] == sep);
            assert(p1[0][b] == sep);
            assert(false);
        }
        assert(p1[0] =~= p2[0]);
        let rest = s.skip(a + 1);
        assert(join_with(p1.skip(1), sep) =~= rest);
        assert(join_with(p2.skip(1), sep) =~= rest);
        lemma_split_unique(rest, sep, p1.skip(1), p2.skip(1));
        assert(p1.len() == p2.len());
        assert forall|i: int| 0 <= i < p1.len() implies p1[i] == p2[i] by {
            if i > 0 {
                assert(p1[i] == p1.skip(1)[i - 1]);
                assert(p2[i] == p2.skip(1)[i - 1]);
            }
        }
        assert(p1 =~= p2);
    }
}

/// How a join starts: with its first part, and the separator right after
/// it when more parts follow.
proof fn lemma_join_head(parts: Seq<Seq<u8>>, sep: u8)
    requires
        parts.len() >= 1,
    ensures
        join_with(parts, sep).len() >= parts[0].len(),
        forall|j: int| 0 <= j < parts[0].len() ==> join_with(parts, sep)[j] == parts[0][j],
        parts.len() > 1 ==> join_with(parts, sep).len() > parts[0].len() && join_with(parts, sep)[
            parts[0].len() as int] == sep && join_with(parts, sep).skip(parts[0].len() as int + 1)
            == join_with(parts.skip(1), sep),
{
    if parts.len() > 1 {
        assert(join_with(parts, sep) == parts[0] + seq![sep] + join_with(parts.skip(1), sep));
        assert(join_with(parts, sep).skip(parts[0].len() as int + 1) =~= join_with(parts.skip(1), sep));
    }
}

/// Joining one more part at the end.
proof fn lemma_join_snoc(parts: Seq<Seq<u8>>, q: Seq<u8>, sep: u8)
    requires
        parts.len() >= 1,
    ensures
        join_with(parts.push(q), sep) == join_with(parts, sep) + seq![sep] + q,
    decreases parts.len(),
{
    if parts.len() == 1 {
        assert(parts.push(q).skip(1) =~= seq![q]);
        assert(join_with(seq![q], sep) == q);
        assert(join_with(parts.push(q), sep) == parts[0] + seq![sep] + q);
        assert(join_with(parts, sep) == parts[0]);
    } else {
        lemma_join_snoc(parts.skip(1), q, sep);
        assert(parts.push(q).skip(1) =~= parts.skip(1).push(q));
        assert(join_with(parts.push(q), sep) == parts[0] + seq![sep] + join_with(
            parts.skip(1).push(q),
            sep,
        ));
        assert(join_with(parts, sep) + seq![sep] + q =~= parts[0] + seq![sep] + (join_with(
            parts.skip(1),
            sep,
        ) + seq![sep] + q));
    }
}

/// The byte sequences a vector of byte vectors holds.
pub open spec fn views_of(parts: Seq<Vec<u8>>) -> Seq<Seq<u8>> {
    parts.map_values(|v: Vec<u8>| v@)
}

/// Split a byte string at a separator. The result is the (unique)
/// decomposition of the input.
pub fn split_on(s: &[u8], sep: u8) -> (parts: Vec<Vec<u8>>)
    ensures
        is_split(s@, sep, views_of(parts@)),
{
    let n = s.len();
    let mut parts: Vec<Vec<u8>> = Vec::new();
    let mut cur: Vec<u8> = Vec::new();
    let mut i: usize = 0;
    while i < n
        invariant
            n == s@.len(),
            0 <= i <= n,
            join_with(views_of(parts@).push(cur@), sep) == s@.take(i as int),
            forall|k: int|
                0 <= k < parts@.len() ==> !(#[trigger] views_of(parts@)[k]).contains(sep),
            !cur@.contains(sep),
        decreases n - i,
    {
        let ghost old_parts = views_of(parts@);
        let ghost old_cur = cur@;
        let c = s[i];
        if c == sep {
            parts.push(cur);
            cur = Vec::new();
            proof {
                assert(views_of(parts@) =~= old_parts.push(old_cur));
                lemma_join_snoc(old_parts.push(old_cur), Seq::empty(), sep);
                assert(views_of(parts@).push(cur@) =~= old_parts.push(old_cur).push(
                    Seq::<u8>::empty(),
                ));
                assert(join_with(views_of(parts@).push(cur@), sep) =~= s@.take(i as int) + seq![
                    sep,
                ]);
                assert(s@.take(i as int) + seq![sep] =~= s@.take(i as int + 1));
            }
        } else {
            cur.push(c);
            proof {
                assert(views_of(parts@) =~= old_parts);
                lemma_join_last(old_parts.push(old_cur), sep);
                lemma_join_last(views_of(parts@).push(cur@), sep);
                assert(views_of(parts@).push(cur@).drop_last() =~= old_parts.push(
                    old_cur,
                ).drop_last());
                assert(join_with(views_of(parts@).push(cur@), sep) =~= s@.take(i as int) + seq![
                    c,
                ]);
                assert(s@.take(i as int) + seq![c] =~= s@.take(i as int + 1));
            }
        }
        i = i + 1;
    }
    let ghost pre_parts = views_of(parts@);
    let ghost pre_cur = cur@;
    parts.push(cur);
    proof {
        assert(views_of(parts@) =~= pre_parts.push(pre_cur));
        assert(s@.take(n as int) =~= s@);
    }
    parts
}

/// An ASCII decimal digit.
pub open spec fn is_digit(b: u8) -> bool {
    0x30 <= b <= 0x39
}

/// All bytes are decimal digits.
pub open spec fn all_digits(s: Seq<u8>) -> bool {
    forall|i: int| 0 <= i < s.len() ==> is_digit(#[trigger] s[i])
}

/// The number a digit string denotes.
pub open spec fn dec_val(s: Seq<u8>) -> int
    decreases s.len(),
{
    if s.len() == 0 {
        0
    } else {
        dec_val(s.drop_last()) * 10 + (s.last() - 0x30)
    }
}

/// One dotted-quad group: one to three digits, no leading zero, at most
/// 255.
pub open spec fn valid_octet(g: Seq<u8>) -> bool {
    1 <= g.len() <= 3 && all_digits(g) && (g.len() > 1 ==> g[0] != 0x30) && dec_val(g) <= 255
}

/// Four valid octet groups.
pub open spec fn valid_ipv4_parts(parts: Seq<Seq<u8>>) -> bool {
    parts.len() == 4 && valid_octet(parts[0]) && valid_octet(parts[1]) && valid_octet(parts[2])
        && valid_octet(parts[3])
}

/// The address the four groups denote.
pub open spec fn spec_ipv4_value(parts: Seq<Seq<u8>>) -> u32 {
    (dec_val(parts[0]) * 0x1000000 + dec_val(parts[1]) * 0x10000 + dec_val(parts[2]) * 0x100
        + dec_val(parts[3])) as u32
}

/// Value of a field of one to three digits.
fn dec_value3(g: &[u8]) -> (r: Option<u32>)
    ensures
        (r matches Some(v) ==> 1 <= g@.len() <= 3 && all_digits(g@) && v == dec_val(g@) && v
            <= 999),
        r is None ==> !(1 <= g@.len() <= 3 && all_digits(g@)),
{
    let n = g.len();
    if n < 1 || n > 3 {
        return None;
    }
    let mut val: u32 = 0;
    let mut i: usize = 0;
    while i < n
        invariant
            n == g@.len(),
            n <= 3,
            0 <= i <= n,
            val == dec_val(g@.take(i as int)),
            i == 0 ==> val == 0,
            i == 1 ==> val <= 9,
            i == 2 ==> val <= 99,
            i == 3 ==> val <= 999,
            all_digits(g@.take(i as int)),
        decreases n - i,
    {
        let b = g[i];
        if b < 0x30 || b > 0x39 {
            proof {
                assert(g@.take(i as int + 1)[i as int] == b);
                assert(!all_digits(g@.take(i as int + 1)));
                assert forall|k: int| 0 <= k < g@.len() && !is_digit(g@[k]) implies !all_digits(
                    g@,
                ) by {}
            }
            return None;
        }
        proof {
            assert(g@.take(i as int + 1).drop_last() =~= g@.take(i as int));
            assert(g@.take(i as int + 1).last() == b);
        }
        val = val * 10 + ((b - 0x30) as u32);
        i = i + 1;
    }
    proof {
        assert(g@.take(n as int) =~= g@);
    }
    Some(val)
}

/// Parse a dotted-quad IPv4 address. Succeeds exactly on four dot-joined
/// octet groups (digits only, no leading zero, each at most 255), giving
/// the 32-bit address they denote.
pub fn parse_ipv4(s: &[u8]) -> (r: Option<u32>)
    ensures
        (r matches Some(x) ==> exists|parts: Seq<Seq<u8>>|
            is_split(s@, 0x2e, parts) && valid_ipv4_parts(parts) && x == spec_ipv4_value(parts)),
        r is None ==> (forall|parts: Seq<Seq<u8>>|
            is_split(s@, 0x2e, parts) ==> !valid_ipv4_parts(parts)),
{
    let parts = split_on(s, 0x2e);
    let ghost pv = views_of(parts@);
    if parts.len() != 4 {
        proof {
            assert forall|other: Seq<Seq<u8>>| is_split(s@, 0x2e, other) implies !valid_ipv4_parts(
                other,
            ) by {
                lemma_split_unique(s@, 0x2e, other, pv);
            }
        }
        return None;
    }
    let mut vals: Vec<u32> = Vec::new();
    let mut i: usize = 0;
    let mut bad: bool = false;
    while i < 4
        invariant
            0 <= i <= 4,
            parts@.len() == 4,
            pv == views_of(parts@),
            !bad ==> vals@.len() == i,
            !bad ==> forall|k: int|
                0 <= k < i ==> valid_octet(#[trigger] pv[k]) && vals@[k] == dec_val(pv[k]),
            bad ==> exists|k: int| 0 <= k < 4 && !valid_octet(#[trigger] pv[k]),
        decreases 4 - i,
    {
        if !bad {
            let g = &parts[i];
            match dec_value3(g.as_slice()) {
                Some(v) => {
                    if v > 255 || (g.len() > 1 && g[0] == 0x30) {
                        bad = true;
                        proof {
                            assert(!valid_octet(pv[i as int]));
                        }
                    } else {
                        vals.push(v);
                        proof {
                            assert(valid_octet(pv[i as int]));
                        }
                    }
                },
                None => {
                    bad = true;
                    proof {
                        assert(!valid_octet(pv[i as int]));
                    }
                },
            }
        }
        i = i + 1;
    }
    if bad {
        proof {
            assert(!valid_ipv4_parts(pv));
            assert forall|other: Seq<Seq<u8>>| is_split(s@, 0x2e, other) implies !valid_ipv4_parts(
                other,
            ) by {
                lemma_split_unique(s@, 0x2e, other, pv);
            }
        }
        return None;
    }
    proof {
        assert(valid_ipv4_parts(pv));
        assert(vals@[0] == dec_val(pv[0]) && dec_val(pv[0]) <= 255);
        assert(vals@[1] == dec_val(pv[1]) && dec_val(pv[1]) <= 255);
        assert(vals@[2] == dec_val(pv[2]) && dec_val(pv[2]) <= 255);
        assert(vals@[3] == dec_val(pv[3]) && dec_val(pv[3]) <= 255);
    }
    let x: u32 = vals[0] * 0x1000000 + vals[1] * 0x10000 + vals[2] * 0x100 + vals[3];
    proof {
        assert(x == spec_ipv4_value(pv));
    }
    Some(x)
}

/// What a dotted-quad string denotes, if anything: the compact form of
/// the relation `parse_ipv4` decides.
pub open spec fn spec_ipv4_of(s: Seq<u8>) -> Option<u32> {
    if exists|parts: Seq<Seq<u8>>| is_split(s, 0x2e, parts) && valid_ipv4_parts(parts) {
        Some(
            spec_ipv4_value(
                choose|parts: Seq<Seq<u8>>| is_split(s, 0x2e, parts) && valid_ipv4_parts(parts),
            ),
        )
    } else {
        None
    }
}

/// A witness decomposition settles the compact form.
pub proof fn lemma_ipv4_of_some(s: Seq<u8>, parts: Seq<Seq<u8>>)
    requires
        is_split(s, 0x2e, parts),
        valid_ipv4_parts(parts),
    ensures
        spec_ipv4_of(s) == Some(spec_ipv4_value(parts)),
{
    let picked = choose|p: Seq<Seq<u8>>| is_split(s, 0x2e, p) && valid_ipv4_parts(p);
    lemma_split_unique(s, 0x2e, picked, parts);
}

/// Parse a dotted-quad IPv4 address, as `spec_ipv4_of` describes it.
pub fn parse_ipv4_addr(s: &[u8]) -> (r: Option<u32>)
    ensures
        r == spec_ipv4_of(s@),
{
    let r = parse_ipv4(s);
    proof {
        match r {
            Some(x) => {
                let parts = choose|parts: Seq<Seq<u8>>|
                    is_split(s@, 0x2e, parts) && valid_ipv4_parts(parts) && x == spec_ipv4_value(
                        parts,
                    );
                lemma_ipv4_of_some(s@, parts);
            },
            None => {},
        }
    }
    r
}

/// Value of a field of one to five digits.
pub(crate) fn dec_value5(g: &[u8]) -> (r: Option<u32>)
    ensures
        (r matches Some(v) ==> 1 <= g@.len() <= 5 && all_digits(g@) && v == dec_val(g@) && v
            <= 99999),
        r is None ==> !(1 <= g@.len() <= 5 && all_digits(g@)),
{
    let n = g.len();
    if n < 1 || n > 5 {
        return None;
    }
    let mut val: u32 = 0;
    let mut i: usize = 0;
    while i < n
        invariant
            n == g@.len(),
            n <= 5,
            0 <= i <= n,
            val == dec_val(g@.take(i as int)),
            i == 0 ==> val == 0,
            i == 1 ==> val <= 9,
            i == 2 ==> val <= 99,
            i == 3 ==> val <= 999,
            i == 4 ==> val <= 9999,
            i == 5 ==> val <= 99999,
            all_digits(g@.take(i as int)),
        decreases n - i,
    {
        let b = g[i];
        if b < 0x30 || b > 0x39 {
            proof {
                assert(g@.take(i as int + 1)[i as int] == b);
                assert(!all_digits(g@.take(i as int + 1)));
                assert forall|k: int| 0 <= k < g@.len() && !is_digit_at(g@, k) implies !all_digits(
                    g@,
                ) by {}
            }
            return None;
        }
        proof {
            assert(g@.take(i as int + 1).drop_last() =~= g@.take(i as int));
            assert(g@.take(i as int + 1).last() == b);
        }
        val = val * 10 + ((b - 0x30) as u32);
        i = i + 1;
    }
    proof {
        assert(g@.take(n as int) =~= g@);
    }
    Some(val)
}

/// The byte at `k` is a digit.
spec fn is_digit_at(s: Seq<u8>, k: int) -> bool {
    is_digit(s[k])
}

/// A join seen from its last part.
proof fn lemma_join_last(parts: Seq<Seq<u8>>, sep: u8)
    requires
        parts.len() >= 1,
    ensures
        parts.len() == 1 ==> join_with(parts, sep) == parts[0],
        parts.len() > 1 ==> join_with(parts, sep) == join_with(parts.drop_last(), sep) + seq![sep]
            + parts.last(),
    decreases parts.len(),
{
    if parts.len() > 1 {
        lemma_join_snoc(parts.drop_last(), parts.last(), sep);
        assert(parts.drop_last().push(parts.last()) =~= parts);
    }
}

} // verus!
