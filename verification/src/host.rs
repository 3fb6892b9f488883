//! Syntactic validation of host names: the literal `localhost`, IPv4 dotted
//! quads, and IPv6 literals (full, `::`-compressed, and IPv4-tailed forms).

use vstd::prelude::*;

verus! {

/// A decimal digit, by code point.
pub open spec fn is_dec_digit(c: char) -> bool {
    48 <= c as int <= 57
}

/// The numeric value of a decimal digit.
pub open spec fn dec_val(c: char) -> int {
    c as int - 48
}

/// A hexadecimal digit (either case), by code point.
pub open spec fn is_hex_digit(c: char) -> bool {
    is_dec_digit(c) || 97 <= c as int <= 102 || 65 <= c as int <= 70
}

/// The indices of `t` holding the separator `ch`, in increasing order.
pub open spec fn positions_of(t: Seq<char>, ch: char) -> Seq<int>
    decreases t.len(),
{
    if t.len() == 0 {
        Seq::empty()
    } else {
        let p = positions_of(t.drop_last(), ch);
        if t.last() == ch {
            p.push(t.len() - 1)
        } else {
            p
        }
    }
}

/// `positions_of` lists exactly the separator positions, sorted strictly.
pub proof fn lemma_positions_of(t: Seq<char>, ch: char)
    ensures
        forall|k: int|
            0 <= k < positions_of(t, ch).len() ==> 0 <= #[trigger] positions_of(t, ch)[k]
                < t.len() && t[positions_of(t, ch)[k]] == ch,
        forall|k: int, l: int|
            0 <= k < l < positions_of(t, ch).len() ==> positions_of(t, ch)[k] < positions_of(
                t,
                ch,
            )[l],
        forall|i: int| 0 <= i < t.len() && t[i] == ch ==> positions_of(t, ch).contains(i),
    decreases t.len(),
{
    if t.len() > 0 {
        lemma_positions_of(t.drop_last(), ch);
        let p = positions_of(t.drop_last(), ch);
        let ps = positions_of(t, ch);
        assert forall|i: int| 0 <= i < t.len() && t[i] == ch implies ps.contains(i) by {
            if i < t.len() - 1 {
                assert(t.drop_last()[i] == t[i]);
                let k = choose|k: int| 0 <= k < p.len() && p[k] == i;
                assert(ps[k] == i);
            } else {
                assert(t.last() == ch);
                assert(ps[ps.len() - 1] == i);
            }
        }
    }
}

/// Start of the `k`-th separator-delimited piece, given the separator positions.
pub open spec fn piece_start(ps: Seq<int>, k: int) -> int {
    if k == 0 {
        0
    } else {
        ps[k - 1] + 1
    }
}

/// End (exclusive) of the `k`-th separator-delimited piece.
pub open spec fn piece_end(t: Seq<char>, ps: Seq<int>, k: int) -> int {
    if k == ps.len() {
        t.len() as int
    } else {
        ps[k]
    }
}

/// The `k`-th piece of `t` when split on `ch`, for `0 <= k < n_pieces(t, ch)`.
pub open spec fn piece(t: Seq<char>, ch: char, k: int) -> Seq<char> {
    let ps = positions_of(t, ch);
    t.subrange(piece_start(ps, k), piece_end(t, ps, k))
}

/// How many pieces `t` splits into on `ch` (separators plus one).
pub open spec fn n_pieces(t: Seq<char>, ch: char) -> int {
    positions_of(t, ch).len() as int + 1
}

/// The value of a decimal-digit string.
pub open spec fn digits_val(t: Seq<char>) -> int
    decreases t.len(),
{
    if t.len() == 0 {
        0
    } else {
        digits_val(t.drop_last()) * 10 + dec_val(t.last())
    }
}

/// A digit string of length `n` is worth less than `10^n` (up to three digits).
proof fn lemma_digits_val_bound(t: Seq<char>)
    requires
        forall|i: int| 0 <= i < t.len() ==> is_dec_digit(#[trigger] t[i]),
    ensures
        0 <= digits_val(t),
        t.len() <= 1 ==> digits_val(t) < 10,
        t.len() <= 2 ==> digits_val(t) < 100,
        t.len() <= 3 ==> digits_val(t) < 1000,
    decreases t.len(),
{
    if t.len() > 0 {
        assert(forall|i: int|
            0 <= i < t.drop_last().len() ==> is_dec_digit(#[trigger] t.drop_last()[i]));
        lemma_digits_val_bound(t.drop_last());
    }
}

/// One IPv4 octet: one to three digits, no leading zero, value at most 255.
pub open spec fn valid_octet(t: Seq<char>) -> bool {
    &&& 1 <= t.len() <= 3
    &&& forall|i: int| 0 <= i < t.len() ==> is_dec_digit(#[trigger] t[i])
    &&& t.len() > 1 ==> t[0] as int != 48
    &&& digits_val(t) <= 255
}

/// An IPv4 literal: four octets separated by dots.
pub open spec fn valid_ipv4(t: Seq<char>) -> bool {
    &&& positions_of(t, '.').len() == 3
    &&& forall|k: int| 0 <= k < 4 ==> valid_octet(#[trigger] piece(t, '.', k))
}

/// Collects the indices at which `ch` occurs in `s`.
fn char_positions(s: &str, ch: char) -> (r: Vec<usize>)
    ensures
        r@.map_values(|u: usize| u as int) == positions_of(s@, ch),
{
    let n = s.unicode_len();
    let mut r: Vec<usize> = Vec::new();
    let mut i: usize = 0;
    while i < n
        invariant
            i <= n,
            n == s@.len(),
            r@.map_values(|u: usize| u as int) =~= positions_of(s@.subrange(0, i as int), ch),
        decreases n - i,
    {
        let c = s.get_char(i);
        proof {
            assert(s@.subrange(0, i + 1).drop_last() =~= s@.subrange(0, i as int));
            assert(s@.subrange(0, i + 1).last() == s@[i as int]);
        }
        if c == ch {
            r.push(i);
            proof {
                assert(r@.map_values(|u: usize| u as int) =~= positions_of(
                    s@.subrange(0, i + 1),
                    ch,
                ));
            }
        }
        i += 1;
    }
    proof {
        assert(s@.subrange(0, n as int) =~= s@);
    }
    r
}

/// Decides `valid_octet` for the character range `[start, end)` of `s`.
fn octet_ok(s: &str, start: usize, end: usize) -> (b: bool)
    requires
        start <= end <= s@.len(),
    ensures
        b == valid_octet(s@.subrange(start as int, end as int)),
{
    let ghost t = s@.subrange(start as int, end as int);
    let len = end - start;
    if len < 1 || len > 3 {
        return false;
    }
    let mut i = start;
    while i < end
        invariant
            start <= i <= end <= s@.len(),
            t == s@.subrange(start as int, end as int),
            forall|j: int| 0 <= j < i - start ==> is_dec_digit(#[trigger] t[j]),
        decreases end - i,
    {
        let c = s.get_char(i);
        proof {
            assert(t[i - start] == s@[i as int]);
        }
        if !(48 <= c as u32 && c as u32 <= 57) {
            return false;
        }
        i += 1;
    }
    if len > 1 {
        let c0 = s.get_char(start);
        proof {
            assert(t[0] == s@[start as int]);
        }
        if c0 as u32 == 48 {
            return false;
        }
    }
    let mut val: u32 = 0;
    let mut i = start;
    while i < end
        invariant
            start <= i <= end <= s@.len(),
            end - start <= 3,
            t == s@.subrange(start as int, end as int),
            forall|j: int| 0 <= j < t.len() ==> is_dec_digit(#[trigger] t[j]),
            val == digits_val(t.subrange(0, i - start)),
        decreases end - i,
    {
        let c = s.get_char(i);
        proof {
            assert(t[i - start] == s@[i as int]);
            assert(t.subrange(0, i + 1 - start).drop_last() =~= t.subrange(0, i - start));
            assert(forall|j: int|
                0 <= j < t.subrange(0, i - start).len() ==> is_dec_digit(
                    #[trigger] t.subrange(0, i - start)[j],
                ));
            lemma_digits_val_bound(t.subrange(0, i - start));
        }
        val = val * 10 + (c as u32 - 48);
        i += 1;
    }
    proof {
        assert(t.subrange(0, end - start) =~= t);
    }
    val <= 255
}

/// Decides `valid_ipv4` for `s`.
pub fn is_valid_ipv4(s: &str) -> (b: bool)
    ensures
        b == valid_ipv4(s@),
{
    let ps = char_positions(s, '.');
    proof {
        lemma_positions_of(s@, '.');
    }
    if ps.len() != 3 {
        return false;
    }
    let n = s.unicode_len();
    let ghost sp = positions_of(s@, '.');
    let p0 = ps[0];
    let p1 = ps[1];
    let p2 = ps[2];
    proof {
        assert(sp[0] == p0 as int && sp[1] == p1 as int && sp[2] == p2 as int);
        assert(sp[0] < sp[1] && sp[1] < sp[2] && sp[2] < s@.len());
    }
    let b0 = octet_ok(s, 0, p0);
    let b1 = octet_ok(s, p0 + 1, p1);
    let b2 = octet_ok(s, p1 + 1, p2);
    let b3 = octet_ok(s, p2 + 1, n);
    proof {
        assert(piece(s@, '.', 0) == s@.subrange(0, p0 as int));
        assert(piece(s@, '.', 1) == s@.subrange(p0 + 1, p1 as int));
        assert(piece(s@, '.', 2) == s@.subrange(p1 + 1, p2 as int));
        assert(piece(s@, '.', 3) == s@.subrange(p2 + 1, n as int));
    }
    let b = b0 && b1 && b2 && b3;
    proof {
        if b {
            assert forall|k: int| 0 <= k < 4 implies valid_octet(#[trigger] piece(s@, '.', k)) by {
                if k == 0 {
                } else if k == 1 {
                } else if k == 2 {
                } else {
                    assert(k == 3);
                }
            }
        }
    }
    b
}

/// One IPv6 group: one to four hexadecimal digits.
pub open spec fn hex_group(t: Seq<char>) -> bool {
    &&& 1 <= t.len() <= 4
    &&& forall|i: int| 0 <= i < t.len() ==> is_hex_digit(#[trigger] t[i])
}

/// The `k`-th colon-delimited piece of `t` is empty.
pub open spec fn piece_is_empty(t: Seq<char>, k: int) -> bool {
    piece(t, ':', k).len() == 0
}

/// The colon-delimited pieces `a..b` of `t` are all non-empty.
pub open spec fn pieces_nonempty(t: Seq<char>, a: int, b: int) -> bool {
    forall|k: int| a <= k < b ==> !#[trigger] piece_is_empty(t, k)
}

/// The colon-delimited pieces `a..b` of `t` are all hexadecimal groups.
pub open spec fn pieces_hex(t: Seq<char>, a: int, b: int) -> bool {
    forall|k: int| a <= k < b ==> hex_group(#[trigger] piece(t, ':', k))
}

/// Full IPv6 form: eight groups, or six groups and an IPv4 tail.
pub open spec fn ipv6_full(t: Seq<char>, n: int) -> bool {
    &&& pieces_nonempty(t, 0, n)
    &&& ((n == 8 && pieces_hex(t, 0, 8)) || (n == 7 && pieces_hex(t, 0, 6) && valid_ipv4(
        piece(t, ':', 6),
    )))
}

/// The bare `::` address: three pieces, all empty.
pub open spec fn ipv6_unspecified(t: Seq<char>, n: int) -> bool {
    n == 3 && piece_is_empty(t, 0) && piece_is_empty(t, 1) && piece_is_empty(t, 2)
}

/// A `::` at the start, followed by groups and possibly an IPv4 tail.
pub open spec fn ipv6_lead_compressed(t: Seq<char>, n: int) -> bool {
    &&& n >= 3
    &&& piece_is_empty(t, 0)
    &&& piece_is_empty(t, 1)
    &&& pieces_nonempty(t, 2, n)
    &&& ((n - 2 <= 7 && pieces_hex(t, 2, n)) || (n - 1 <= 7 && pieces_hex(t, 2, n - 1)
        && valid_ipv4(piece(t, ':', n - 1))))
}

/// A `::` at the end, after one or more groups.
pub open spec fn ipv6_trail_compressed(t: Seq<char>, n: int) -> bool {
    &&& n >= 3
    &&& piece_is_empty(t, n - 1)
    &&& piece_is_empty(t, n - 2)
    &&& pieces_nonempty(t, 0, n - 2)
    &&& n - 2 <= 7
    &&& pieces_hex(t, 0, n - 2)
}

/// A `::` strictly inside: the single empty piece sits at index `m`.
pub open spec fn ipv6_mid_at(t: Seq<char>, n: int, m: int) -> bool {
    &&& piece_is_empty(t, m)
    &&& pieces_nonempty(t, 0, m)
    &&& pieces_nonempty(t, m + 1, n)
    &&& pieces_hex(t, 0, m)
    &&& ((n - 1 <= 7 && pieces_hex(t, m + 1, n)) || (n <= 7 && pieces_hex(t, m + 1, n - 1)
        && valid_ipv4(piece(t, ':', n - 1))))
}

/// A `::` strictly inside the address.
pub open spec fn ipv6_mid_compressed(t: Seq<char>, n: int) -> bool {
    exists|m: int| 1 <= m <= n - 2 && ipv6_mid_at(t, n, m)
}

/// An IPv6 literal: a full form, or exactly one `::` compression.
pub open spec fn valid_ipv6(t: Seq<char>) -> bool {
    let n = n_pieces(t, ':');
    ||| ipv6_full(t, n)
    ||| ipv6_unspecified(t, n)
    ||| ipv6_lead_compressed(t, n)
    ||| ipv6_trail_compressed(t, n)
    ||| ipv6_mid_compressed(t, n)
}

/// Decides `hex_group` for the character range `[start, end)` of `s`.
fn hex_group_ok(s: &str, start: usize, end: usize) -> (b: bool)
    requires
        start <= end <= s@.len(),
    ensures
        b == hex_group(s@.subrange(start as int, end as int)),
{
    let ghost t = s@.subrange(start as int, end as int);
    let len = end - start;
    if len < 1 || len > 4 {
        return false;
    }
    let mut i = start;
    while i < end
        invariant
            start <= i <= end <= s@.len(),
            t == s@.subrange(start as int, end as int),
            forall|j: int| 0 <= j < i - start ==> is_hex_digit(#[trigger] t[j]),
        decreases end - i,
    {
        let c = s.get_char(i);
        proof {
            assert(t[i - start] == s@[i as int]);
        }
        let u = c as u32;
        if !((48 <= u && u <= 57) || (97 <= u && u <= 102) || (65 <= u && u <= 70)) {
            return false;
        }
        i += 1;
    }
    true
}

/// The start and end of the `k`-th colon-delimited piece of `s`.
fn bounds_of_piece(s: &str, ps: &Vec<usize>, k: usize) -> (r: (usize, usize))
    requires
        ps@.map_values(|u: usize| u as int) == positions_of(s@, ':'),
        k <= ps@.len(),
    ensures
        r.0 == piece_start(positions_of(s@, ':'), k as int),
        r.1 == piece_end(s@, positions_of(s@, ':'), k as int),
        r.0 <= r.1 <= s@.len(),
{
    let n = s.unicode_len();
    proof {
        lemma_positions_of(s@, ':');
        let sp = positions_of(s@, ':');
        let m = ps@.map_values(|u: usize| u as int);
        if k > 0 {
            assert(sp[k - 1] == m[k - 1]);
            assert(sp[k - 1] == ps@[k - 1] as int);
            assert(0 <= sp[k - 1] < s@.len());
            if (k as int) < sp.len() {
                assert(sp[k - 1] < sp[k as int]);
            }
        }
        if (k as int) < sp.len() {
            assert(sp[k as int] == m[k as int]);
            assert(sp[k as int] == ps@[k as int] as int);
            assert(sp[k as int] < s@.len());
        }
    }
    let start = if k == 0 {
        0
    } else {
        ps[k - 1] + 1
    };
    let end = if k == ps.len() {
        n
    } else {
        ps[k]
    };
    (start, end)
}

/// Decides whether the `k`-th colon-delimited piece of `s` is empty.
fn piece_empty_ok(s: &str, ps: &Vec<usize>, k: usize) -> (r: bool)
    requires
        ps@.map_values(|u: usize| u as int) == positions_of(s@, ':'),
        k <= ps@.len(),
    ensures
        r == piece_is_empty(s@, k as int),
{
    let (st, en) = bounds_of_piece(s, ps, k);
    st == en
}

/// Decides `pieces_nonempty` for the colon-delimited pieces `a..b` of `s`.
fn pieces_nonempty_ok(s: &str, ps: &Vec<usize>, a: usize, b: usize) -> (r: bool)
    requires
        ps@.map_values(|u: usize| u as int) == positions_of(s@, ':'),
        a <= b,
        b <= ps@.len() + 1,
    ensures
        r == pieces_nonempty(s@, a as int, b as int),
{
    let mut k = a;
    while k < b
        invariant
            ps@.map_values(|u: usize| u as int) == positions_of(s@, ':'),
            a <= k <= b,
            b <= ps@.len() + 1,
            forall|j: int| a <= j < k ==> !#[trigger] piece_is_empty(s@, j),
        decreases b - k,
    {
        if piece_empty_ok(s, ps, k) {
            return false;
        }
        k += 1;
    }
    true
}

/// Decides `pieces_hex` for the colon-delimited pieces `a..b` of `s`.
fn pieces_hex_ok(s: &str, ps: &Vec<usize>, a: usize, b: usize) -> (r: bool)
    requires
        ps@.map_values(|u: usize| u as int) == positions_of(s@, ':'),
        a <= b,
        b <= ps@.len() + 1,
    ensures
        r == pieces_hex(s@, a as int, b as int),
{
    let mut k = a;
    while k < b
        invariant
            ps@.map_values(|u: usize| u as int) == positions_of(s@, ':'),
            a <= k <= b,
            b <= ps@.len() + 1,
            forall|j: int| a <= j < k ==> hex_group(#[trigger] piece(s@, ':', j)),
        decreases b - k,
    {
        let (st, en) = bounds_of_piece(s, ps, k);
        let ok = hex_group_ok(s, st, en);
        proof {
            assert(piece(s@, ':', k as int) == s@.subrange(st as int, en as int));
        }
        if !ok {
            return false;
        }
        k += 1;
    }
    true
}

/// Decides whether the `k`-th colon-delimited piece of `s` is an IPv4 literal.
fn ipv4_piece_ok(s: &str, ps: &Vec<usize>, k: usize) -> (r: bool)
    requires
        ps@.map_values(|u: usize| u as int) == positions_of(s@, ':'),
        k <= ps@.len(),
    ensures
        r == valid_ipv4(piece(s@, ':', k as int)),
{
    let (st, en) = bounds_of_piece(s, ps, k);
    let sub = s.substring_char(st, en);
    proof {
        assert(piece(s@, ':', k as int) == s@.subrange(st as int, en as int));
    }
    is_valid_ipv4(sub)
}

/// The first empty colon-delimited piece of `s`, if any.
fn find_first_empty(s: &str, ps: &Vec<usize>) -> (r: Option<usize>)
    requires
        ps@.map_values(|u: usize| u as int) == positions_of(s@, ':'),
        ps@.len() <= 8,
    ensures
        match r {
            Option::None => forall|k: int|
                0 <= k < n_pieces(s@, ':') ==> !#[trigger] piece_is_empty(s@, k),
            Option::Some(m) => (m as int) < n_pieces(s@, ':') && piece_is_empty(s@, m as int)
                && forall|k: int| 0 <= k < m ==> !#[trigger] piece_is_empty(s@, k),
        },
{
    let np = ps.len() + 1;
    let mut k: usize = 0;
    while k < np
        invariant
            ps@.map_values(|u: usize| u as int) == positions_of(s@, ':'),
            np == ps@.len() + 1,
            k <= np,
            forall|j: int| 0 <= j < k ==> !#[trigger] piece_is_empty(s@, j),
        decreases np - k,
    {
        if piece_empty_ok(s, ps, k) {
            return Option::Some(k);
        }
        k += 1;
    }
    Option::None
}

/// Decides the strictly-inside `::` case.
fn mid_case_ok(s: &str, ps: &Vec<usize>) -> (r: bool)
    requires
        ps@.map_values(|u: usize| u as int) == positions_of(s@, ':'),
        ps@.len() <= 8,
    ensures
        r == ipv6_mid_compressed(s@, n_pieces(s@, ':')),
{
    let ghost n = n_pieces(s@, ':');
    let np = ps.len() + 1;
    let fe = find_first_empty(s, ps);
    match fe {
        Option::None => {
            proof {
                if ipv6_mid_compressed(s@, n) {
                    let m2 = choose|m2: int| 1 <= m2 <= n - 2 && ipv6_mid_at(s@, n, m2);
                    assert(piece_is_empty(s@, m2));
                    assert(false);
                }
            }
            false
        },
        Option::Some(m) => {
            if 1 <= m && m + 1 < np {
                let right_ne = pieces_nonempty_ok(s, ps, m + 1, np);
                let left_hex = pieces_hex_ok(s, ps, 0, m);
                let b1 = np - 1 <= 7 && pieces_hex_ok(s, ps, m + 1, np);
                let b2 = np <= 7 && pieces_hex_ok(s, ps, m + 1, np - 1) && ipv4_piece_ok(
                    s,
                    ps,
                    np - 1,
                );
                let r = right_ne && left_hex && (b1 || b2);
                proof {
                    if r {
                        assert(ipv6_mid_at(s@, n, m as int));
                        assert(ipv6_mid_compressed(s@, n));
                    }
                    if !r && ipv6_mid_compressed(s@, n) {
                        let m2 = choose|m2: int| 1 <= m2 <= n - 2 && ipv6_mid_at(s@, n, m2);
                        assert(piece_is_empty(s@, m2));
                        if m2 < m {
                            assert(!piece_is_empty(s@, m2));
                        } else if m2 > m {
                            assert(pieces_nonempty(s@, m2 + 1, n));
                            assert(!piece_is_empty(s@, m as int));
                        }
                        assert(m2 == m as int);
                        assert(false);
                    }
                }
                r
            } else {
                proof {
                    if ipv6_mid_compressed(s@, n) {
                        let m2 = choose|m2: int| 1 <= m2 <= n - 2 && ipv6_mid_at(s@, n, m2);
                        if m2 < m {
                            assert(!piece_is_empty(s@, m2));
                        } else if m2 > m {
                            assert(!piece_is_empty(s@, m as int));
                        }
                        assert(m2 == m as int);
                        assert(false);
                    }
                }
                false
            }
        },
    }
}

/// Decides `valid_ipv6` for `s`.
pub fn is_valid_ipv6(s: &str) -> (b: bool)
    ensures
        b == valid_ipv6(s@),
{
    let ps = char_positions(s, ':');
    proof {
        lemma_positions_of(s@, ':');
    }
    if ps.len() > 8 {
        return false;
    }
    let np = ps.len() + 1;
    let c_full = if np == 8 {
        pieces_nonempty_ok(s, &ps, 0, 8) && pieces_hex_ok(s, &ps, 0, 8)
    } else if np == 7 {
        pieces_nonempty_ok(s, &ps, 0, 7) && pieces_hex_ok(s, &ps, 0, 6) && ipv4_piece_ok(s, &ps, 6)
    } else {
        false
    };
    let c_unspec = np == 3 && piece_empty_ok(s, &ps, 0) && piece_empty_ok(s, &ps, 1)
        && piece_empty_ok(s, &ps, 2);
    let c_lead = np >= 3 && piece_empty_ok(s, &ps, 0) && piece_empty_ok(s, &ps, 1)
        && pieces_nonempty_ok(s, &ps, 2, np) && ((np - 2 <= 7 && pieces_hex_ok(s, &ps, 2, np)) || (
    np - 1 <= 7 && pieces_hex_ok(s, &ps, 2, np - 1) && ipv4_piece_ok(s, &ps, np - 1)));
    let c_trail = np >= 3 && piece_empty_ok(s, &ps, np - 1) && piece_empty_ok(s, &ps, np - 2)
        && pieces_nonempty_ok(s, &ps, 0, np - 2) && np - 2 <= 7 && pieces_hex_ok(s, &ps, 0, np - 2);
    let c_mid = mid_case_ok(s, &ps);
    c_full || c_unspec || c_lead || c_trail || c_mid
}

/// A host accepted by the validator: `localhost` or an IP literal.
pub open spec fn valid_host(t: Seq<char>) -> bool {
    ||| t == "localhost"@
    ||| valid_ipv4(t)
    ||| valid_ipv6(t)
}

/// Decides `valid_host` for `s`.
pub fn is_valid_host(s: &str) -> (b: bool)
    ensures
        b == valid_host(s@),
{
    let lh: String = "localhost".to_owned();
    if s.to_owned() == lh {
        return true;
    }
    is_valid_ipv4(s) || is_valid_ipv6(s)
}

} // verus!
