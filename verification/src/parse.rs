//! Line parsing and canonical reordering.
//!
//! A reading line is a fixed-width bracketed list of exactly three groups,
//! each `[<2-hex-digit-id>:<4-hex-digit-value>]`, with the opening bracket of
//! the first group at character offset 0 and the closing bracket of the last
//! group at offset 26. Only those two brackets and the six hex fields are
//! checked; the separator characters between the fields are not inspected.

use vstd::prelude::*;

verus! {

/// True for the ASCII hexadecimal digits `0`-`9`, `a`-`f`, `A`-`F`.
pub open spec fn is_hex_digit(c: char) -> bool {
    let u = c as u32;
    (48 <= u && u <= 57) || (97 <= u && u <= 102) || (65 <= u && u <= 70)
}

/// Numeric value of a hexadecimal digit character (0..16 on hex digits).
pub open spec fn hex_digit_value(c: char) -> int {
    let u = c as u32;
    if 48 <= u && u <= 57 {
        u - 48
    } else if 97 <= u && u <= 102 {
        u - 87
    } else {
        u - 55
    }
}

/// Value of the two-hex-digit field starting at `at`, or `None` if either
/// character is not a hex digit.
pub open spec fn parse_hex2(s: Seq<char>, at: int) -> Option<u8>
    recommends
        0 <= at && at + 2 <= s.len(),
{
    if is_hex_digit(s[at]) && is_hex_digit(s[at + 1]) {
        Some((16 * hex_digit_value(s[at]) + hex_digit_value(s[at + 1])) as u8)
    } else {
        None
    }
}

/// Value of the four-hex-digit field starting at `at`, or `None` if any
/// character is not a hex digit.
pub open spec fn parse_hex4(s: Seq<char>, at: int) -> Option<u16>
    recommends
        0 <= at && at + 4 <= s.len(),
{
    if is_hex_digit(s[at]) && is_hex_digit(s[at + 1]) && is_hex_digit(s[at + 2]) && is_hex_digit(
        s[at + 3],
    ) {
        Some(
            (4096 * hex_digit_value(s[at]) + 256 * hex_digit_value(s[at + 1]) + 16
                * hex_digit_value(s[at + 2]) + hex_digit_value(s[at + 3])) as u16,
        )
    } else {
        None
    }
}

/// The (id, value) pair of the group whose opening bracket sits at `base`:
/// id at `base + 1`, value at `base + 4`.
pub open spec fn parse_group(s: Seq<char>, base: int) -> Option<(u8, u16)>
    recommends
        0 <= base && base + 8 <= s.len(),
{
    match (parse_hex2(s, base + 1), parse_hex4(s, base + 4)) {
        (Some(id), Some(v)) => Some((id, v)),
        _ => None,
    }
}

/// Parse of one whole (already trimmed) line into its three (id, value)
/// pairs in line order. `None` exactly when the line is too short, the first
/// character is not `[`, the character at offset 26 is not `]`, or any hex
/// field fails to parse.
pub open spec fn parse_line(s: Seq<char>) -> Option<Seq<(u8, u16)>> {
    if s.len() < 27 {
        None
    } else if s[0] != '[' || s[26] != ']' {
        None
    } else {
        match (parse_group(s, 0), parse_group(s, 9), parse_group(s, 18)) {
            (Some(p0), Some(p1), Some(p2)) => Some(seq![p0, p1, p2]),
            _ => None,
        }
    }
}

/// Decode one hex digit character; `Some` exactly on hex digits.
fn hex_digit(c: char) -> (r: Option<u8>)
    ensures
        r is Some <==> is_hex_digit(c),
        r is Some ==> r->Some_0 == hex_digit_value(c),
{
    let u = c as u32;
    if 48 <= u && u <= 57 {
        Some((u - 48) as u8)
    } else if 97 <= u && u <= 102 {
        Some((u - 87) as u8)
    } else if 65 <= u && u <= 70 {
        Some((u - 55) as u8)
    } else {
        None
    }
}

/// Read the two-hex-digit field at `at`.
fn read_hex2(line: &str, at: usize) -> (r: Option<u8>)
    requires
        at + 2 <= line@.len(),
        line@.len() <= usize::MAX,
    ensures
        r == parse_hex2(line@, at as int),
{
    let c0 = line.get_char(at);
    let c1 = line.get_char(at + 1);
    match (hex_digit(c0), hex_digit(c1)) {
        (Some(h), Some(l)) => Some(16 * h + l),
        _ => None,
    }
}

/// Read the four-hex-digit field at `at`.
fn read_hex4(line: &str, at: usize) -> (r: Option<u16>)
    requires
        at + 4 <= line@.len(),
        line@.len() <= usize::MAX,
    ensures
        r == parse_hex4(line@, at as int),
{
    let c0 = line.get_char(at);
    let c1 = line.get_char(at + 1);
    let c2 = line.get_char(at + 2);
    let c3 = line.get_char(at + 3);
    match (hex_digit(c0), hex_digit(c1), hex_digit(c2), hex_digit(c3)) {
        (Some(a), Some(b), Some(c), Some(d)) => Some(
            4096 * (a as u16) + 256 * (b as u16) + 16 * (c as u16) + (d as u16),
        ),
        _ => None,
    }
}

/// Read the (id, value) pair of the group at `base`.
fn read_group(line: &str, base: usize) -> (r: Option<(u8, u16)>)
    requires
        base + 8 <= line@.len(),
        line@.len() <= usize::MAX,
    ensures
        r == parse_group(line@, base as int),
{
    match (read_hex2(line, base + 1), read_hex4(line, base + 4)) {
        (Some(id), Some(v)) => Some((id, v)),
        _ => None,
    }
}

/// Decode one trimmed text line into its three (id, value) pairs in line
/// order; `None` on any malformed line, exactly as [`parse_line`] says.
pub fn string_to_temps(line: &str) -> (r: Option<[(u8, u16); 3]>)
    ensures
        match r {
            Some(pairs) => parse_line(line@) == Some(pairs@),
            None => parse_line(line@) is None,
        },
{
    let n = line.unicode_len();
    if n < 27 {
        return None;
    }
    if line.get_char(0) != '[' {
        return None;
    }
    if line.get_char(26) != ']' {
        return None;
    }
    match (read_group(line, 0), read_group(line, 9), read_group(line, 18)) {
        (Some(p0), Some(p1), Some(p2)) => {
            let pairs = [p0, p1, p2];
            proof {
                assert(pairs@ =~= seq![p0, p1, p2]);
            }
            Some(pairs)
        },
        _ => None,
    }
}

/// The values of the pairs in `temps` whose id equals `addr`, in line order.
pub open spec fn values_for(temps: Seq<(u8, u16)>, addr: u8) -> Seq<u16>
    decreases temps.len(),
{
    if temps.len() == 0 {
        Seq::empty()
    } else {
        values_for(temps.drop_last(), addr) + (if temps.last().0 == addr {
            seq![temps.last().1]
        } else {
            Seq::empty()
        })
    }
}

/// All matched values, grouped by canonical id in canonical order.
pub open spec fn gathered(temps: Seq<(u8, u16)>, addrs: Seq<u8>) -> Seq<u16>
    decreases addrs.len(),
{
    if addrs.len() == 0 {
        Seq::empty()
    } else {
        gathered(temps, addrs.drop_last()) + values_for(temps, addrs.last())
    }
}

/// Canonical reordering of the parsed pairs: the concatenated matches for
/// each canonical id, accepted only when the matched count is exactly 3.
/// Duplicate ids inflate the matched count and so are rejected.
pub open spec fn map_to_canonical(temps: Seq<(u8, u16)>, addrs: Seq<u8>) -> Option<Seq<u16>> {
    let g = gathered(temps, addrs);
    if g.len() == 3 {
        Some(g)
    } else {
        None
    }
}

/// Reorder the parsed pairs into the canonical sensor order given by
/// `addr_arr`; `None` unless the matched count is exactly 3, as
/// [`map_to_canonical`] says.
pub fn map_tr_to_arr(temps: [(u8, u16); 3], addr_arr: [u8; 3]) -> (r: Option<[u16; 3]>)
    ensures
        match r {
            Some(vals) => map_to_canonical(temps@, addr_arr@) == Some(vals@),
            None => map_to_canonical(temps@, addr_arr@) is None,
        },
{
    let mut out: Vec<u16> = Vec::new();
    let mut ai: usize = 0;
    while ai < 3
        invariant
            ai <= 3,
            out@ =~= gathered(temps@, addr_arr@.subrange(0, ai as int)),
        decreases 3 - ai,
    {
        let addr = addr_arr[ai];
        let mut ti: usize = 0;
        while ti < 3
            invariant
                ai < 3,
                ti <= 3,
                addr == addr_arr@[ai as int],
                out@ =~= gathered(temps@, addr_arr@.subrange(0, ai as int)) + values_for(
                    temps@.subrange(0, ti as int),
                    addr,
                ),
            decreases 3 - ti,
        {
            proof {
                assert(temps@.subrange(0, ti + 1).drop_last() =~= temps@.subrange(0, ti as int));
                assert(temps@.subrange(0, ti + 1).last() == temps@[ti as int]);
            }
            if temps[ti].0 == addr {
                out.push(temps[ti].1);
            }
            ti += 1;
        }
        proof {
            assert(temps@.subrange(0, 3) =~= temps@);
            assert(addr_arr@.subrange(0, ai + 1).drop_last() =~= addr_arr@.subrange(0, ai as int));
        }
        ai += 1;
    }
    proof {
        assert(addr_arr@.subrange(0, 3) =~= addr_arr@);
    }
    if out.len() == 3 {
        let vals = [out[0], out[1], out[2]];
        proof {
            assert(vals@ =~= out@);
        }
        Some(vals)
    } else {
        None
    }
}

/// Lowercase hexadecimal digit character for a value below 16.
pub open spec fn hex_char_of(d: int) -> char {
    if d == 0 {
        '0'
    } else if d == 1 {
        '1'
    } else if d == 2 {
        '2'
    } else if d == 3 {
        '3'
    } else if d == 4 {
        '4'
    } else if d == 5 {
        '5'
    } else if d == 6 {
        '6'
    } else if d == 7 {
        '7'
    } else if d == 8 {
        '8'
    } else if d == 9 {
        '9'
    } else if d == 10 {
        'a'
    } else if d == 11 {
        'b'
    } else if d == 12 {
        'c'
    } else if d == 13 {
        'd'
    } else if d == 14 {
        'e'
    } else {
        'f'
    }
}

/// The nine characters of one bracketed group for the pair `p`.
pub open spec fn group_chars(p: (u8, u16)) -> Seq<char> {
    seq![
        '[',
        hex_char_of(p.0 as int / 16),
        hex_char_of(p.0 as int % 16),
        ':',
        hex_char_of(p.1 as int / 4096),
        hex_char_of((p.1 as int / 256) % 16),
        hex_char_of((p.1 as int / 16) % 16),
        hex_char_of(p.1 as int % 16),
        ']',
    ]
}

/// The 27 characters of a valid line built from three pairs in line order.
pub open spec fn line_of(p0: (u8, u16), p1: (u8, u16), p2: (u8, u16)) -> Seq<char> {
    group_chars(p0) + group_chars(p1) + group_chars(p2)
}

/// The value paired with id `a` among three pairs (the first match).
pub open spec fn value_of(pairs: Seq<(u8, u16)>, a: u8) -> u16 {
    if pairs[0].0 == a {
        pairs[0].1
    } else if pairs[1].0 == a {
        pairs[1].1
    } else {
        pairs[2].1
    }
}

proof fn lemma_hex_digit_roundtrip(d: int)
    requires
        0 <= d < 16,
    ensures
        is_hex_digit(hex_char_of(d)),
        hex_digit_value(hex_char_of(d)) == d,
{
}

proof fn lemma_u8_digits(v: int)
    requires
        0 <= v < 256,
    ensures
        0 <= v / 16 < 16,
        0 <= v % 16 < 16,
        v == 16 * (v / 16) + v % 16,
{
    vstd::arithmetic::div_mod::lemma_fundamental_div_mod(v, 16);
}

proof fn lemma_u16_digits(v: int)
    requires
        0 <= v < 65536,
    ensures
        0 <= v / 4096 < 16,
        0 <= (v / 256) % 16 < 16,
        0 <= (v / 16) % 16 < 16,
        0 <= v % 16 < 16,
        v == 4096 * (v / 4096) + 256 * ((v / 256) % 16) + 16 * ((v / 16) % 16) + v % 16,
{
    vstd::arithmetic::div_mod::lemma_fundamental_div_mod(v, 16);
    vstd::arithmetic::div_mod::lemma_fundamental_div_mod(v / 16, 16);
    vstd::arithmetic::div_mod::lemma_fundamental_div_mod(v / 256, 16);
    vstd::arithmetic::div_mod::lemma_div_denominator(v, 16, 16);
    vstd::arithmetic::div_mod::lemma_div_denominator(v, 256, 16);
    assert(v / 16 / 16 == v / 256);
    assert(v / 256 / 16 == v / 4096);
}

proof fn lemma_group_decodes(s: Seq<char>, base: int, p: (u8, u16))
    requires
        0 <= base,
        base + 9 <= s.len(),
        forall|k: int| 0 <= k < 9 ==> s[base + k] == group_chars(p)[k],
    ensures
        parse_group(s, base) == Some(p),
{
    lemma_u8_digits(p.0 as int);
    lemma_u16_digits(p.1 as int);
    lemma_hex_digit_roundtrip(p.0 as int / 16);
    lemma_hex_digit_roundtrip(p.0 as int % 16);
    lemma_hex_digit_roundtrip(p.1 as int / 4096);
    lemma_hex_digit_roundtrip((p.1 as int / 256) % 16);
    lemma_hex_digit_roundtrip((p.1 as int / 16) % 16);
    lemma_hex_digit_roundtrip(p.1 as int % 16);
    assert(s[base + 1] == group_chars(p)[1]);
    assert(s[base + 2] == group_chars(p)[2]);
    assert(s[base + 4] == group_chars(p)[4]);
    assert(s[base + 5] == group_chars(p)[5]);
    assert(s[base + 6] == group_chars(p)[6]);
    assert(s[base + 7] == group_chars(p)[7]);
    assert(parse_hex2(s, base + 1) == Some(p.0));
    assert(parse_hex4(s, base + 4) == Some(p.1));
}

proof fn lemma_values_for_single(pairs: Seq<(u8, u16)>, a: u8)
    requires
        pairs.len() == 3,
        pairs[0].0 != pairs[1].0,
        pairs[0].0 != pairs[2].0,
        pairs[1].0 != pairs[2].0,
        a == pairs[0].0 || a == pairs[1].0 || a == pairs[2].0,
    ensures
        values_for(pairs, a) == seq![value_of(pairs, a)],
{
    let s2 = pairs.drop_last();
    let s1 = s2.drop_last();
    let s0 = s1.drop_last();
    assert(s0.len() == 0);
    assert(values_for(s0, a) == Seq::<u16>::empty());
    assert(s1.last() == pairs[0]);
    assert(s2.last() == pairs[1]);
    assert(values_for(s1, a) == values_for(s0, a) + (if pairs[0].0 == a {
        seq![pairs[0].1]
    } else {
        Seq::<u16>::empty()
    }));
    assert(values_for(s2, a) == values_for(s1, a) + (if pairs[1].0 == a {
        seq![pairs[1].1]
    } else {
        Seq::<u16>::empty()
    }));
    assert(values_for(pairs, a) == values_for(s2, a) + (if pairs[2].0 == a {
        seq![pairs[2].1]
    } else {
        Seq::<u16>::empty()
    }));
    assert(values_for(pairs, a) =~= seq![value_of(pairs, a)]);
}

/// Parser round trip: decoding a line built from three (id, value) pairs in
/// any line order, then reordering by a canonical id list that is a
/// permutation of those ids, reproduces the three values in canonical
/// order.
pub proof fn lemma_parser_round_trip(pairs: Seq<(u8, u16)>, addrs: Seq<u8>)
    requires
        pairs.len() == 3,
        addrs.len() == 3,
        pairs[0].0 != pairs[1].0,
        pairs[0].0 != pairs[2].0,
        pairs[1].0 != pairs[2].0,
        addrs[0] != addrs[1],
        addrs[0] != addrs[2],
        addrs[1] != addrs[2],
        forall|i: int|
            0 <= i < 3 ==> (#[trigger] addrs[i] == pairs[0].0 || addrs[i] == pairs[1].0
                || addrs[i] == pairs[2].0),
    ensures
        parse_line(line_of(pairs[0], pairs[1], pairs[2])) == Some(pairs),
        map_to_canonical(pairs, addrs) == Some(
            seq![value_of(pairs, addrs[0]), value_of(pairs, addrs[1]), value_of(pairs, addrs[2])],
        ),
{
    let s = line_of(pairs[0], pairs[1], pairs[2]);
    let g0 = group_chars(pairs[0]);
    let g1 = group_chars(pairs[1]);
    let g2 = group_chars(pairs[2]);
    assert(g0.len() == 9 && g1.len() == 9 && g2.len() == 9);
    assert(s.len() == 27);
    assert forall|k: int| 0 <= k < 9 implies s[0 + k] == g0[k] by {
        assert(s[k] == g0[k]);
    }
    assert forall|k: int| 0 <= k < 9 implies s[9 + k] == g1[k] by {
        assert(s[9 + k] == g1[k]);
    }
    assert forall|k: int| 0 <= k < 9 implies s[18 + k] == g2[k] by {
        assert(s[18 + k] == g2[k]);
    }
    lemma_group_decodes(s, 0, pairs[0]);
    lemma_group_decodes(s, 9, pairs[1]);
    lemma_group_decodes(s, 18, pairs[2]);
    assert(s[0] == '[');
    assert(s[26] == ']');
    assert(parse_line(s) == Some(seq![pairs[0], pairs[1], pairs[2]]));
    assert(seq![pairs[0], pairs[1], pairs[2]] =~= pairs);

    lemma_values_for_single(pairs, addrs[0]);
    lemma_values_for_single(pairs, addrs[1]);
    lemma_values_for_single(pairs, addrs[2]);
    let a2 = addrs.drop_last();
    let a1 = a2.drop_last();
    let a0 = a1.drop_last();
    assert(a0.len() == 0);
    assert(gathered(pairs, a0) == Seq::<u16>::empty());
    assert(a1.last() == addrs[0]);
    assert(a2.last() == addrs[1]);
    assert(gathered(pairs, a1) == gathered(pairs, a0) + values_for(pairs, addrs[0]));
    assert(gathered(pairs, a2) == gathered(pairs, a1) + values_for(pairs, addrs[1]));
    assert(gathered(pairs, addrs) == gathered(pairs, a2) + values_for(pairs, addrs[2]));
    assert(gathered(pairs, addrs) =~= seq![
        value_of(pairs, addrs[0]),
        value_of(pairs, addrs[1]),
        value_of(pairs, addrs[2]),
    ]);
}

} // verus!
