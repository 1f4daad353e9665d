//! Reading TIP text does not depend on the case of its letters: hex digits are
//! read in either case, and the separators are not letters.
use vstd::prelude::*;
use crate::hex::{hex_value, digits_value, is_hex_byte, hex_byte_value};
use crate::switcher::{ascii_lower, ascii_ci_eq};
use crate::text::str_boundary;
use crate::tip::{
    find_byte, lemma_find_byte, split_on, lead_braces, trail_braces, trim_braces, tail_pairs,
    guid_outcome, tip_outcome,
};

verus! {

/// A byte that is not an ASCII letter.
pub open spec fn not_letter(c: u8) -> bool {
    !(0x41 <= c <= 0x5a) && !(0x61 <= c <= 0x7a)
}

/// Two bytes equal but for case are equal, or both letters; they are hex
/// digits of the same value or neither, and neither continues a UTF-8 character
/// unless both do.
proof fn lemma_byte_pair(x: u8, y: u8)
    requires
        ascii_lower(x) == ascii_lower(y),
    ensures
        x == y || (!not_letter(x) && !not_letter(y)),
        is_hex_byte(x) == is_hex_byte(y),
        is_hex_byte(x) ==> hex_byte_value(x) == hex_byte_value(y),
        (0x80 <= x <= 0xbf) == (0x80 <= y <= 0xbf),
{
}

proof fn lemma_ci_bytes(a: Seq<u8>, b: Seq<u8>)
    requires
        ascii_ci_eq(a, b),
    ensures
        forall|i: int|
            0 <= i < a.len() ==> (#[trigger] a[i] == b[i] || (!not_letter(a[i]) && !not_letter(b[i])))
                && is_hex_byte(a[i]) == is_hex_byte(b[i]) && (is_hex_byte(a[i]) ==> hex_byte_value(a[i])
                == hex_byte_value(b[i])) && (0x80 <= a[i] <= 0xbf) == (0x80 <= b[i] <= 0xbf),
{
    assert forall|i: int| 0 <= i < a.len() implies (#[trigger] a[i] == b[i] || (!not_letter(a[i])
        && !not_letter(b[i]))) && is_hex_byte(a[i]) == is_hex_byte(b[i]) && (is_hex_byte(a[i])
        ==> hex_byte_value(a[i]) == hex_byte_value(b[i])) && (0x80 <= a[i] <= 0xbf) == (0x80 <= b[i]
        <= 0xbf) by {
        lemma_byte_pair(a[i], b[i]);
    }
}

proof fn lemma_ci_sub(a: Seq<u8>, b: Seq<u8>, i: int, j: int)
    requires
        ascii_ci_eq(a, b),
        0 <= i <= j <= a.len(),
    ensures
        ascii_ci_eq(a.subrange(i, j), b.subrange(i, j)),
{
    assert forall|k: int| 0 <= k < j - i implies ascii_lower(a.subrange(i, j)[k]) == ascii_lower(
        b.subrange(i, j)[k],
    ) by {
        assert(a.subrange(i, j)[k] == a[i + k]);
        assert(b.subrange(i, j)[k] == b[i + k]);
    }
}

proof fn lemma_ci_concat(a: Seq<u8>, b: Seq<u8>, c: Seq<u8>, d: Seq<u8>)
    requires
        ascii_ci_eq(a, b),
        ascii_ci_eq(c, d),
    ensures
        ascii_ci_eq(a + c, b + d),
{
    assert forall|k: int| 0 <= k < (a + c).len() implies ascii_lower((a + c)[k]) == ascii_lower(
        (b + d)[k],
    ) by {
        if k < a.len() {
            assert((a + c)[k] == a[k] && (b + d)[k] == b[k]);
        } else {
            assert((a + c)[k] == c[k - a.len()] && (b + d)[k] == d[k - a.len()]);
        }
    }
}

proof fn lemma_ci_find(a: Seq<u8>, b: Seq<u8>, c: u8)
    requires
        ascii_ci_eq(a, b),
        not_letter(c),
    ensures
        find_byte(a, c) == find_byte(b, c),
    decreases a.len(),
{
    if a.len() > 0 {
        lemma_ci_bytes(a, b);
        assert(a[0] == b[0] || (!not_letter(a[0]) && !not_letter(b[0])));
        lemma_ci_sub(a, b, 1, a.len() as int);
        assert(a.drop_first() =~= a.subrange(1, a.len() as int));
        assert(b.drop_first() =~= b.subrange(1, b.len() as int));
        lemma_ci_find(a.drop_first(), b.drop_first(), c);
    }
}

proof fn lemma_ci_digits(a: Seq<u8>, b: Seq<u8>, max: nat)
    requires
        ascii_ci_eq(a, b),
    ensures
        digits_value(a, max) == digits_value(b, max),
    decreases a.len(),
{
    if a.len() > 0 {
        lemma_ci_bytes(a, b);
        assert(is_hex_byte(a[a.len() - 1]) == is_hex_byte(b[b.len() - 1]));
        lemma_ci_sub(a, b, 0, a.len() - 1);
        assert(a.drop_last() =~= a.subrange(0, a.len() - 1));
        assert(b.drop_last() =~= b.subrange(0, b.len() - 1));
        lemma_ci_digits(a.drop_last(), b.drop_last(), max);
    }
}

proof fn lemma_ci_hex(a: Seq<u8>, b: Seq<u8>, max: nat)
    requires
        ascii_ci_eq(a, b),
    ensures
        hex_value(a, max) == hex_value(b, max),
{
    lemma_ci_digits(a, b, max);
    if a.len() > 0 {
        lemma_ci_bytes(a, b);
        assert(a[0] == b[0] || (!not_letter(a[0]) && !not_letter(b[0])));
        lemma_ci_sub(a, b, 1, a.len() as int);
        assert(a.drop_first() =~= a.subrange(1, a.len() as int));
        assert(b.drop_first() =~= b.subrange(1, b.len() as int));
        lemma_ci_digits(a.drop_first(), b.drop_first(), max);
    }
}

proof fn lemma_ci_lead(a: Seq<u8>, b: Seq<u8>)
    requires
        ascii_ci_eq(a, b),
    ensures
        lead_braces(a) == lead_braces(b),
    decreases a.len(),
{
    if a.len() > 0 {
        lemma_ci_bytes(a, b);
        assert(a[0] == b[0] || (!not_letter(a[0]) && !not_letter(b[0])));
        lemma_ci_sub(a, b, 1, a.len() as int);
        assert(a.drop_first() =~= a.subrange(1, a.len() as int));
        assert(b.drop_first() =~= b.subrange(1, b.len() as int));
        lemma_ci_lead(a.drop_first(), b.drop_first());
    }
}

proof fn lemma_ci_trail(a: Seq<u8>, b: Seq<u8>)
    requires
        ascii_ci_eq(a, b),
    ensures
        trail_braces(a) == trail_braces(b),
    decreases a.len(),
{
    if a.len() > 0 {
        lemma_ci_bytes(a, b);
        assert(a[a.len() - 1] == b[b.len() - 1] || (!not_letter(a[a.len() - 1]) && !not_letter(
            b[b.len() - 1],
        )));
        lemma_ci_sub(a, b, 0, a.len() - 1);
        assert(a.drop_last() =~= a.subrange(0, a.len() - 1));
        assert(b.drop_last() =~= b.subrange(0, b.len() - 1));
        lemma_ci_trail(a.drop_last(), b.drop_last());
    }
}

proof fn lemma_ci_trim_braces(a: Seq<u8>, b: Seq<u8>)
    requires
        ascii_ci_eq(a, b),
    ensures
        ascii_ci_eq(trim_braces(a), trim_braces(b)),
{
    lemma_ci_lead(a, b);
    crate::tip::lemma_lead_braces(a);
    let k = lead_braces(a) as int;
    lemma_ci_sub(a, b, k, a.len() as int);
    let r = a.skip(k);
    let s = b.skip(k);
    assert(r =~= a.subrange(k, a.len() as int));
    assert(s =~= b.subrange(k, b.len() as int));
    lemma_ci_trail(r, s);
    crate::tip::lemma_trail_braces(r);
    lemma_ci_sub(r, s, 0, r.len() - trail_braces(r));
    assert(r.take(r.len() - trail_braces(r)) =~= r.subrange(0, r.len() - trail_braces(r)));
    assert(s.take(s.len() - trail_braces(s)) =~= s.subrange(0, s.len() - trail_braces(s)));
}

proof fn lemma_ci_split(a: Seq<u8>, b: Seq<u8>, c: u8)
    requires
        ascii_ci_eq(a, b),
        not_letter(c),
    ensures
        split_on(a, c).len() == split_on(b, c).len(),
        forall|k: int|
            0 <= k < split_on(a, c).len() ==> ascii_ci_eq(
                #[trigger] split_on(a, c)[k],
                split_on(b, c)[k],
            ),
    decreases a.len(),
{
    lemma_ci_find(a, b, c);
    lemma_find_byte(a, c);
    match find_byte(a, c) {
        None => {},
        Some(i) => {
            lemma_ci_sub(a, b, 0, i);
            lemma_ci_sub(a, b, i + 1, a.len() as int);
            assert(a.take(i) =~= a.subrange(0, i));
            assert(b.take(i) =~= b.subrange(0, i));
            assert(a.skip(i + 1) =~= a.subrange(i + 1, a.len() as int));
            assert(b.skip(i + 1) =~= b.subrange(i + 1, b.len() as int));
            lemma_ci_split(a.skip(i + 1), b.skip(i + 1), c);
            let sa = split_on(a, c);
            let sb = split_on(b, c);
            assert forall|k: int| 0 <= k < sa.len() implies ascii_ci_eq(#[trigger] sa[k], sb[k]) by {
                if k > 0 {
                    assert(sa[k] == split_on(a.skip(i + 1), c)[k - 1]);
                    assert(sb[k] == split_on(b.skip(i + 1), c)[k - 1]);
                }
            }
        },
    }
}

proof fn lemma_ci_tail(a: Seq<u8>, b: Seq<u8>, i: nat)
    requires
        ascii_ci_eq(a, b),
    ensures
        tail_pairs(a, i) == tail_pairs(b, i),
    decreases 8 - i,
{
    if i < 8 {
        lemma_ci_bytes(a, b);
        let k = 2 * i as int;
        assert(str_boundary(a, k) == str_boundary(b, k));
        assert(str_boundary(a, k + 2) == str_boundary(b, k + 2));
        if str_boundary(a, k) && str_boundary(a, k + 2) && k + 2 <= a.len() {
            lemma_ci_sub(a, b, k, k + 2);
            lemma_ci_hex(a.subrange(k, k + 2), b.subrange(k, k + 2), 0xff);
        }
        lemma_ci_tail(a, b, i + 1);
    }
}

/// A GUID that reads gives the same GUID with its letters in another case.
pub proof fn lemma_guid_case_insensitive(a: Seq<u8>, b: Seq<u8>)
    requires
        ascii_ci_eq(a, b),
        guid_outcome(a) matches Some(Ok(_)),
    ensures
        guid_outcome(b) == guid_outcome(a),
{
    lemma_ci_trim_braces(a, b);
    let t = trim_braces(a);
    let u = trim_braces(b);
    lemma_ci_split(t, u, 0x2d);
    let pa = split_on(t, 0x2d);
    let pb = split_on(u, 0x2d);
    assert(pa.len() == 5);
    assert(ascii_ci_eq(pa[0], pb[0]) && ascii_ci_eq(pa[1], pb[1]) && ascii_ci_eq(pa[2], pb[2]));
    assert(ascii_ci_eq(pa[3], pb[3]) && ascii_ci_eq(pa[4], pb[4]));
    lemma_ci_hex(pa[0], pb[0], 0xffff_ffff);
    lemma_ci_hex(pa[1], pb[1], 0xffff);
    lemma_ci_hex(pa[2], pb[2], 0xffff);
    lemma_ci_concat(pa[3], pb[3], pa[4], pb[4]);
    lemma_ci_tail(pa[3] + pa[4], pb[3] + pb[4], 0);
}

/// Reading TIP text does not depend on the case of its ASCII letters: text that
/// reads gives the same language and GUIDs once lower- or upper-cased.
pub proof fn lemma_tip_case_insensitive(a: Seq<u8>, b: Seq<u8>)
    requires
        ascii_ci_eq(a, b),
        tip_outcome(a) matches Some(Ok(_)),
    ensures
        tip_outcome(b) == tip_outcome(a),
{
    lemma_ci_find(a, b, 0x3a);
    lemma_find_byte(a, 0x3a);
    lemma_ci_sub(a, b, 0, 4);
    assert(a.take(4) =~= a.subrange(0, 4));
    assert(b.take(4) =~= b.subrange(0, 4));
    lemma_ci_hex(a.take(4), b.take(4), 0xffff);
    lemma_ci_find(a, b, 0x7b);
    lemma_ci_find(a, b, 0x7d);
    lemma_find_byte(a, 0x7b);
    lemma_find_byte(a, 0x7d);
    let open1 = find_byte(a, 0x7b)->Some_0;
    let close1 = find_byte(a, 0x7d)->Some_0;
    lemma_ci_sub(a, b, close1, a.len() as int);
    assert(a.skip(close1) =~= a.subrange(close1, a.len() as int));
    assert(b.skip(close1) =~= b.subrange(close1, b.len() as int));
    lemma_ci_find(a.skip(close1), b.skip(close1), 0x7b);
    lemma_find_byte(a.skip(close1), 0x7b);
    let open2 = find_byte(a.skip(close1), 0x7b)->Some_0 + close1;
    lemma_ci_sub(a, b, open2, a.len() as int);
    assert(a.skip(open2) =~= a.subrange(open2, a.len() as int));
    assert(b.skip(open2) =~= b.subrange(open2, b.len() as int));
    lemma_ci_find(a.skip(open2), b.skip(open2), 0x7d);
    lemma_find_byte(a.skip(open2), 0x7d);
    let close2 = find_byte(a.skip(open2), 0x7d)->Some_0 + open2;
    lemma_ci_sub(a, b, open1 + 1, close1);
    lemma_guid_case_insensitive(a.subrange(open1 + 1, close1), b.subrange(open1 + 1, close1));
    lemma_ci_sub(a, b, open2 + 1, close2);
    lemma_guid_case_insensitive(a.subrange(open2 + 1, close2), b.subrange(open2 + 1, close2));
}

} // verus!
