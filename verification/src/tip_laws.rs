//! What holds of TIP text across writing and reading it.
use vstd::prelude::*;
use vstd::utf8::*;
use crate::tsf::{hkl_chars, hkl_outcome, active_tip_chars, ActiveProfile};
use crate::tip::TF_PROFILETYPE_INPUTPROCESSOR;
use crate::hex::{digits_value, hex_value, is_hex_byte, hex_byte_value};
use crate::text::{numeral, digit_count, max_nat, digit_byte, digit_char, fixed_digit_bytes, fixed_digits, hex_fixed, str_boundary, lemma_encode_concat, lemma_encode_ascii_char, lemma_encode_fixed};
use crate::tip::{find_byte, lemma_find_byte, split_on, lead_braces, trail_braces, trim_braces, tail_pairs, guid_outcome, tip_outcome, guid_chars, tip_chars, GuidV};

verus! {

pub open spec fn pow16(n: nat) -> nat
    decreases n,
{
    if n == 0 {
        1
    } else {
        16 * pow16((n - 1) as nat)
    }
}

/// Hexadecimal digits, as bytes.
pub open spec fn hexb(v: nat, n: nat) -> Seq<u8> {
    fixed_digit_bytes(v, n, 16)
}

/// The bytes of `guid_chars(g)`.
pub open spec fn guid_bytes(g: GuidV) -> Seq<u8> {
    hexb(g.0 as nat, 8) + seq![0x2du8] + hexb(g.1 as nat, 4) + seq![0x2du8] + hexb(g.2 as nat, 4)
        + seq![0x2du8] + hexb(g.3[0] as nat, 2) + hexb(g.3[1] as nat, 2) + seq![0x2du8] + hexb(
        g.3[2] as nat,
        2,
    ) + hexb(g.3[3] as nat, 2) + hexb(g.3[4] as nat, 2) + hexb(g.3[5] as nat, 2) + hexb(
        g.3[6] as nat,
        2,
    ) + hexb(g.3[7] as nat, 2)
}

/// The bytes of `tip_chars(l, c, p)`.
pub open spec fn tip_bytes(l: u16, c: GuidV, p: GuidV) -> Seq<u8> {
    hexb(l as nat, 4) + seq![0x3au8, 0x7bu8] + guid_bytes(c) + seq![0x7du8, 0x7bu8] + guid_bytes(p)
        + seq![0x7du8]
}

proof fn lemma_digit_byte(d: nat)
    requires
        d < 16,
    ensures
        is_hex_byte(digit_byte(d)),
        hex_byte_value(digit_byte(d)) == d,
        digit_char(d) as u32 == digit_byte(d) as u32,
        (digit_char(d) as u32) < 0x80,
{
}

proof fn lemma_hexb_shape(v: nat, n: nat)
    ensures
        hexb(v, n).len() == n,
        forall|i: int| 0 <= i < n ==> is_hex_byte(#[trigger] hexb(v, n)[i]),
    decreases n,
{
    if n > 0 {
        lemma_hexb_shape(v / 16, (n - 1) as nat);
        lemma_digit_byte(v % 16);
    }
}

proof fn lemma_hexb_value(v: nat, n: nat, max: nat)
    requires
        v < pow16(n),
        v <= max,
    ensures
        digits_value(hexb(v, n), max) == Ok::<nat, crate::hex::IntErrorKind>(v),
    decreases n,
{
    if n > 0 {
        let q = v / 16;
        let r = v % 16;
        assert(q < pow16((n - 1) as nat)) by (nonlinear_arith)
            requires
                v < 16 * pow16((n - 1) as nat),
                q == v / 16,
        ;
        assert(q * 16 + r == v) by (nonlinear_arith)
            requires
                q == v / 16,
                r == v % 16,
        ;
        lemma_hexb_value(q, (n - 1) as nat, max);
        lemma_digit_byte(r);
        assert(hexb(v, n).drop_last() =~= hexb(q, (n - 1) as nat));
    }
}

proof fn lemma_hexb_hex_value(v: nat, n: nat, max: nat)
    requires
        n >= 1,
        v < pow16(n),
        v <= max,
    ensures
        hex_value(hexb(v, n), max) == Ok::<nat, crate::hex::IntErrorKind>(v),
{
    lemma_hexb_shape(v, n);
    lemma_hexb_value(v, n, max);
}

proof fn lemma_pow16()
    ensures
        pow16(2) == 0x100,
        pow16(4) == 0x1_0000,
        pow16(8) == 0x1_0000_0000,
{
    reveal_with_fuel(pow16, 9);
}

proof fn lemma_encode_hex(v: nat, n: nat)
    ensures
        encode_utf8(hex_fixed(v, n)) == hexb(v, n),
{
    lemma_encode_fixed(v, n, 16);
}

proof fn lemma_encode_dash()
    ensures
        encode_utf8(seq!['-']) == seq![0x2du8],
{
    lemma_encode_ascii_char('-');
}

/// The UTF-8 of a GUID's text is `guid_bytes`.
proof fn lemma_encode_guid(g: GuidV)
    ensures
        encode_utf8(guid_chars(g)) == guid_bytes(g),
{
    let h1 = hex_fixed(g.0 as nat, 8);
    let h2 = hex_fixed(g.1 as nat, 4);
    let h3 = hex_fixed(g.2 as nat, 4);
    let b0 = hex_fixed(g.3[0] as nat, 2);
    let b1 = hex_fixed(g.3[1] as nat, 2);
    let b2 = hex_fixed(g.3[2] as nat, 2);
    let b3 = hex_fixed(g.3[3] as nat, 2);
    let b4 = hex_fixed(g.3[4] as nat, 2);
    let b5 = hex_fixed(g.3[5] as nat, 2);
    let b6 = hex_fixed(g.3[6] as nat, 2);
    let b7 = hex_fixed(g.3[7] as nat, 2);
    let d = seq!['-'];
    lemma_encode_dash();
    lemma_encode_hex(g.0 as nat, 8);
    lemma_encode_hex(g.1 as nat, 4);
    lemma_encode_hex(g.2 as nat, 4);
    lemma_encode_hex(g.3[0] as nat, 2);
    lemma_encode_hex(g.3[1] as nat, 2);
    lemma_encode_hex(g.3[2] as nat, 2);
    lemma_encode_hex(g.3[3] as nat, 2);
    lemma_encode_hex(g.3[4] as nat, 2);
    lemma_encode_hex(g.3[5] as nat, 2);
    lemma_encode_hex(g.3[6] as nat, 2);
    lemma_encode_hex(g.3[7] as nat, 2);
    let c1 = h1 + d;
    lemma_encode_concat(h1, d);
    let c2 = c1 + h2;
    lemma_encode_concat(c1, h2);
    let c3 = c2 + d;
    lemma_encode_concat(c2, d);
    let c4 = c3 + h3;
    lemma_encode_concat(c3, h3);
    let c5 = c4 + d;
    lemma_encode_concat(c4, d);
    let c6 = c5 + b0;
    lemma_encode_concat(c5, b0);
    let c7 = c6 + b1;
    lemma_encode_concat(c6, b1);
    let c8 = c7 + d;
    lemma_encode_concat(c7, d);
    let c9 = c8 + b2;
    lemma_encode_concat(c8, b2);
    let c10 = c9 + b3;
    lemma_encode_concat(c9, b3);
    let c11 = c10 + b4;
    lemma_encode_concat(c10, b4);
    let c12 = c11 + b5;
    lemma_encode_concat(c11, b5);
    let c13 = c12 + b6;
    lemma_encode_concat(c12, b6);
    lemma_encode_concat(c13, b7);
}

/// The UTF-8 of TIP text is `tip_bytes`.
pub proof fn lemma_encode_tip(l: u16, c: GuidV, p: GuidV)
    ensures
        encode_utf8(tip_chars(l, c, p)) == tip_bytes(l, c, p),
{
    let h = hex_fixed(l as nat, 4);
    let a = seq![':', '{'];
    let gc = guid_chars(c);
    let m = seq!['}', '{'];
    let gp = guid_chars(p);
    let z = seq!['}'];
    lemma_encode_hex(l as nat, 4);
    lemma_encode_guid(c);
    lemma_encode_guid(p);
    assert(a =~= seq![':'] + seq!['{']);
    assert(m =~= seq!['}'] + seq!['{']);
    lemma_encode_ascii_char(':');
    lemma_encode_ascii_char('{');
    lemma_encode_ascii_char('}');
    lemma_encode_concat(seq![':'], seq!['{']);
    lemma_encode_concat(seq!['}'], seq!['{']);
    assert(seq![':' as u8] + seq!['{' as u8] =~= seq![0x3au8, 0x7bu8]);
    assert(seq!['}' as u8] + seq!['{' as u8] =~= seq![0x7du8, 0x7bu8]);
    lemma_encode_concat(h, a);
    lemma_encode_concat(h + a, gc);
    lemma_encode_concat(h + a + gc, m);
    lemma_encode_concat(h + a + gc + m, gp);
    lemma_encode_concat(h + a + gc + m + gp, z);
}


proof fn lemma_find_at(b: Seq<u8>, x: u8, k: int)
    requires
        0 <= k < b.len(),
        b[k] == x,
        forall|j: int| 0 <= j < k ==> b[j] != x,
    ensures
        find_byte(b, x) == Some(k),
{
    lemma_find_byte(b, x);
    match find_byte(b, x) {
        Some(i) => {
            if i < k {
                assert(b[i] != x);
            }
            if i > k {
                assert(b[k] != x);
            }
        },
        None => {
            assert(b[k] != x);
        },
    }
}

proof fn lemma_split_step(a: Seq<u8>, rest: Seq<u8>)
    requires
        forall|i: int| 0 <= i < a.len() ==> a[i] != 0x2d,
    ensures
        split_on(a + seq![0x2du8] + rest, 0x2d) == seq![a] + split_on(rest, 0x2d),
{
    let b = a + seq![0x2du8] + rest;
    lemma_find_at(b, 0x2d, a.len() as int);
    assert(b.take(a.len() as int) =~= a);
    assert(b.skip(a.len() as int + 1) =~= rest);
}

proof fn lemma_split_last(a: Seq<u8>)
    requires
        forall|i: int| 0 <= i < a.len() ==> a[i] != 0x2d,
    ensures
        split_on(a, 0x2d) == seq![a],
{
    lemma_find_byte(a, 0x2d);
    match find_byte(a, 0x2d) {
        Some(i) => {
            assert(a[i] != 0x2d);
        },
        None => {},
    }
}

/// The 16 tail bytes of a GUID read back as its eight trailing bytes.
proof fn lemma_tail_pairs(t: Seq<u8>, d: Seq<u8>, i: nat)
    requires
        t.len() == 16,
        d.len() == 8,
        i <= 8,
        forall|j: int| 0 <= j < 16 ==> is_hex_byte(#[trigger] t[j]),
        forall|k: int| 0 <= k < 8 ==> #[trigger] t.subrange(2 * k, 2 * k + 2) == hexb(d[k] as nat, 2),
    ensures
        tail_pairs(t, i) == Some(Ok::<Seq<u8>, crate::hex::IntErrorKind>(d.subrange(i as int, 8))),
    decreases 8 - i,
{
    if i < 8 {
        lemma_tail_pairs(t, d, i + 1);
        lemma_pow16();
        let k = i as int;
        assert(t.subrange(2 * k, 2 * k + 2) == hexb(d[k] as nat, 2));
        lemma_hexb_hex_value(d[k] as nat, 2, 0xff);
        assert(str_boundary(t, 2 * k));
        if 2 * k + 2 < 16 {
            assert(is_hex_byte(t[2 * k + 2]));
        }
        assert(str_boundary(t, 2 * k + 2));
        assert(seq![d[k]] + d.subrange(k + 1, 8) =~= d.subrange(k, 8));
    } else {
        assert(d.subrange(8, 8) =~= Seq::<u8>::empty());
    }
}

/// A GUID's text reads back as that GUID.
pub proof fn lemma_guid_roundtrip(g: GuidV)
    requires
        g.3.len() == 8,
    ensures
        guid_outcome(guid_bytes(g)) == Some(Ok::<GuidV, crate::tip::TipError<Seq<char>>>(g)),
{
    let d = g.3;
    let h1 = hexb(g.0 as nat, 8);
    let h2 = hexb(g.1 as nat, 4);
    let h3 = hexb(g.2 as nat, 4);
    let x0 = hexb(d[0] as nat, 2);
    let x1 = hexb(d[1] as nat, 2);
    let x2 = hexb(d[2] as nat, 2);
    let x3 = hexb(d[3] as nat, 2);
    let x4 = hexb(d[4] as nat, 2);
    let x5 = hexb(d[5] as nat, 2);
    let x6 = hexb(d[6] as nat, 2);
    let x7 = hexb(d[7] as nat, 2);
    lemma_hexb_shape(g.0 as nat, 8);
    lemma_hexb_shape(g.1 as nat, 4);
    lemma_hexb_shape(g.2 as nat, 4);
    lemma_hexb_shape(d[0] as nat, 2);
    lemma_hexb_shape(d[1] as nat, 2);
    lemma_hexb_shape(d[2] as nat, 2);
    lemma_hexb_shape(d[3] as nat, 2);
    lemma_hexb_shape(d[4] as nat, 2);
    lemma_hexb_shape(d[5] as nat, 2);
    lemma_hexb_shape(d[6] as nat, 2);
    lemma_hexb_shape(d[7] as nat, 2);
    let p3 = x0 + x1;
    let p4 = x2 + x3 + x4 + x5 + x6 + x7;
    let dash = seq![0x2du8];
    let gb = guid_bytes(g);
    assert(gb =~= h1 + dash + (h2 + dash + (h3 + dash + (p3 + dash + p4))));
    assert(gb.len() == 36);
    assert(is_hex_byte(gb[0]));
    assert(is_hex_byte(gb[35]));
    assert(trim_braces(gb) =~= gb);
    assert(forall|i: int| 0 <= i < p3.len() ==> is_hex_byte(#[trigger] p3[i]));
    assert(forall|i: int| 0 <= i < p4.len() ==> is_hex_byte(#[trigger] p4[i]));
    lemma_split_last(p4);
    lemma_split_step(p3, p4);
    lemma_split_step(h3, p3 + dash + p4);
    lemma_split_step(h2, h3 + dash + (p3 + dash + p4));
    lemma_split_step(h1, h2 + dash + (h3 + dash + (p3 + dash + p4)));
    let parts = split_on(gb, 0x2d);
    assert(parts =~= seq![h1, h2, h3, p3, p4]);
    lemma_pow16();
    lemma_hexb_hex_value(g.0 as nat, 8, 0xffff_ffff);
    lemma_hexb_hex_value(g.1 as nat, 4, 0xffff);
    lemma_hexb_hex_value(g.2 as nat, 4, 0xffff);
    let tail = p3 + p4;
    assert(tail.len() == 16);
    assert(forall|j: int| 0 <= j < 16 ==> is_hex_byte(#[trigger] tail[j]));
    assert(tail.subrange(0, 2) =~= x0);
    assert(tail.subrange(2, 4) =~= x1);
    assert(tail.subrange(4, 6) =~= x2);
    assert(tail.subrange(6, 8) =~= x3);
    assert(tail.subrange(8, 10) =~= x4);
    assert(tail.subrange(10, 12) =~= x5);
    assert(tail.subrange(12, 14) =~= x6);
    assert(tail.subrange(14, 16) =~= x7);
    assert forall|k: int| 0 <= k < 8 implies #[trigger] tail.subrange(2 * k, 2 * k + 2) == hexb(
        d[k] as nat,
        2,
    ) by {
        if k == 0 {
        } else if k == 1 {
        } else if k == 2 {
        } else if k == 3 {
        } else if k == 4 {
        } else if k == 5 {
        } else if k == 6 {
        } else {
        }
    }
    lemma_tail_pairs(tail, d, 0);
    assert(d.subrange(0, 8) =~= d);
}


proof fn lemma_guid_bytes_shape(g: GuidV)
    requires
        g.3.len() == 8,
    ensures
        guid_bytes(g).len() == 36,
        forall|i: int|
            0 <= i < 36 ==> is_hex_byte(#[trigger] guid_bytes(g)[i]) || guid_bytes(g)[i] == 0x2d,
{
    let d = g.3;
    lemma_hexb_shape(g.0 as nat, 8);
    lemma_hexb_shape(g.1 as nat, 4);
    lemma_hexb_shape(g.2 as nat, 4);
    lemma_hexb_shape(d[0] as nat, 2);
    lemma_hexb_shape(d[1] as nat, 2);
    lemma_hexb_shape(d[2] as nat, 2);
    lemma_hexb_shape(d[3] as nat, 2);
    lemma_hexb_shape(d[4] as nat, 2);
    lemma_hexb_shape(d[5] as nat, 2);
    lemma_hexb_shape(d[6] as nat, 2);
    lemma_hexb_shape(d[7] as nat, 2);
}

/// TIP bytes read back as the language and GUIDs they were written from.
proof fn lemma_tip_bytes_roundtrip(l: u16, c: GuidV, p: GuidV)
    requires
        c.3.len() == 8,
        p.3.len() == 8,
    ensures
        tip_outcome(tip_bytes(l, c, p)) == Some(
            Ok::<(u16, GuidV, GuidV), crate::tip::TipError<Seq<char>>>((l, c, p)),
        ),
{
    let h = hexb(l as nat, 4);
    let gc = guid_bytes(c);
    let gp = guid_bytes(p);
    lemma_hexb_shape(l as nat, 4);
    lemma_guid_bytes_shape(c);
    lemma_guid_bytes_shape(p);
    let t = tip_bytes(l, c, p);
    assert(t.len() == 81);
    assert(forall|j: int| 0 <= j < 4 ==> t[j] == h[j]);
    assert(forall|j: int| 6 <= j < 42 ==> t[j] == gc[j - 6]);
    assert(forall|j: int| 44 <= j < 80 ==> t[j] == gp[j - 44]);
    assert(t[4] == 0x3a && t[5] == 0x7b && t[42] == 0x7d && t[43] == 0x7b && t[80] == 0x7d);
    lemma_find_at(t, 0x3a, 4);
    assert(t.take(4) =~= h);
    lemma_pow16();
    lemma_hexb_hex_value(l as nat, 4, 0xffff);
    lemma_find_at(t, 0x7b, 5);
    lemma_find_at(t, 0x7d, 42);
    lemma_find_at(t.skip(42), 0x7b, 1);
    lemma_find_at(t.skip(43), 0x7d, 37);
    assert(t.subrange(6, 42) =~= gc);
    assert(t.subrange(44, 80) =~= gp);
    lemma_guid_roundtrip(c);
    lemma_guid_roundtrip(p);
}

/// Writing an input method's TIP text and reading it back gives the same
/// language and GUIDs: the text is interchangeable with the values.
pub proof fn lemma_tip_roundtrip(langid: u16, clsid: GuidV, profile: GuidV)
    requires
        clsid.3.len() == 8,
        profile.3.len() == 8,
    ensures
        tip_outcome(encode_utf8(tip_chars(langid, clsid, profile))) == Some(
            Ok::<(u16, GuidV, GuidV), crate::tip::TipError<Seq<char>>>((langid, clsid, profile)),
        ),
{
    lemma_encode_tip(langid, clsid, profile);
    lemma_tip_bytes_roundtrip(langid, clsid, profile);
}

/// Two input methods have the same TIP text only if they are the same.
pub proof fn lemma_tip_injective(l1: u16, c1: GuidV, p1: GuidV, l2: u16, c2: GuidV, p2: GuidV)
    requires
        c1.3.len() == 8,
        p1.3.len() == 8,
        c2.3.len() == 8,
        p2.3.len() == 8,
        tip_chars(l1, c1, p1) == tip_chars(l2, c2, p2),
    ensures
        l1 == l2,
        c1 == c2,
        p1 == p2,
{
    lemma_tip_roundtrip(l1, c1, p1);
    lemma_tip_roundtrip(l2, c2, p2);
}


proof fn lemma_tail_pairs_len(t: Seq<u8>, i: nat)
    requires
        i <= 8,
    ensures
        tail_pairs(t, i) matches Some(Ok(d)) ==> d.len() == 8 - i,
    decreases 8 - i,
{
    if i < 8 {
        lemma_tail_pairs_len(t, i + 1);
    }
}

/// A GUID that reads has eight trailing bytes.
pub proof fn lemma_guid_outcome_len(s: Seq<u8>)
    ensures
        guid_outcome(s) matches Some(Ok(g)) ==> g.3.len() == 8,
{
    let t = trim_braces(s);
    let parts = split_on(t, 0x2d);
    if parts.len() == 5 {
        lemma_tail_pairs_len(parts[3] + parts[4], 0);
    }
}

/// TIP text that reads has GUIDs with eight trailing bytes each.
pub proof fn lemma_tip_outcome_len(t: Seq<u8>)
    ensures
        tip_outcome(t) matches Some(Ok((l, c, p))) ==> c.3.len() == 8 && p.3.len() == 8,
{
    if let Some(colon) = find_byte(t, 0x3a) {
        if let Some(open1) = find_byte(t, 0x7b) {
            if let Some(close1) = find_byte(t, 0x7d) {
                if let Some(k) = find_byte(t.skip(close1), 0x7b) {
                    let open2 = k + close1;
                    if let Some(k2) = find_byte(t.skip(open2), 0x7d) {
                        let close2 = k2 + open2;
                        lemma_guid_outcome_len(t.subrange(open1 + 1, close1));
                        lemma_guid_outcome_len(t.subrange(open2 + 1, close2));
                    }
                }
            }
        }
    }
}

/// A GUID's text reads back as that GUID.
pub proof fn lemma_guid_text_roundtrip(g: GuidV)
    requires
        g.3.len() == 8,
    ensures
        guid_outcome(encode_utf8(guid_chars(g))) == Some(
            Ok::<GuidV, crate::tip::TipError<Seq<char>>>(g),
        ),
{
    lemma_encode_guid(g);
    lemma_guid_roundtrip(g);
}


/// No brace at either end of a GUID's bytes.
proof fn lemma_guid_bytes_ends(g: GuidV)
    ensures
        guid_bytes(g).len() == 36,
        is_hex_byte(guid_bytes(g)[0]),
        is_hex_byte(guid_bytes(g)[35]),
{
    let d = g.3;
    lemma_hexb_shape(g.0 as nat, 8);
    lemma_hexb_shape(g.1 as nat, 4);
    lemma_hexb_shape(g.2 as nat, 4);
    lemma_hexb_shape(d[0] as nat, 2);
    lemma_hexb_shape(d[1] as nat, 2);
    lemma_hexb_shape(d[2] as nat, 2);
    lemma_hexb_shape(d[3] as nat, 2);
    lemma_hexb_shape(d[4] as nat, 2);
    lemma_hexb_shape(d[5] as nat, 2);
    lemma_hexb_shape(d[6] as nat, 2);
    lemma_hexb_shape(d[7] as nat, 2);
    let front = hexb(g.0 as nat, 8);
    let rest = guid_bytes(g).skip(8);
    assert(guid_bytes(g) =~= front + rest);
    assert(guid_bytes(g)[0] == front[0]);
    let last = hexb(d[7] as nat, 2);
    assert(guid_bytes(g) =~= guid_bytes(g).take(34) + last);
    assert(guid_bytes(g)[35] == last[1]);
}

/// A GUID's text in braces, `{XXXXXXXX-XXXX-XXXX-XXXX-XXXXXXXXXXXX}`, reads
/// back as that GUID too.
pub proof fn lemma_braced_guid_roundtrip(g: GuidV)
    requires
        g.3.len() == 8,
    ensures
        guid_outcome(encode_utf8(seq!['{'] + guid_chars(g) + seq!['}'])) == Some(
            Ok::<GuidV, crate::tip::TipError<Seq<char>>>(g),
        ),
{
    lemma_encode_guid(g);
    lemma_guid_roundtrip(g);
    lemma_guid_bytes_ends(g);
    lemma_encode_concat(seq!['{'] + guid_chars(g), seq!['}']);
    lemma_encode_concat(seq!['{'], guid_chars(g));
    lemma_encode_ascii_char('{');
    lemma_encode_ascii_char('}');
    let gb = guid_bytes(g);
    let b = seq![0x7bu8] + gb + seq![0x7du8];
    assert(encode_utf8(seq!['{'] + guid_chars(g) + seq!['}']) =~= b);
    // One brace at each end of `b`, none at the ends of the GUID's bytes.
    assert(b.drop_first()[0] == gb[0]);
    assert(lead_braces(b.drop_first()) == 0);
    assert(lead_braces(b) == 1);
    let r = b.skip(1);
    assert(r =~= gb + seq![0x7du8]);
    assert(r.drop_last() =~= gb);
    assert(gb.last() == gb[35]);
    assert(trail_braces(gb) == 0);
    assert(trail_braces(r) == 1);
    assert(trim_braces(b) =~= gb);
    assert(lead_braces(gb) == 0);
    assert(trim_braces(gb) =~= gb);
}

proof fn lemma_pow16_digit_count(v: nat)
    ensures
        v < pow16(digit_count(v, 16)),
        digit_count(v, 16) >= 1,
    decreases v,
{
    if v >= 16 {
        lemma_pow16_digit_count(v / 16);
    } else {
        assert(pow16(1) == 16 * pow16(0));
    }
}

proof fn lemma_pow16_mono(a: nat, b: nat)
    requires
        a <= b,
    ensures
        pow16(a) <= pow16(b),
    decreases b,
{
    if a < b {
        lemma_pow16_mono(a, (b - 1) as nat);
    }
}

/// The keyboard-layout form reads back as the language and layout it was written from.
pub proof fn lemma_hkl_roundtrip(langid: u16, hkl: usize)
    ensures
        hkl_outcome(encode_utf8(hkl_chars(langid, hkl))) == Some((langid, hkl)),
{
    let h = hex_fixed(langid as nat, 4);
    let mid = seq![':', 'H', 'K', 'L', ':'];
    let m = max_nat(8, digit_count(hkl as nat, 16));
    let num = numeral(hkl as nat, 8, 16);
    lemma_encode_hex(langid as nat, 4);
    lemma_encode_fixed(hkl as nat, m, 16);
    assert(is_ascii_chars(mid));
    is_ascii_chars_encode_utf8(mid);
    assert(encode_utf8(mid) =~= seq![0x3au8, 0x48u8, 0x4bu8, 0x4cu8, 0x3au8]);
    lemma_encode_concat(h, mid);
    lemma_encode_concat(h + mid, num);
    let b = encode_utf8(hkl_chars(langid, hkl));
    let hb = hexb(langid as nat, 4);
    let nb = hexb(hkl as nat, m);
    lemma_hexb_shape(langid as nat, 4);
    lemma_hexb_shape(hkl as nat, m);
    assert(b == hb + seq![0x3au8, 0x48u8, 0x4bu8, 0x4cu8, 0x3au8] + nb);
    assert(b.subrange(4, 9) =~= seq![0x3au8, 0x48u8, 0x4bu8, 0x4cu8, 0x3au8]);
    assert(b.take(4) =~= hb);
    assert(b.skip(9) =~= nb);
    lemma_pow16();
    lemma_hexb_hex_value(langid as nat, 4, 0xffff);
    lemma_pow16_digit_count(hkl as nat);
    lemma_pow16_mono(digit_count(hkl as nat, 16), m);
    lemma_hexb_hex_value(hkl as nat, m, usize::MAX as nat);
}

/// The text of the active input method reads back as that input method: TIP
/// text as its language and GUIDs (and not as a keyboard layout), the
/// keyboard-layout form as its language and layout.
pub proof fn lemma_active_tip_reads_back(p: ActiveProfile)
    ensures
        p.profile_type == TF_PROFILETYPE_INPUTPROCESSOR ==> {
            &&& tip_outcome(encode_utf8(active_tip_chars(p))) == Some(
                Ok::<(u16, GuidV, GuidV), crate::tip::TipError<Seq<char>>>(
                    (p.langid, p.clsid@, p.guid_profile@),
                ),
            )
            &&& hkl_outcome(encode_utf8(active_tip_chars(p))) is None
        },
        p.profile_type != TF_PROFILETYPE_INPUTPROCESSOR ==> hkl_outcome(
            encode_utf8(active_tip_chars(p)),
        ) == Some((p.langid, p.hkl)),
{
    if p.profile_type == TF_PROFILETYPE_INPUTPROCESSOR {
        assert(p.clsid.data4@.len() == 8);
        assert(p.guid_profile.data4@.len() == 8);
        lemma_tip_roundtrip(p.langid, p.clsid@, p.guid_profile@);
        lemma_encode_tip(p.langid, p.clsid@, p.guid_profile@);
        let t = tip_bytes(p.langid, p.clsid@, p.guid_profile@);
        lemma_hexb_shape(p.langid as nat, 4);
        assert(t[5] == 0x7b);
        assert(t.subrange(4, 9)[1] == t[5]);
    } else {
        lemma_hkl_roundtrip(p.langid, p.hkl);
    }
}

} // verus!
