//! What reading rules.txt keeps of its lines: blank lines and `#` comments are
//! skipped, a program name is a trimmed name without `=` (lower-cased), and a
//! rule's TIP text is written in upper case.
use vstd::prelude::*;
use vstd::utf8::*;
use crate::text::{
    is_white_space, trim_start_chars, trim_end_chars, trimmed, lowercase, fixed_digits, digit_char,
    hex_fixed, lemma_str_boundary,
};
use crate::rules::{
    line_kind, LineKind, lines_of, strip_bom, parse_lines, line_step, rules_outcome, RuleV,
    RuleNotice, lemma_rules_well_formed,
};
use crate::tip::{find_byte, lemma_find_byte, tip_chars, guid_chars, tip_outcome, GuidV};

verus! {

/// Dropping leading White_Space leaves a suffix that starts with none.
pub(crate) proof fn lemma_trim_start(s: Seq<char>)
    ensures
        trim_start_chars(s).len() <= s.len(),
        trim_start_chars(s) == s.skip(s.len() - trim_start_chars(s).len()),
        trim_start_chars(s).len() > 0 ==> !is_white_space(trim_start_chars(s)[0]),
        s.len() > 0 && !is_white_space(s[0]) ==> trim_start_chars(s) == s,
    decreases s.len(),
{
    if s.len() > 0 && is_white_space(s[0]) {
        lemma_trim_start(s.drop_first());
        let r = trim_start_chars(s.drop_first());
        assert(s.drop_first().skip(s.drop_first().len() - r.len()) =~= s.skip(s.len() - r.len()));
    } else {
        assert(s.skip(0) =~= s);
    }
}

/// Dropping trailing White_Space leaves a prefix that ends with none, and
/// keeps a first character that is not White_Space.
proof fn lemma_trim_end(s: Seq<char>)
    ensures
        trim_end_chars(s).len() <= s.len(),
        trim_end_chars(s) == s.take(trim_end_chars(s).len() as int),
        trim_end_chars(s).len() > 0 ==> !is_white_space(trim_end_chars(s).last()),
        s.len() > 0 && !is_white_space(s.last()) ==> trim_end_chars(s) == s,
        s.len() > 0 && !is_white_space(s[0]) ==> trim_end_chars(s).len() > 0,
    decreases s.len(),
{
    if s.len() > 0 && is_white_space(s.last()) {
        lemma_trim_end(s.drop_last());
        let r = trim_end_chars(s.drop_last());
        assert(s.drop_last().take(r.len() as int) =~= s.take(r.len() as int));
        if s.len() > 1 {
            assert(s.drop_last()[0] == s[0]);
        }
    } else {
        assert(s.take(s.len() as int) =~= s);
    }
}

/// Trimmed text is a piece of the text: the characters of `s` from `start` on.
proof fn lemma_trimmed_piece(s: Seq<char>) -> (start: int)
    ensures
        0 <= start,
        start + trimmed(s).len() <= s.len(),
        forall|j: int| 0 <= j < trimmed(s).len() ==> trimmed(s)[j] == s[start + j],
{
    let u = trim_start_chars(s);
    lemma_trim_start(s);
    lemma_trim_end(u);
    let start = s.len() - u.len();
    assert forall|j: int| 0 <= j < trimmed(s).len() implies trimmed(s)[j] == s[start + j] by {
        assert(trimmed(s)[j] == u[j]);
    }
    start
}

/// Trimming a second time changes nothing.
pub proof fn lemma_trimmed_trimmed(s: Seq<char>)
    ensures
        trimmed(trimmed(s)) == trimmed(s),
{
    let u = trim_start_chars(s);
    let t = trim_end_chars(u);
    lemma_trim_start(s);
    lemma_trim_end(u);
    if t.len() > 0 {
        assert(t[0] == u[0]);
        lemma_trim_start(t);
        lemma_trim_end(t);
    }
}

/// The first byte of the UTF-8 of non-empty text: the character itself where it
/// is ASCII, else a leading byte of at least 0xC0.
pub(crate) proof fn lemma_first_byte(s: Seq<char>)
    requires
        s.len() > 0,
    ensures
        encode_utf8(s).len() > 0,
        encode_utf8(s) == encode_scalar(s[0] as u32) + encode_utf8(s.drop_first()),
        (s[0] as u32) < 0x80 ==> encode_utf8(s)[0] == ((s[0] as u32) & 0x7f) as u8
            && encode_scalar(s[0] as u32).len() == 1,
        (s[0] as u32) >= 0x80 ==> encode_utf8(s)[0] >= 0xc0,
{
    let v = s[0] as u32;
    char_is_scalar(s[0]);
    assert(encode_utf8(s)[0] == encode_scalar(v)[0]);
    if v < 0x80 {
        assert(encode_scalar(v) == seq![(v & 0x7f) as u8]);
    } else if v <= 0x7ff {
        let x: u8 = ((v >> 6) & 0x1F) as u8;
        assert(0xC0u8 | x >= 0xC0u8) by (bit_vector);
        assert(encode_scalar(v)[0] == 0xC0u8 | x);
    } else if v <= 0xffff {
        let x: u8 = ((v >> 12) & 0x0F) as u8;
        assert(0xE0u8 | x >= 0xC0u8) by (bit_vector);
        assert(encode_scalar(v)[0] == 0xE0u8 | x);
    } else {
        let x: u8 = ((v >> 18) & 0x7) as u8;
        assert(0xF0u8 | x >= 0xC0u8) by (bit_vector);
        assert(encode_scalar(v)[0] == 0xF0u8 | x);
    }
}

/// Text whose UTF-8 has no byte `x` (an ASCII code) has no character with that code.
proof fn lemma_no_ascii_char(s: Seq<char>, x: u8)
    requires
        x < 0x80,
        forall|j: int| 0 <= j < encode_utf8(s).len() ==> encode_utf8(s)[j] != x,
    ensures
        forall|j: int| 0 <= j < s.len() ==> s[j] as u32 != x as u32,
    decreases s.len(),
{
    if s.len() > 0 {
        lemma_first_byte(s);
        let k = encode_scalar(s[0] as u32).len() as int;
        let rest = encode_utf8(s.drop_first());
        assert forall|j: int| 0 <= j < rest.len() implies rest[j] != x by {
            assert(rest[j] == encode_utf8(s)[k + j]);
        }
        lemma_no_ascii_char(s.drop_first(), x);
        let v = s[0] as u32;
        if v == x as u32 {
            assert(((v & 0x7f) as u8) == x) by (bit_vector)
                requires
                    v == x as u32,
                    x < 0x80u8,
            ;
        }
        assert forall|j: int| 0 <= j < s.len() implies s[j] as u32 != x as u32 by {
            if j > 0 {
                assert(s[j] == s.drop_first()[j - 1]);
            }
        }
    }
}

/// A line of rules.txt that is blank or a comment: empty, or `#` first, once
/// its leading White_Space is dropped.
pub open spec fn comment_or_blank(line: Seq<char>) -> bool {
    let t = trim_start_chars(line);
    t.len() == 0 || t[0] == '#'
}

/// A line of rules.txt is skipped exactly where it is blank or a `#` comment.
pub proof fn lemma_comment_lines(raw: Seq<u8>)
    ensures
        (line_kind(raw) is Skip) <==> comment_or_blank(decode_utf8(raw)),
{
    let d = decode_utf8(raw);
    let u = trim_start_chars(d);
    let line = trimmed(d);
    lemma_trim_start(d);
    lemma_trim_end(u);
    if line.len() > 0 {
        lemma_first_byte(line);
        assert(line[0] == u[0]);
        let c = line[0];
        assert('#' as u32 == 0x23);
        let v = c as u32;
        char_u32_cast(c, v);
        char_u32_cast('#', 0x23);
        if v < 0x80 {
            assert((((v & 0x7f) as u8) == 0x23u8) <==> (v == 0x23u32)) by (bit_vector)
                requires
                    v < 0x80u32,
            ;
        }
    } else {
        assert(encode_utf8(line) =~= Seq::<u8>::empty());
    }
}

proof fn lemma_comment_lines_parse(ls: Seq<Seq<u8>>)
    requires
        forall|i: int| 0 <= i < ls.len() ==> comment_or_blank(decode_utf8(#[trigger] ls[i])),
    ensures
        parse_lines(ls) == Some((Seq::<RuleV>::empty(), Seq::<RuleNotice<Seq<char>>>::empty())),
    decreases ls.len(),
{
    if ls.len() > 0 {
        assert forall|i: int| 0 <= i < ls.drop_last().len() implies comment_or_blank(
            decode_utf8(#[trigger] ls.drop_last()[i]),
        ) by {
            assert(ls.drop_last()[i] == ls[i]);
        }
        lemma_comment_lines_parse(ls.drop_last());
        assert(comment_or_blank(decode_utf8(ls[ls.len() - 1])));
        lemma_comment_lines(ls.last());
    }
}

/// rules.txt of blank lines and `#` comments only gives no rules and no notices.
pub proof fn lemma_comment_text(text: Seq<u8>)
    requires
        forall|i: int|
            0 <= i < lines_of(strip_bom(text)).len() ==> comment_or_blank(
                decode_utf8(#[trigger] lines_of(strip_bom(text))[i]),
            ),
    ensures
        rules_outcome(text) == Some((Seq::<RuleV>::empty(), Seq::<RuleNotice<Seq<char>>>::empty())),
{
    lemma_comment_lines_parse(lines_of(strip_bom(text)));
}

/// A program name as a line of rules.txt gives it before lower-casing: trimmed,
/// with no `=` in it.
pub open spec fn plain_name(t: Seq<char>) -> bool {
    trimmed(t) == t && forall|j: int| 0 <= j < t.len() ==> t[j] != '='
}

/// The lower-case form of a plain name.
pub open spec fn named_plainly(exe: Seq<char>) -> bool {
    exists|t: Seq<char>| plain_name(t) && #[trigger] lowercase(t) == exe
}

/// Every rule names its program by the lower-case form of a plain name.
pub open spec fn plain_names(rs: Seq<RuleV>) -> bool {
    forall|i: int| 0 <= i < rs.len() ==> named_plainly(#[trigger] rs[i].exe)
}

/// The program name of a rule line is the lower-case form of a plain name.
pub proof fn lemma_entry_name(raw: Seq<u8>)
    ensures
        line_kind(raw) matches LineKind::Entry(_, exe, _) ==> named_plainly(exe),
{
    let line = trimmed(decode_utf8(raw));
    let lb = encode_utf8(line);
    if let LineKind::Entry(_, exe, _) = line_kind(raw) {
        lemma_find_byte(lb, 0x3d);
        let eq = find_byte(lb, 0x3d)->Some_0;
        let b = lb.take(eq);
        encode_utf8_valid_utf8(line);
        lemma_str_boundary(lb, eq);
        valid_utf8_split(lb, eq);
        assert(b =~= lb.subrange(0, eq));
        decode_utf8_encode_utf8(b);
        let d = decode_utf8(b);
        lemma_no_ascii_char(d, 0x3d);
        let start = lemma_trimmed_piece(d);
        lemma_trimmed_trimmed(d);
        let t = trimmed(d);
        char_u32_cast('=', 0x3d);
        assert forall|j: int| 0 <= j < t.len() implies t[j] != '=' by {
            assert(t[j] == d[start + j]);
        }
        assert(plain_name(t) && lowercase(t) == exe);
    }
}

proof fn lemma_parse_lines_names(ls: Seq<Seq<u8>>)
    ensures
        parse_lines(ls) matches Some(p) ==> plain_names(p.0),
    decreases ls.len(),
{
    if ls.len() > 0 {
        lemma_parse_lines_names(ls.drop_last());
        lemma_entry_name(ls.last());
        match parse_lines(ls.drop_last()) {
            Some(acc) => {
                match line_step(acc, ls.last()) {
                    Some(q) => {
                        if q.0.len() > acc.0.len() {
                            match line_kind(ls.last()) {
                                LineKind::Entry(line, exe, tip_raw) => {
                                    match tip_outcome(encode_utf8(tip_raw)) {
                                        Some(Ok((l, c, p))) => {
                                            assert(q.0[acc.0.len() as int].exe == exe);
                                        },
                                        _ => {},
                                    }
                                },
                                _ => {},
                            }
                        }
                        assert forall|i: int| 0 <= i < q.0.len() implies named_plainly(
                            #[trigger] q.0[i].exe,
                        ) by {
                            if i < acc.0.len() {
                                assert(q.0[i] == acc.0[i]);
                            }
                        }
                    },
                    None => {},
                }
            },
            None => {},
        }
    }
}

/// Every rule's program name is the lower-case form of a name that is trimmed
/// and has no `=` in it.
pub proof fn lemma_rule_names(text: Seq<u8>)
    ensures
        rules_outcome(text) matches Some(p) ==> plain_names(p.0),
{
    lemma_parse_lines_names(lines_of(strip_bom(text)));
}

/// A character of TIP text as it is written: a digit, an upper-case hex
/// letter, or one of `:` `{` `}` `-`.
pub open spec fn written_tip_char(c: char) -> bool {
    let u = c as u32;
    (0x30 <= u <= 0x39) || (0x41 <= u <= 0x46) || u == 0x3a || u == 0x7b || u == 0x7d || u == 0x2d
}

pub open spec fn all_written(s: Seq<char>) -> bool {
    forall|j: int| 0 <= j < s.len() ==> written_tip_char(#[trigger] s[j])
}

proof fn lemma_all_written_concat(a: Seq<char>, b: Seq<char>)
    requires
        all_written(a),
        all_written(b),
    ensures
        all_written(a + b),
{
    assert forall|j: int| 0 <= j < (a + b).len() implies written_tip_char(#[trigger] (a + b)[j]) by {
        if j < a.len() {
            assert((a + b)[j] == a[j]);
        } else {
            assert((a + b)[j] == b[j - a.len()]);
        }
    }
}

proof fn lemma_hex_written(v: nat, n: nat)
    ensures
        all_written(hex_fixed(v, n)),
    decreases n,
{
    if n > 0 {
        lemma_hex_written(v / 16, (n - 1) as nat);
        let pre = fixed_digits(v / 16, (n - 1) as nat, 16);
        let d = v % 16;
        assert(written_tip_char(digit_char(d)));
        assert forall|j: int| 0 <= j < hex_fixed(v, n).len() implies written_tip_char(
            #[trigger] hex_fixed(v, n)[j],
        ) by {
            if j < pre.len() {
                assert(hex_fixed(v, n)[j] == pre[j]);
            }
        }
    }
}

proof fn lemma_guid_written(g: GuidV)
    ensures
        all_written(guid_chars(g)),
{
    let dash = seq!['-'];
    assert(all_written(dash));
    lemma_hex_written(g.0 as nat, 8);
    lemma_hex_written(g.1 as nat, 4);
    lemma_hex_written(g.2 as nat, 4);
    lemma_hex_written(g.3[0] as nat, 2);
    lemma_hex_written(g.3[1] as nat, 2);
    lemma_hex_written(g.3[2] as nat, 2);
    lemma_hex_written(g.3[3] as nat, 2);
    lemma_hex_written(g.3[4] as nat, 2);
    lemma_hex_written(g.3[5] as nat, 2);
    lemma_hex_written(g.3[6] as nat, 2);
    lemma_hex_written(g.3[7] as nat, 2);
    let h = |i: int| hex_fixed(g.3[i] as nat, 2);
    assert(all_written(h(0)) && all_written(h(1)) && all_written(h(2)) && all_written(h(3)));
    assert(all_written(h(4)) && all_written(h(5)) && all_written(h(6)) && all_written(h(7)));
    let a1 = hex_fixed(g.0 as nat, 8) + dash;
    lemma_all_written_concat(hex_fixed(g.0 as nat, 8), dash);
    let a2 = a1 + hex_fixed(g.1 as nat, 4);
    lemma_all_written_concat(a1, hex_fixed(g.1 as nat, 4));
    let a3 = a2 + dash;
    lemma_all_written_concat(a2, dash);
    let a4 = a3 + hex_fixed(g.2 as nat, 4);
    lemma_all_written_concat(a3, hex_fixed(g.2 as nat, 4));
    let a5 = a4 + dash;
    lemma_all_written_concat(a4, dash);
    let a6 = a5 + h(0);
    lemma_all_written_concat(a5, h(0));
    let a7 = a6 + h(1);
    lemma_all_written_concat(a6, h(1));
    let a8 = a7 + dash;
    lemma_all_written_concat(a7, dash);
    let a9 = a8 + h(2);
    lemma_all_written_concat(a8, h(2));
    let a10 = a9 + h(3);
    lemma_all_written_concat(a9, h(3));
    let a11 = a10 + h(4);
    lemma_all_written_concat(a10, h(4));
    let a12 = a11 + h(5);
    lemma_all_written_concat(a11, h(5));
    let a13 = a12 + h(6);
    lemma_all_written_concat(a12, h(6));
    let a14 = a13 + h(7);
    lemma_all_written_concat(a13, h(7));
    assert(a14 == guid_chars(g));
}

/// TIP text is written with digits, upper-case hex letters and `:` `{` `}` `-`
/// only: upper-casing it changes nothing.
pub proof fn lemma_tip_written(l: u16, c: GuidV, p: GuidV)
    ensures
        all_written(tip_chars(l, c, p)),
{
    lemma_hex_written(l as nat, 4);
    lemma_guid_written(c);
    lemma_guid_written(p);
    let s1 = seq![':', '{'];
    let s2 = seq!['}', '{'];
    let s3 = seq!['}'];
    assert(all_written(s1) && all_written(s2) && all_written(s3));
    let a1 = hex_fixed(l as nat, 4) + s1;
    lemma_all_written_concat(hex_fixed(l as nat, 4), s1);
    let a2 = a1 + guid_chars(c);
    lemma_all_written_concat(a1, guid_chars(c));
    let a3 = a2 + s2;
    lemma_all_written_concat(a2, s2);
    let a4 = a3 + guid_chars(p);
    lemma_all_written_concat(a3, guid_chars(p));
    let a5 = a4 + s3;
    lemma_all_written_concat(a4, s3);
    assert(a5 == tip_chars(l, c, p));
}

/// Every rule's TIP text is written in upper case.
pub proof fn lemma_rule_tips_written(text: Seq<u8>)
    ensures
        rules_outcome(text) matches Some(p) ==> forall|i: int|
            0 <= i < p.0.len() ==> all_written(#[trigger] p.0[i].tip),
{
    lemma_rules_well_formed(text);
    if let Some(p) = rules_outcome(text) {
        assert forall|i: int| 0 <= i < p.0.len() implies all_written(#[trigger] p.0[i].tip) by {
            assert(p.0[i].exe.len() > 0);
            lemma_tip_written(p.0[i].langid, p.0[i].clsid, p.0[i].profile);
        }
    }
}

} // verus!
