//! The commented rules.txt written where the file is missing: it reads as no
//! rules and no notices.
use vstd::prelude::*;
use vstd::utf8::*;
use crate::text::{push_str, lemma_encode_concat, lemma_encode_ascii_char};
use crate::rules::{lines_of, strip_bom, strip_cr, rules_outcome, RuleV, RuleNotice};
use crate::rules_laws::{comment_or_blank, lemma_comment_text, lemma_first_byte, lemma_trim_start};
use crate::tip::{find_byte, lemma_find_byte};

verus! {

/// Text without a line break.
pub open spec fn single_line(s: Seq<char>) -> bool
    decreases s.len(),
{
    s.len() == 0 || (s[0] != '\n' && single_line(s.drop_first()))
}

/// Lines, each ended by `\r\n`.
pub open spec fn crlf_joined(ls: Seq<Seq<char>>) -> Seq<char>
    decreases ls.len(),
{
    if ls.len() == 0 {
        Seq::empty()
    } else {
        ls[0] + seq!['\r', '\n'] + crlf_joined(ls.drop_first())
    }
}

/// The bytes of a code point of at least 0x80 are all at least 0x80.
proof fn lemma_wide_scalar_bytes(v: u32)
    requires
        0x80 <= v <= 0x10ffff,
    ensures
        forall|j: int| 0 <= j < encode_scalar(v).len() ==> encode_scalar(v)[j] >= 0x80,
{
    let a: u8 = (v & 0x3F) as u8;
    let b: u8 = ((v >> 6) & 0x3F) as u8;
    let c: u8 = ((v >> 12) & 0x3F) as u8;
    let d: u8 = ((v >> 6) & 0x1F) as u8;
    let e: u8 = ((v >> 12) & 0x0F) as u8;
    let f: u8 = ((v >> 18) & 0x7) as u8;
    assert(0x80u8 | a >= 0x80u8) by (bit_vector);
    assert(0x80u8 | b >= 0x80u8) by (bit_vector);
    assert(0x80u8 | c >= 0x80u8) by (bit_vector);
    assert(0xC0u8 | d >= 0x80u8) by (bit_vector);
    assert(0xE0u8 | e >= 0x80u8) by (bit_vector);
    assert(0xF0u8 | f >= 0x80u8) by (bit_vector);
}

/// The UTF-8 of text without a line break has no `\n` byte.
proof fn lemma_single_line_bytes(s: Seq<char>)
    requires
        single_line(s),
    ensures
        forall|j: int| 0 <= j < encode_utf8(s).len() ==> encode_utf8(s)[j] != 0x0a,
    decreases s.len(),
{
    if s.len() > 0 {
        lemma_first_byte(s);
        lemma_single_line_bytes(s.drop_first());
        let v = s[0] as u32;
        let k = encode_scalar(v).len() as int;
        char_is_scalar(s[0]);
        if v < 0x80 {
            char_u32_cast(s[0], v);
            char_u32_cast('\n', 0x0a);
            assert(((v & 0x7f) as u8) != 0x0au8) by (bit_vector)
                requires
                    v != 0x0au32,
                    v < 0x80u32,
            ;
        } else {
            lemma_wide_scalar_bytes(v);
        }
        assert forall|j: int| 0 <= j < encode_utf8(s).len() implies encode_utf8(s)[j] != 0x0a by {
            if j < k {
                assert(encode_utf8(s)[j] == encode_scalar(v)[j]);
            } else {
                assert(encode_utf8(s)[j] == encode_utf8(s.drop_first())[j - k]);
            }
        }
    }
}

/// The first place of `x` in `b`, known by its position.
proof fn lemma_find_at(b: Seq<u8>, x: u8, k: int)
    requires
        0 <= k < b.len(),
        b[k] == x,
        forall|j: int| 0 <= j < k ==> b[j] != x,
    ensures
        find_byte(b, x) == Some(k),
{
    lemma_find_byte(b, x);
}

/// Lines joined by `\r\n` read back as those lines.
proof fn lemma_crlf_lines(ls: Seq<Seq<char>>)
    requires
        forall|i: int| 0 <= i < ls.len() ==> single_line(#[trigger] ls[i]),
    ensures
        lines_of(encode_utf8(crlf_joined(ls))) == Seq::new(ls.len(), |i: int| encode_utf8(ls[i])),
    decreases ls.len(),
{
    if ls.len() == 0 {
        assert(encode_utf8(Seq::<char>::empty()) =~= Seq::<u8>::empty());
        assert(lines_of(Seq::<u8>::empty()) =~= Seq::<Seq<u8>>::empty());
    } else {
        let rest = ls.drop_first();
        assert forall|i: int| 0 <= i < rest.len() implies single_line(#[trigger] rest[i]) by {
            assert(rest[i] == ls[i + 1]);
        }
        lemma_crlf_lines(rest);
        let e0 = encode_utf8(ls[0]);
        let er = encode_utf8(crlf_joined(rest));
        let crlf = seq!['\r', '\n'];
        assert(single_line(ls[0]));
        lemma_single_line_bytes(ls[0]);
        lemma_encode_concat(ls[0] + crlf, crlf_joined(rest));
        lemma_encode_concat(ls[0], crlf);
        assert(crlf =~= seq!['\r'] + seq!['\n']);
        lemma_encode_concat(seq!['\r'], seq!['\n']);
        lemma_encode_ascii_char('\r');
        lemma_encode_ascii_char('\n');
        let ecrlf = seq![0x0du8, 0x0au8];
        assert(encode_utf8(crlf) =~= ecrlf);
        let whole = encode_utf8(crlf_joined(ls));
        assert(whole =~= e0 + ecrlf + er);
        let k: int = e0.len() as int + 1;
        assert(whole[k] == 0x0a);
        assert forall|j: int| 0 <= j < k implies whole[j] != 0x0a by {
            if j < e0.len() {
                assert(whole[j] == e0[j]);
            }
        }
        lemma_find_at(whole, 0x0a, k);
        assert(whole.take(k) =~= e0.push(0x0d));
        assert(strip_cr(whole.take(k)) =~= e0);
        assert(whole.skip(k + 1) =~= er);
        assert(lines_of(whole) == seq![e0] + lines_of(er));
        assert(lines_of(whole) =~= Seq::new(ls.len(), |i: int| encode_utf8(ls[i])));
    }
}

/// Lines that each start with `#` and have no line break, joined by `\r\n`,
/// read as no rules and no notices.
pub proof fn lemma_commented_lines(ls: Seq<Seq<char>>)
    requires
        forall|i: int| 0 <= i < ls.len() ==> single_line(#[trigger] ls[i]) && ls[i].len() > 0
            && ls[i][0] == '#',
    ensures
        rules_outcome(encode_utf8(crlf_joined(ls))) == Some(
            (Seq::<RuleV>::empty(), Seq::<RuleNotice<Seq<char>>>::empty()),
        ),
{
    let text = encode_utf8(crlf_joined(ls));
    lemma_crlf_lines(ls);
    if ls.len() > 0 {
        let whole = crlf_joined(ls);
        assert(whole =~= ls[0] + (seq!['\r', '\n'] + crlf_joined(ls.drop_first())));
        lemma_encode_concat(ls[0], seq!['\r', '\n'] + crlf_joined(ls.drop_first()));
        lemma_first_byte(ls[0]);
        char_u32_cast('#', 0x23);
        assert(((0x23u32 & 0x7f) as u8) == 0x23u8) by (bit_vector);
        assert(text[0] == 0x23);
    }
    assert(strip_bom(text) == text);
    let lines = lines_of(text);
    assert forall|i: int| 0 <= i < lines.len() implies comment_or_blank(
        decode_utf8(#[trigger] lines[i]),
    ) by {
        encode_utf8_decode_utf8(ls[i]);
        assert(lines[i] == encode_utf8(ls[i]));
        lemma_trim_start(ls[i]);
        assert(!crate::text::is_white_space(ls[i][0]));
    }
    lemma_comment_text(text);
}

/// Text without a line break stays so when joined to more such text.
proof fn lemma_single_line_concat(a: Seq<char>, b: Seq<char>)
    requires
        single_line(a),
        single_line(b),
    ensures
        single_line(a + b),
    decreases a.len(),
{
    if a.len() > 0 {
        assert((a + b).drop_first() =~= a.drop_first() + b);
        assert((a + b)[0] == a[0]);
        lemma_single_line_concat(a.drop_first(), b);
    } else {
        assert(a + b =~= b);
    }
}

proof fn lemma_line_rules_syntax()
    ensures
        single_line("# ImeBind 规则：每行 \"程序名 = 输入法TIP\"，程序名不区分大小写"@) && ("# ImeBind 规则：每行 \"程序名 = 输入法TIP\"，程序名不区分大小写"@).len() > 0 && ("# ImeBind 规则：每行 \"程序名 = 输入法TIP\"，程序名不区分大小写"@)[0] == '#',
{
    reveal_strlit("# ImeBind 规则：每行 \"程序名 = 输入法TIP\"，程序名不区分大小写");
    reveal_with_fuel(single_line, 60);
}

proof fn lemma_line_list_hint()
    ensures
        single_line("# 本机可用的 TIP 用 imebind --list 查看"@) && ("# 本机可用的 TIP 用 imebind --list 查看"@).len() > 0 && ("# 本机可用的 TIP 用 imebind --list 查看"@)[0] == '#',
{
    reveal_strlit("# 本机可用的 TIP 用 imebind --list 查看");
    reveal_with_fuel(single_line, 60);
}

proof fn lemma_line_example_title()
    ensures
        single_line("# 示例（微软拼音）："@) && ("# 示例（微软拼音）："@).len() > 0 && ("# 示例（微软拼音）："@)[0] == '#',
{
    reveal_strlit("# 示例（微软拼音）：");
    reveal_with_fuel(single_line, 60);
}

proof fn lemma_line_example_head()
    ensures
        single_line("# dota2.exe = 0804:"@) && ("# dota2.exe = 0804:"@).len() > 0 && ("# dota2.exe = 0804:"@)[0] == '#',
{
    reveal_strlit("# dota2.exe = 0804:");
    reveal_with_fuel(single_line, 60);
}

proof fn lemma_line_example_clsid()
    ensures
        single_line("{81D4E9C9-1D3B-41BC-9E6C-4B40BF79E35E}"@),
{
    reveal_strlit("{81D4E9C9-1D3B-41BC-9E6C-4B40BF79E35E}");
    reveal_with_fuel(single_line, 60);
}

proof fn lemma_line_example_tail()
    ensures
        single_line("{FA550B04-5AD7-411F-A5AC-CA038EC515D7}"@),
{
    reveal_strlit("{FA550B04-5AD7-411F-A5AC-CA038EC515D7}");
    reveal_with_fuel(single_line, 60);
}

/// Four commented lines, each ended by `\r\n`, read as nothing.
#[verifier::rlimit(40)]
proof fn lemma_four_lines(a: Seq<char>, b: Seq<char>, c: Seq<char>, d: Seq<char>)
    requires
        single_line(a) && a.len() > 0 && a[0] == '#',
        single_line(b) && b.len() > 0 && b[0] == '#',
        single_line(c) && c.len() > 0 && c[0] == '#',
        single_line(d) && d.len() > 0 && d[0] == '#',
    ensures
        rules_outcome(
            encode_utf8(a + seq!['\r', '\n'] + b + seq!['\r', '\n'] + c + seq!['\r', '\n'] + d + seq!['\r', '\n']),
        ) == Some((Seq::<RuleV>::empty(), Seq::<RuleNotice<Seq<char>>>::empty())),
{
    let ls = seq![a, b, c, d];
    assert forall|i: int| 0 <= i < ls.len() implies single_line(#[trigger] ls[i]) && ls[i].len()
        > 0 && ls[i][0] == '#' by {
        if i == 0 {
        } else if i == 1 {
        } else if i == 2 {
        } else {
        }
    }
    reveal_with_fuel(crlf_joined, 5);
    assert(ls.drop_first() =~= seq![b, c, d]);
    assert(ls.drop_first().drop_first() =~= seq![c, d]);
    assert(ls.drop_first().drop_first().drop_first() =~= seq![d]);
    assert(ls.drop_first().drop_first().drop_first().drop_first() =~= Seq::<Seq<char>>::empty());
    assert(crlf_joined(ls) =~= a + seq!['\r', '\n'] + b + seq!['\r', '\n'] + c + seq!['\r', '\n'] + d + seq!['\r', '\n']);
    lemma_commented_lines(ls);
}

/// The text of the commented rules.txt: the syntax of a rule, where to find
/// TIP text, and an example rule, each line a `#` comment ended by `\r\n`.
pub open spec fn example_rules_text() -> Seq<char> {
    "# ImeBind 规则：每行 \"程序名 = 输入法TIP\"，程序名不区分大小写"@ + "\r\n"@
        + "# 本机可用的 TIP 用 imebind --list 查看"@ + "\r\n"@
        + "# 示例（微软拼音）："@ + "\r\n"@
        + "# dota2.exe = 0804:{81D4E9C9-1D3B-41BC-9E6C-4B40BF79E35E}{FA550B04-5AD7-411F-A5AC-CA038EC515D7}"@ + "\r\n"@
}

/// The commented rules.txt reads as no rules and no notices.
pub proof fn lemma_example_rules_read_as_nothing()
    ensures
        rules_outcome(encode_utf8(example_rules_text())) == Some(
            (Seq::<RuleV>::empty(), Seq::<RuleNotice<Seq<char>>>::empty()),
        ),
{
    lemma_line_rules_syntax();
    lemma_line_list_hint();
    lemma_line_example_title();
    lemma_line_example_head();
    lemma_line_example_clsid();
    lemma_line_example_tail();
    let head = "# dota2.exe = 0804:"@;
    let clsid = "{81D4E9C9-1D3B-41BC-9E6C-4B40BF79E35E}"@;
    let tail = "{FA550B04-5AD7-411F-A5AC-CA038EC515D7}"@;
    let l4 = "# dota2.exe = 0804:{81D4E9C9-1D3B-41BC-9E6C-4B40BF79E35E}{FA550B04-5AD7-411F-A5AC-CA038EC515D7}"@;
    assert(l4 =~= head + clsid + tail) by {
        reveal_strlit("# dota2.exe = 0804:{81D4E9C9-1D3B-41BC-9E6C-4B40BF79E35E}{FA550B04-5AD7-411F-A5AC-CA038EC515D7}");
        reveal_strlit("# dota2.exe = 0804:");
        reveal_strlit("{81D4E9C9-1D3B-41BC-9E6C-4B40BF79E35E}");
        reveal_strlit("{FA550B04-5AD7-411F-A5AC-CA038EC515D7}");
    }
    lemma_single_line_concat(head, clsid);
    lemma_single_line_concat(head + clsid, tail);
    assert(l4[0] == '#');
    assert("\r\n"@ == seq!['\r', '\n']) by {
        reveal_strlit("\r\n");
    }
    lemma_four_lines("# ImeBind 规则：每行 \"程序名 = 输入法TIP\"，程序名不区分大小写"@, "# 本机可用的 TIP 用 imebind --list 查看"@, "# 示例（微软拼音）："@, l4);
}

/// The commented rules.txt written where the file is missing.
pub fn example_rules() -> (r: String)
    ensures
        r@ == example_rules_text(),
{
    let mut s = String::new();
    push_str(&mut s, "# ImeBind 规则：每行 \"程序名 = 输入法TIP\"，程序名不区分大小写");
    push_str(&mut s, "\r\n");
    push_str(&mut s, "# 本机可用的 TIP 用 imebind --list 查看");
    push_str(&mut s, "\r\n");
    push_str(&mut s, "# 示例（微软拼音）：");
    push_str(&mut s, "\r\n");
    push_str(&mut s, "# dota2.exe = 0804:{81D4E9C9-1D3B-41BC-9E6C-4B40BF79E35E}{FA550B04-5AD7-411F-A5AC-CA038EC515D7}");
    push_str(&mut s, "\r\n");
    assert(s@ =~= example_rules_text());
    s
}

} // verus!
