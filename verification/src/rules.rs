//! rules.txt: one rule per line, `program.exe = TIP`, `#` starts a comment,
//! program names compared without regard to case.
use vstd::prelude::*;
use vstd::utf8::*;
use vstd::string::StringSliceAdditionalSpecFns;
use crate::text::{trimmed, lowercase, trim_str, to_lower, substr, str_boundary, lemma_cut_after_ascii, lemma_str_boundary, push_str};
use crate::tip_laws::{lemma_tip_roundtrip, lemma_tip_outcome_len};
use crate::tip::{Guid, GuidV, TipError, find_byte, lemma_find_byte, tip_outcome, tip_chars, tip_error_text, read_tip, format_tip};

verus! {

/// A rule: while `exe` is in the foreground, the input method `tip` is wanted.
#[derive(Debug)]
pub struct Rule {
    /// Program file name, lower case.
    pub exe: String,
    pub langid: u16,
    pub clsid: Guid,
    pub profile: Guid,
    /// The TIP text of the input method, upper-case hexadecimal.
    pub tip: String,
}

/// A rule as plain values.
pub struct RuleV {
    pub exe: Seq<char>,
    pub langid: u16,
    pub clsid: GuidV,
    pub profile: GuidV,
    pub tip: Seq<char>,
}

impl View for Rule {
    type V = RuleV;

    open spec fn view(&self) -> RuleV {
        RuleV {
            exe: self.exe@,
            langid: self.langid,
            clsid: self.clsid@,
            profile: self.profile@,
            tip: self.tip@,
        }
    }
}

/// A line of rules.txt that did not become a rule, and why.
#[derive(Debug)]
pub enum RuleNotice<S> {
    /// The line (quoted) has no `=`.
    NoEquals(S),
    /// The line (quoted) has nothing before its `=`.
    MissingExe(S),
    /// A second rule for the program (first field) on the line (second field).
    Duplicate(S, S),
    /// The line (first field) has TIP text that does not read; the second field says why.
    BadTip(S, S),
}

impl View for RuleNotice<String> {
    type V = RuleNotice<Seq<char>>;

    open spec fn view(&self) -> RuleNotice<Seq<char>> {
        match self {
            RuleNotice::NoEquals(l) => RuleNotice::NoEquals(l@),
            RuleNotice::MissingExe(l) => RuleNotice::MissingExe(l@),
            RuleNotice::Duplicate(e, l) => RuleNotice::Duplicate(e@, l@),
            RuleNotice::BadTip(l, m) => RuleNotice::BadTip(l@, m@),
        }
    }
}

/// The log line for each notice.
pub open spec fn notice_text(n: RuleNotice<Seq<char>>) -> Seq<char> {
    match n {
        RuleNotice::NoEquals(l) => "这一行没有等号，已跳过: "@ + l,
        RuleNotice::MissingExe(l) => "这一行缺少程序名，已跳过: "@ + l,
        RuleNotice::Duplicate(e, l) => "重复规则（"@ + e + "），已忽略后一条: "@ + l,
        RuleNotice::BadTip(l, m) => "规则解析失败，已跳过: "@ + l + " （"@ + m + "）"@,
    }
}

impl RuleNotice<String> {
    /// The log line for this notice.
    pub fn message(&self) -> (r: String)
        ensures
            r@ == notice_text(self@),
    {
        let mut s = String::new();
        match self {
            RuleNotice::NoEquals(l) => {
                push_str(&mut s, "这一行没有等号，已跳过: ");
                push_str(&mut s, l.as_str());
            },
            RuleNotice::MissingExe(l) => {
                push_str(&mut s, "这一行缺少程序名，已跳过: ");
                push_str(&mut s, l.as_str());
            },
            RuleNotice::Duplicate(e, l) => {
                push_str(&mut s, "重复规则（");
                push_str(&mut s, e.as_str());
                push_str(&mut s, "），已忽略后一条: ");
                push_str(&mut s, l.as_str());
            },
            RuleNotice::BadTip(l, m) => {
                push_str(&mut s, "规则解析失败，已跳过: ");
                push_str(&mut s, l.as_str());
                push_str(&mut s, " （");
                push_str(&mut s, m.as_str());
                push_str(&mut s, "）");
            },
        }
        assert(s@ =~= notice_text(self@));
        s
    }
}

/// The text without a UTF-8 byte order mark in front.
pub open spec fn strip_bom(t: Seq<u8>) -> Seq<u8> {
    if t.len() >= 3 && t[0] == 0xef && t[1] == 0xbb && t[2] == 0xbf {
        t.skip(3)
    } else {
        t
    }
}

pub open spec fn strip_cr(x: Seq<u8>) -> Seq<u8> {
    if x.len() > 0 && x.last() == 0x0d {
        x.drop_last()
    } else {
        x
    }
}

/// The lines of `b` as `str::lines` gives them: split at `\n`, a `\r` before
/// it dropped, no line after a final `\n`.
pub open spec fn lines_of(b: Seq<u8>) -> Seq<Seq<u8>>
    decreases b.len(),
{
    if b.len() == 0 {
        Seq::empty()
    } else {
        match find_byte(b, 0x0a) {
            None => seq![b],
            Some(i) => {
                proof {
                    lemma_find_byte(b, 0x0a);
                }
                seq![strip_cr(b.take(i))] + lines_of(b.skip(i + 1))
            },
        }
    }
}

pub open spec fn has_exe(rules: Seq<RuleV>, exe: Seq<char>) -> bool {
    exists|i: int| 0 <= i < rules.len() && #[trigger] rules[i].exe == exe
}

pub type Parsed = (Seq<RuleV>, Seq<RuleNotice<Seq<char>>>);

/// What a line of rules.txt is, before its TIP text is read.
#[derive(Debug)]
pub enum LineKind<S> {
    /// Empty, or a `#` comment.
    Skip,
    /// No `=` in the (trimmed) line.
    NoEquals(S),
    /// Nothing before the `=`.
    MissingExe(S),
    /// The trimmed line, the lower-case program name, and the trimmed TIP text.
    Entry(S, S, S),
}

impl View for LineKind<String> {
    type V = LineKind<Seq<char>>;

    open spec fn view(&self) -> LineKind<Seq<char>> {
        match self {
            LineKind::Skip => LineKind::Skip,
            LineKind::NoEquals(l) => LineKind::NoEquals(l@),
            LineKind::MissingExe(l) => LineKind::MissingExe(l@),
            LineKind::Entry(l, e, t) => LineKind::Entry(l@, e@, t@),
        }
    }
}

/// How the line with the UTF-8 bytes `raw` is taken apart.
pub open spec fn line_kind(raw: Seq<u8>) -> LineKind<Seq<char>> {
    let line = trimmed(decode_utf8(raw));
    let lb = encode_utf8(line);
    if lb.len() == 0 || lb[0] == 0x23 {
        LineKind::Skip
    } else {
        match find_byte(lb, 0x3d) {
            None => LineKind::NoEquals(line),
            Some(eq) => {
                let exe = lowercase(trimmed(decode_utf8(lb.take(eq))));
                if exe.len() == 0 {
                    LineKind::MissingExe(line)
                } else {
                    LineKind::Entry(line, exe, trimmed(decode_utf8(lb.skip(eq + 1))))
                }
            },
        }
    }
}

/// What one line adds to the rules and notices read so far; `None` where reading
/// its TIP text panics.
pub open spec fn line_step(acc: Parsed, raw: Seq<u8>) -> Option<Parsed> {
    match line_kind(raw) {
        LineKind::Skip => Some(acc),
        LineKind::NoEquals(line) => Some((acc.0, acc.1.push(RuleNotice::NoEquals(line)))),
        LineKind::MissingExe(line) => Some((acc.0, acc.1.push(RuleNotice::MissingExe(line)))),
        LineKind::Entry(line, exe, tip_raw) => match tip_outcome(encode_utf8(tip_raw)) {
            None => None,
            Some(Err(e)) => Some((acc.0, acc.1.push(RuleNotice::BadTip(line, tip_error_text(e))))),
            Some(Ok((l, c, p))) => if has_exe(acc.0, exe) {
                Some((acc.0, acc.1.push(RuleNotice::Duplicate(exe, line))))
            } else {
                Some(
                    (
                        acc.0.push(
                            RuleV { exe, langid: l, clsid: c, profile: p, tip: tip_chars(l, c, p) },
                        ),
                        acc.1,
                    ),
                )
            },
        },
    }
}

/// The rules and notices from the lines `ls`, in order; `None` where a line panics.
pub open spec fn parse_lines(ls: Seq<Seq<u8>>) -> Option<Parsed>
    decreases ls.len(),
{
    if ls.len() == 0 {
        Some((Seq::empty(), Seq::empty()))
    } else {
        match parse_lines(ls.drop_last()) {
            None => None,
            Some(acc) => line_step(acc, ls.last()),
        }
    }
}

/// What reading rules.txt with the UTF-8 bytes `text` gives.
pub open spec fn rules_outcome(text: Seq<u8>) -> Option<Parsed> {
    parse_lines(lines_of(strip_bom(text)))
}

pub open spec fn rules_view(rs: Seq<Rule>) -> Seq<RuleV> {
    Seq::new(rs.len(), |i: int| rs[i]@)
}

pub open spec fn notices_view(ns: Seq<RuleNotice<String>>) -> Seq<RuleNotice<Seq<char>>> {
    Seq::new(ns.len(), |i: int| ns[i]@)
}

fn owned(s: &str) -> (r: String)
    ensures
        r@ == s@,
{
    s.to_owned()
}

/// Takes a line apart: trimmed, split at its first `=`, the name trimmed and
/// lower-cased, the TIP text trimmed.
pub fn classify_line(raw: &str) -> (k: LineKind<String>)
    ensures
        k@ == line_kind(raw.spec_bytes()),
{
    proof {
        encode_utf8_decode_utf8(raw@);
    }
    let line = trim_str(raw);
    let lb = line.as_bytes();
    if lb.len() == 0 || lb[0] == 0x23 {
        return LineKind::Skip;
    }
    let eq = match find_from_bytes(lb, 0x3d) {
        None => {
            return LineKind::NoEquals(owned(line));
        },
        Some(e) => e,
    };
    proof {
        encode_utf8_valid_utf8(line@);
        lemma_find_byte(lb@, 0x3d);
        lemma_cut_after_ascii(lb@, eq as int);
    }
    let left = substr(line, 0, eq);
    assert(lb@.subrange(0, eq as int) =~= lb@.take(eq as int));
    let exe = to_lower(trim_str(left));
    if exe.as_str().is_empty() {
        return LineKind::MissingExe(owned(line));
    }
    let right = substr(line, eq + 1, lb.len());
    assert(lb@.subrange(eq + 1, lb@.len() as int) =~= lb@.skip(eq + 1));
    let tip_raw = trim_str(right);
    LineKind::Entry(owned(line), exe, owned(tip_raw))
}

fn has_rule_for(rules: &Vec<Rule>, exe: &String) -> (r: bool)
    ensures
        r == has_exe(rules_view(rules@), exe@),
{
    let n = rules.len();
    let mut i: usize = 0;
    while i < n
        invariant
            n == rules@.len(),
            i <= n,
            forall|j: int| 0 <= j < i ==> rules_view(rules@)[j].exe != exe@,
        decreases n - i,
    {
        if rules[i].exe == *exe {
            assert(rules_view(rules@)[i as int].exe == exe@);
            return true;
        }
        i = i + 1;
    }
    false
}

/// Reads one line into `rules` or `notices`; false where reading its TIP text panics.
fn read_line(raw: &str, rules: &mut Vec<Rule>, notices: &mut Vec<RuleNotice<String>>) -> (ok: bool)
    ensures
        match line_step((rules_view(old(rules)@), notices_view(old(notices)@)), raw.spec_bytes()) {
            None => !ok && notices_view(final(notices)@) == notices_view(old(notices)@),
            Some(p) => ok && rules_view(final(rules)@) == p.0 && notices_view(final(notices)@)
                == p.1,
        },
{
    let ghost rv = rules_view(rules@);
    let ghost nv = notices_view(notices@);
    match classify_line(raw) {
        LineKind::Skip => true,
        LineKind::NoEquals(line) => {
            let ghost lv = line@;
            notices.push(RuleNotice::NoEquals(line));
            assert(notices_view(notices@) =~= nv.push(RuleNotice::NoEquals(lv)));
            true
        },
        LineKind::MissingExe(line) => {
            let ghost lv = line@;
            notices.push(RuleNotice::MissingExe(line));
            assert(notices_view(notices@) =~= nv.push(RuleNotice::MissingExe(lv)));
            true
        },
        LineKind::Entry(line, exe, tip_raw) => {
            let ghost lv = line@;
            let ghost ev = exe@;
            match read_tip(tip_raw.as_str()) {
                None => false,
                Some(Err(e)) => {
                    notices.push(RuleNotice::BadTip(line, e.message()));
                    assert(notices_view(notices@) =~= nv.push(
                        RuleNotice::BadTip(lv, tip_error_text(e@)),
                    ));
                    true
                },
                Some(Ok((l, c, p))) => {
                    if has_rule_for(rules, &exe) {
                        notices.push(RuleNotice::Duplicate(exe, line));
                        assert(notices_view(notices@) =~= nv.push(RuleNotice::Duplicate(ev, lv)));
                        true
                    } else {
                        let tip = format_tip(l, &c, &p);
                        rules.push(Rule { exe, langid: l, clsid: c, profile: p, tip });
                        assert(rules_view(rules@) =~= rv.push(
                            RuleV {
                                exe: ev,
                                langid: l,
                                clsid: c@,
                                profile: p@,
                                tip: tip_chars(l, c@, p@),
                            },
                        ));
                        true
                    }
                },
            }
        },
    }
}

fn find_from_bytes(b: &[u8], x: u8) -> (r: Option<usize>)
    ensures
        match r {
            Some(i) => find_byte(b@, x) == Some(i as int),
            None => find_byte(b@, x) is None,
        },
{
    let n = b.len();
    let mut i: usize = 0;
    while i < n
        invariant
            n == b@.len(),
            i <= n,
            forall|j: int| 0 <= j < i ==> b@[j] != x,
        decreases n - i,
    {
        if b[i] == x {
            proof {
                lemma_find_byte(b@, x);
                match find_byte(b@, x) {
                    Some(k) => {
                        if k > i {
                            assert(b@[i as int] == x);
                        }
                    },
                    None => {
                        assert(b@[i as int] == x);
                    },
                }
            }
            return Some(i);
        }
        i = i + 1;
    }
    proof {
        lemma_find_byte(b@, x);
        match find_byte(b@, x) {
            Some(k) => {
                assert(b@[k] != x);
            },
            None => {},
        }
    }
    None
}


/// A line that panics stays a panic whatever lines follow it.
proof fn lemma_parse_lines_none(a: Seq<Seq<u8>>, b: Seq<Seq<u8>>)
    requires
        parse_lines(a) is None,
    ensures
        parse_lines(a + b) is None,
    decreases b.len(),
{
    if b.len() == 0 {
        assert(a + b =~= a);
    } else {
        lemma_parse_lines_none(a, b.drop_last());
        assert((a + b).drop_last() =~= a + b.drop_last());
    }
}

proof fn lemma_bom_boundary(t: Seq<u8>)
    requires
        valid_utf8(t),
        t.len() >= 3,
        t[0] == 0xef,
    ensures
        str_boundary(t, 3),
{
    reveal_with_fuel(is_char_boundary, 2);
    assert(length_of_first_scalar(t) == 3);
    assert(valid_first_scalar(t) && valid_utf8(pop_first_scalar(t)));
    assert(is_char_boundary(t, 3) == is_char_boundary(pop_first_scalar(t), 0));
    lemma_str_boundary(t, 3);
}

/// The notices of the lines before the first line whose reading panics.
pub open spec fn notices_until_panic(ls: Seq<Seq<u8>>) -> Seq<RuleNotice<Seq<char>>>
    decreases ls.len(),
{
    if ls.len() == 0 {
        Seq::empty()
    } else {
        match parse_lines(ls.drop_last()) {
            None => notices_until_panic(ls.drop_last()),
            Some(acc) => match line_step(acc, ls.last()) {
                None => acc.1,
                Some(p) => p.1,
            },
        }
    }
}

/// Once a line panics, the notices up to it are those of the lines before it,
/// whatever lines follow.
proof fn lemma_notices_until_panic(before: Seq<Seq<u8>>, line: Seq<u8>, rest: Seq<Seq<u8>>)
    requires
        parse_lines(before) is Some,
        line_step(parse_lines(before)->Some_0, line) is None,
    ensures
        notices_until_panic(before.push(line) + rest) == parse_lines(before)->Some_0.1,
    decreases rest.len(),
{
    let x = before.push(line) + rest;
    if rest.len() == 0 {
        assert(x =~= before.push(line));
        assert(x.drop_last() =~= before);
    } else {
        assert(before.push(line).drop_last() =~= before);
        assert(parse_lines(before.push(line)) is None);
        lemma_parse_lines_none(before.push(line), rest.drop_last());
        assert(x.drop_last() =~= before.push(line) + rest.drop_last());
        lemma_notices_until_panic(before, line, rest.drop_last());
    }
}

/// Reads the rules in the text of rules.txt, with a notice for each line that
/// was skipped; where reading a line's TIP text panics, `Err` with the notices
/// of the lines before it.
pub fn read_rules(text: &str) -> (r: Result<(Vec<Rule>, Vec<RuleNotice<String>>), Vec<RuleNotice<String>>>)
    ensures
        match rules_outcome(text.spec_bytes()) {
            None => r matches Err(ns) && notices_view(ns@) == notices_until_panic(
                lines_of(strip_bom(text.spec_bytes())),
            ),
            Some(p) => r matches Ok((rs, ns)) && rules_view(rs@) == p.0 && notices_view(ns@)
                == p.1,
        },
{
    let t = text.as_bytes();
    let n = t.len();
    let ghost tb = text.spec_bytes();
    proof {
        encode_utf8_valid_utf8(text@);
    }
    let mut start: usize = 0;
    if n >= 3 && t[0] == 0xef && t[1] == 0xbb && t[2] == 0xbf {
        start = 3;
        proof {
            lemma_bom_boundary(tb);
        }
    }
    let ghost body = strip_bom(tb);
    assert(body =~= tb.subrange(start as int, n as int));
    let mut rules: Vec<Rule> = Vec::new();
    let mut notices: Vec<RuleNotice<String>> = Vec::new();
    let ghost mut done: Seq<Seq<u8>> = Seq::empty();
    assert(done + lines_of(body) =~= lines_of(body));
    assert(rules_view(rules@) =~= Seq::<RuleV>::empty());
    assert(notices_view(notices@) =~= Seq::<RuleNotice<Seq<char>>>::empty());
    while start < n
        invariant
            n == t@.len(),
            tb == t@,
            tb == text.spec_bytes(),
            valid_utf8(tb),
            start <= n,
            str_boundary(tb, start as int),
            body == strip_bom(tb),
            done + lines_of(tb.subrange(start as int, n as int)) == lines_of(body),
            parse_lines(done) == Some((rules_view(rules@), notices_view(notices@))),
        decreases n - start,
    {
        let ghost before = done;
        let (end, next) = next_line(t, start);
        proof {
            if next < n {
                lemma_cut_after_ascii(tb, next - 1);
            }
        }
        let raw = substr(text, start, end);
        let ghost piece = tb.subrange(start as int, end as int);
        assert(before.push(piece) + lines_of(tb.subrange(next as int, n as int)) =~= before
            + lines_of(tb.subrange(start as int, n as int)));
        assert(before.push(piece).drop_last() =~= before);
        if !read_line(raw, &mut rules, &mut notices) {
            proof {
                lemma_parse_lines_none(before.push(piece), lines_of(tb.subrange(next as int, n as int)));
                lemma_notices_until_panic(before, piece, lines_of(tb.subrange(next as int, n as int)));
            }
            return Err(notices);
        }
        proof {
            done = before.push(piece);
        }
        start = next;
    }
    assert(tb.subrange(start as int, n as int) =~= Seq::<u8>::empty());
    assert(done + Seq::<Seq<u8>>::empty() =~= done);
    Ok((rules, notices))
}

/// Where the line that starts at `start` ends (before its `\r\n` or `\n`) and
/// where the next one starts.
fn next_line(t: &[u8], start: usize) -> (r: (usize, usize))
    requires
        start < t@.len(),
    ensures
        start <= r.0 <= r.1 <= t@.len(),
        start < r.1,
        lines_of(t@.subrange(start as int, t@.len() as int)) == seq![
            t@.subrange(start as int, r.0 as int),
        ] + lines_of(t@.subrange(r.1 as int, t@.len() as int)),
        r.1 == t@.len() || t@[r.1 - 1] == 0x0a,
        r.0 == t@.len() || t@[r.0 as int] == 0x0a || t@[r.0 as int] == 0x0d,
{
    let n = t.len();
    let ghost sub = t@.subrange(start as int, n as int);
    let found = find_from_bytes_at(t, 0x0a, start);
    proof {
        lemma_find_byte(sub, 0x0a);
    }
    match found {
        None => {
            assert(t@.subrange(n as int, n as int) =~= Seq::<u8>::empty());
            assert(seq![sub] + Seq::<Seq<u8>>::empty() =~= seq![sub]);
            (n, n)
        },
        Some(i) => {
            let k = i - start;
            assert(sub.skip(k + 1) =~= t@.subrange(i + 1, n as int));
            assert(t@[i as int] == sub[k as int]);
            if i > start && t[i - 1] == 0x0d {
                assert(strip_cr(sub.take(k as int)) =~= t@.subrange(start as int, i - 1));
                (i - 1, i + 1)
            } else {
                assert(strip_cr(sub.take(k as int)) =~= t@.subrange(start as int, i as int));
                (i, i + 1)
            }
        },
    }
}

fn find_from_bytes_at(b: &[u8], x: u8, start: usize) -> (r: Option<usize>)
    requires
        start <= b@.len(),
    ensures
        match r {
            Some(i) => start <= i < b@.len() && find_byte(
                b@.subrange(start as int, b@.len() as int),
                x,
            ) == Some(i - start),
            None => find_byte(b@.subrange(start as int, b@.len() as int), x) is None,
        },
{
    let ghost sub = b@.subrange(start as int, b@.len() as int);
    let n = b.len();
    let mut i = start;
    while i < n
        invariant
            n == b@.len(),
            start <= i <= n,
            sub == b@.subrange(start as int, b@.len() as int),
            forall|j: int| start <= j < i ==> b@[j] != x,
        decreases n - i,
    {
        if b[i] == x {
            proof {
                lemma_find_byte(sub, x);
                assert(sub[i - start] == x);
                match find_byte(sub, x) {
                    Some(k) => {
                        if k < i - start {
                            assert(sub[k] == b@[start + k]);
                        }
                    },
                    None => {},
                }
            }
            return Some(i);
        }
        i = i + 1;
    }
    proof {
        lemma_find_byte(sub, x);
        match find_byte(sub, x) {
            Some(k) => {
                assert(sub[k] == b@[start + k]);
            },
            None => {},
        }
    }
    None
}


/// The rules in the text of rules.txt (once the file is read) and a notice for
/// each line that was skipped, in order.
pub fn load(text: &str) -> (r: (Vec<Rule>, Vec<RuleNotice<String>>))
    requires
        rules_outcome(text.spec_bytes()) is Some,
    ensures
        rules_outcome(text.spec_bytes()) == Some((rules_view(r.0@), notices_view(r.1@))),
{
    match read_rules(text) {
        Ok(p) => p,
        Err(_) => (Vec::new(), Vec::new()),
    }
}

/// Whether `i` is the first rule for the program `key`.
pub open spec fn is_first_rule_for(rs: Seq<RuleV>, key: Seq<char>, i: int) -> bool {
    0 <= i < rs.len() && rs[i].exe == key && forall|j: int| 0 <= j < i ==> rs[j].exe != key
}

/// The first rule for the program `key`.
pub open spec fn first_rule_for(rs: Seq<RuleV>, key: Seq<char>) -> Option<int> {
    if exists|i: int| is_first_rule_for(rs, key, i) {
        Some(choose|i: int| is_first_rule_for(rs, key, i))
    } else {
        None
    }
}

pub proof fn lemma_first_rule_for(rs: Seq<RuleV>, key: Seq<char>, i: int)
    requires
        is_first_rule_for(rs, key, i),
    ensures
        first_rule_for(rs, key) == Some(i),
{
    let k = choose|k: int| is_first_rule_for(rs, key, k);
    if k < i {
        assert(rs[k].exe != key);
    }
    if i < k {
        assert(rs[i].exe != key);
    }
}

/// The position of the rule for the program `exe`: none for an empty name.
pub open spec fn rule_for(rs: Seq<RuleV>, exe: Seq<char>) -> Option<int> {
    if exe.len() == 0 {
        None
    } else {
        first_rule_for(rs, lowercase(exe))
    }
}

/// The position of the rule for the program `exe` (case does not matter); none
/// for an empty name.
pub fn find_index(rules: &[Rule], exe: &str) -> (r: Option<usize>)
    ensures
        match r {
            Some(i) => rule_for(rules_view(rules@), exe@) == Some(i as int),
            None => rule_for(rules_view(rules@), exe@) is None,
        },
{
    if exe.is_empty() {
        return None;
    }
    let e = to_lower(exe);
    let ghost rv = rules_view(rules@);
    let n = rules.len();
    let mut i: usize = 0;
    while i < n
        invariant
            n == rules@.len(),
            i <= n,
            rv == rules_view(rules@),
            e@ == lowercase(exe@),
            exe@.len() > 0,
            forall|j: int| 0 <= j < i ==> rv[j].exe != e@,
        decreases n - i,
    {
        if rules[i].exe == e {
            proof {
                lemma_first_rule_for(rv, e@, i as int);
            }
            return Some(i);
        }
        i = i + 1;
    }
    proof {
        if exists|k: int| is_first_rule_for(rv, e@, k) {
            let k = choose|k: int| is_first_rule_for(rv, e@, k);
            assert(rv[k].exe != e@);
        }
    }
    None
}

/// The rule for the program `exe` (case does not matter); none for an empty name.
pub fn find<'a>(rules: &'a [Rule], exe: &str) -> (r: Option<&'a Rule>)
    ensures
        exe@.len() == 0 ==> r is None,
        match rule_for(rules_view(rules@), exe@) {
            Some(i) => r matches Some(x) && *x == rules@[i],
            None => r is None,
        },
{
    match find_index(rules, exe) {
        Some(i) => Some(&rules[i]),
        None => None,
    }
}

impl Rule {
    /// `program.exe → name` for the menu and the log; the name is the input
    /// method's description where there is one, else its TIP text.
    pub fn display(&self, description: Option<String>) -> (r: String)
        ensures
            r@ == self.exe@ + " → "@ + match description {
                Some(d) => d@,
                None => self.tip@,
            },
    {
        let mut s = String::new();
        push_str(&mut s, self.exe.as_str());
        push_str(&mut s, " → ");
        match description {
            Some(d) => push_str(&mut s, d.as_str()),
            None => push_str(&mut s, self.tip.as_str()),
        }
        assert(s@ =~= self.exe@ + " → "@ + match description {
            Some(d) => d@,
            None => self.tip@,
        });
        s
    }
}

/// No two rules name the same program.
pub open spec fn distinct_names(rs: Seq<RuleV>) -> bool {
    forall|i: int, j: int| 0 <= i < rs.len() && 0 <= j < rs.len() && i != j ==> rs[i].exe != rs[j].exe
}

proof fn lemma_parse_lines_distinct(ls: Seq<Seq<u8>>)
    ensures
        parse_lines(ls) matches Some(p) ==> distinct_names(p.0),
    decreases ls.len(),
{
    if ls.len() > 0 {
        lemma_parse_lines_distinct(ls.drop_last());
        match parse_lines(ls.drop_last()) {
            Some(acc) => {
                match line_step(acc, ls.last()) {
                    Some(p) => {
                        if p.0.len() > acc.0.len() {
                            let n = acc.0.len() as int;
                            assert forall|i: int, j: int|
                                0 <= i < p.0.len() && 0 <= j < p.0.len() && i != j implies p.0[i].exe
                                != p.0[j].exe by {
                                if i == n {
                                    assert(!has_exe(acc.0, p.0[n].exe));
                                    assert(acc.0[j] == p.0[j]);
                                } else if j == n {
                                    assert(!has_exe(acc.0, p.0[n].exe));
                                    assert(acc.0[i] == p.0[i]);
                                } else {
                                    assert(acc.0[i] == p.0[i]);
                                    assert(acc.0[j] == p.0[j]);
                                }
                            }
                        }
                    },
                    None => {},
                }
            },
            None => {},
        }
    }
}

/// Every program has at most one rule: a later line for a program that already
/// has a rule is skipped.
pub proof fn lemma_rules_distinct(text: Seq<u8>)
    ensures
        rules_outcome(text) matches Some(p) ==> distinct_names(p.0),
{
    lemma_parse_lines_distinct(lines_of(strip_bom(text)));
}

/// Among rules with distinct names, the rule a name finds is the one with that
/// (lower-case) name.
pub proof fn lemma_find_unique(rs: Seq<RuleV>, key: Seq<char>, i: int)
    requires
        distinct_names(rs),
        0 <= i < rs.len(),
        rs[i].exe == key,
    ensures
        first_rule_for(rs, key) == Some(i),
{
    assert forall|j: int| 0 <= j < i implies rs[j].exe != key by {
        assert(rs[j].exe != rs[i].exe);
    }
    lemma_first_rule_for(rs, key, i);
}


/// Every rule has a program name, and TIP text that reads back as its language
/// and GUIDs.
pub open spec fn well_formed_rules(rs: Seq<RuleV>) -> bool {
    forall|i: int|
        0 <= i < rs.len() ==> #[trigger] rs[i].exe.len() > 0 && rs[i].tip == tip_chars(
            rs[i].langid,
            rs[i].clsid,
            rs[i].profile,
        ) && rs[i].clsid.3.len() == 8 && rs[i].profile.3.len() == 8 && tip_outcome(
            encode_utf8(rs[i].tip),
        ) == Some(
            Ok::<(u16, GuidV, GuidV), TipError<Seq<char>>>(
                (rs[i].langid, rs[i].clsid, rs[i].profile),
            ),
        )
}

proof fn lemma_parse_lines_well_formed(ls: Seq<Seq<u8>>)
    ensures
        parse_lines(ls) matches Some(p) ==> well_formed_rules(p.0),
    decreases ls.len(),
{
    if ls.len() > 0 {
        lemma_parse_lines_well_formed(ls.drop_last());
        match parse_lines(ls.drop_last()) {
            Some(acc) => {
                match line_kind(ls.last()) {
                    LineKind::Entry(line, exe, tip_raw) => {
                        lemma_tip_outcome_len(encode_utf8(tip_raw));
                        match tip_outcome(encode_utf8(tip_raw)) {
                            Some(Ok((l, c, p))) => {
                                lemma_tip_roundtrip(l, c, p);
                                match line_step(acc, ls.last()) {
                                    Some(q) => {
                                        assert forall|i: int| 0 <= i < q.0.len() implies #[trigger] q.0[i].exe.len() > 0 && q.0[i].tip == tip_chars(
                                            q.0[i].langid,
                                            q.0[i].clsid,
                                            q.0[i].profile,
                                        ) && q.0[i].clsid.3.len() == 8 && q.0[i].profile.3.len() == 8 && tip_outcome(
                                            encode_utf8(q.0[i].tip),
                                        ) == Some(
                                            Ok::<(u16, GuidV, GuidV), TipError<Seq<char>>>(
                                                (q.0[i].langid, q.0[i].clsid, q.0[i].profile),
                                            ),
                                        ) by {
                                            if i < acc.0.len() {
                                                assert(q.0[i] == acc.0[i]);
                                            }
                                        }
                                    },
                                    None => {},
                                }
                            },
                            _ => {},
                        }
                    },
                    _ => {},
                }
            },
            None => {},
        }
    }
}

/// Every rule read from rules.txt names a program, and its TIP text reads back
/// as the rule's language and GUIDs.
pub proof fn lemma_rules_well_formed(text: Seq<u8>)
    ensures
        rules_outcome(text) matches Some(p) ==> well_formed_rules(p.0),
{
    lemma_parse_lines_well_formed(lines_of(strip_bom(text)));
}

} // verus!
