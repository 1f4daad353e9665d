//! Input method identities ("TIP" text): `LLLL:{CLSID}{PROFILE}` with upper-case
//! hexadecimal, its reading back, and the keyboard-layout form `LLLL:HKL:HHHHHHHH`.
use vstd::prelude::*;
use vstd::utf8::*;
use crate::hex::{hex_value, parse_hex, IntErrorKind};
use vstd::string::StringSliceAdditionalSpecFns;
use crate::text::{hex_fixed, push_char, push_fixed, push_str, str_boundary, substr, lemma_cut_after_ascii, lemma_str_boundary, lemma_encode_concat};

verus! {

/// Profile type of a text-service input processor (a TSF input method).
pub const TF_PROFILETYPE_INPUTPROCESSOR: u32 = 0x0001;
/// Activation applies to the calling process.
pub const TF_IPPMF_FORPROCESS: u32 = 0x1000_0000;
/// Activation applies to the whole session.
pub const TF_IPPMF_FORSESSION: u32 = 0x2000_0000;

/// A GUID by its four fields, as Windows lays it out.
#[derive(Clone, Copy, Debug, PartialEq, Eq)]
pub struct Guid {
    pub data1: u32,
    pub data2: u16,
    pub data3: u16,
    pub data4: [u8; 8],
}

/// A GUID as plain values: the three leading fields and the eight trailing bytes.
pub type GuidV = (u32, u16, u16, Seq<u8>);

impl View for Guid {
    type V = GuidV;

    open spec fn view(&self) -> GuidV {
        (self.data1, self.data2, self.data3, self.data4@)
    }
}

impl Guid {
    /// The GUID with the given fields.
    pub fn from_values(data1: u32, data2: u16, data3: u16, data4: [u8; 8]) -> (g: Guid)
        ensures
            g@ == (data1, data2, data3, data4@),
    {
        Guid { data1, data2, data3, data4 }
    }
}

/// A GUID written `XXXXXXXX-XXXX-XXXX-XXXX-XXXXXXXXXXXX`, upper case.
pub open spec fn guid_chars(g: GuidV) -> Seq<char> {
    hex_fixed(g.0 as nat, 8) + seq!['-'] + hex_fixed(g.1 as nat, 4) + seq!['-'] + hex_fixed(
        g.2 as nat,
        4,
    ) + seq!['-'] + hex_fixed(g.3[0] as nat, 2) + hex_fixed(g.3[1] as nat, 2) + seq!['-']
        + hex_fixed(g.3[2] as nat, 2) + hex_fixed(g.3[3] as nat, 2) + hex_fixed(g.3[4] as nat, 2)
        + hex_fixed(g.3[5] as nat, 2) + hex_fixed(g.3[6] as nat, 2) + hex_fixed(g.3[7] as nat, 2)
}

/// The TIP text of an input method: language, then the two GUIDs in braces.
pub open spec fn tip_chars(langid: u16, clsid: GuidV, profile: GuidV) -> Seq<char> {
    hex_fixed(langid as nat, 4) + seq![':', '{'] + guid_chars(clsid) + seq!['}', '{'] + guid_chars(
        profile,
    ) + seq!['}']
}

fn push_guid(s: &mut String, g: &Guid)
    ensures
        final(s)@ == old(s)@ + guid_chars(g@),
{
    let ghost s0 = s@;
    let d = g.data4;
    push_fixed(s, g.data1 as u64, 8, 16);
    push_char(s, '-');
    push_fixed(s, g.data2 as u64, 4, 16);
    push_char(s, '-');
    push_fixed(s, g.data3 as u64, 4, 16);
    push_char(s, '-');
    push_fixed(s, d[0] as u64, 2, 16);
    push_fixed(s, d[1] as u64, 2, 16);
    push_char(s, '-');
    push_fixed(s, d[2] as u64, 2, 16);
    push_fixed(s, d[3] as u64, 2, 16);
    push_fixed(s, d[4] as u64, 2, 16);
    push_fixed(s, d[5] as u64, 2, 16);
    push_fixed(s, d[6] as u64, 2, 16);
    push_fixed(s, d[7] as u64, 2, 16);
    assert(s@ =~= s0 + guid_chars(g@));
}

/// The TIP text of an input method, as `Get-WinUserLanguageList` shows it in
/// `InputMethodTips`.
pub fn format_tip(langid: u16, clsid: &Guid, profile: &Guid) -> (r: String)
    ensures
        r@ == tip_chars(langid, clsid@, profile@),
{
    let mut s = String::new();
    push_fixed(&mut s, langid as u64, 4, 16);
    push_char(&mut s, ':');
    push_char(&mut s, '{');
    push_guid(&mut s, clsid);
    push_char(&mut s, '}');
    push_char(&mut s, '{');
    push_guid(&mut s, profile);
    push_char(&mut s, '}');
    assert(s@ =~= tip_chars(langid, clsid@, profile@));
    s
}


// ---------------------------------------------------------------------------
// Reading TIP text back. The reading works on the UTF-8 bytes of the text, as
// the slicing and `from_str_radix` do.
// ---------------------------------------------------------------------------

/// The first position of `x` in `b`.
pub open spec fn find_byte(b: Seq<u8>, x: u8) -> Option<int>
    decreases b.len(),
{
    if b.len() == 0 {
        None
    } else if b[0] == x {
        Some(0)
    } else {
        match find_byte(b.drop_first(), x) {
            Some(i) => Some(i + 1),
            None => None,
        }
    }
}

pub proof fn lemma_find_byte(b: Seq<u8>, x: u8)
    ensures
        match find_byte(b, x) {
            Some(i) => 0 <= i < b.len() && b[i] == x && forall|j: int| 0 <= j < i ==> b[j] != x,
            None => forall|j: int| 0 <= j < b.len() ==> b[j] != x,
        },
    decreases b.len(),
{
    if b.len() > 0 && b[0] != x {
        lemma_find_byte(b.drop_first(), x);
        assert(forall|j: int| 0 < j < b.len() ==> b[j] == b.drop_first()[j - 1]);
    }
}

/// The pieces of `b` between the occurrences of `x`, as `str::split` gives them.
pub open spec fn split_on(b: Seq<u8>, x: u8) -> Seq<Seq<u8>>
    decreases b.len(),
{
    match find_byte(b, x) {
        None => seq![b],
        Some(i) => {
            proof {
                lemma_find_byte(b, x);
            }
            seq![b.take(i)] + split_on(b.skip(i + 1), x)
        },
    }
}

pub open spec fn is_brace(c: u8) -> bool {
    c == 0x7b || c == 0x7d
}

/// How many braces `b` starts with.
pub open spec fn lead_braces(b: Seq<u8>) -> nat
    decreases b.len(),
{
    if b.len() > 0 && is_brace(b[0]) {
        1 + lead_braces(b.drop_first())
    } else {
        0
    }
}

/// How many braces `b` ends with.
pub open spec fn trail_braces(b: Seq<u8>) -> nat
    decreases b.len(),
{
    if b.len() > 0 && is_brace(b.last()) {
        1 + trail_braces(b.drop_last())
    } else {
        0
    }
}

pub proof fn lemma_lead_braces(b: Seq<u8>)
    ensures
        lead_braces(b) <= b.len(),
        forall|j: int| 0 <= j < lead_braces(b) ==> is_brace(b[j]),
        lead_braces(b) < b.len() ==> !is_brace(b[lead_braces(b) as int]),
    decreases b.len(),
{
    if b.len() > 0 && is_brace(b[0]) {
        lemma_lead_braces(b.drop_first());
        assert(forall|j: int| 0 < j < b.len() ==> b[j] == b.drop_first()[j - 1]);
    }
}

pub proof fn lemma_trail_braces(b: Seq<u8>)
    ensures
        trail_braces(b) <= b.len(),
        forall|j: int| b.len() - trail_braces(b) <= j < b.len() ==> is_brace(b[j]),
        trail_braces(b) < b.len() ==> !is_brace(b[b.len() - 1 - trail_braces(b)]),
    decreases b.len(),
{
    if b.len() > 0 && is_brace(b.last()) {
        lemma_trail_braces(b.drop_last());
        assert(forall|j: int| 0 <= j < b.len() - 1 ==> b[j] == b.drop_last()[j]);
    }
}

/// `b` without the braces at either end, as `trim_matches` on `{` and `}` gives it.
pub open spec fn trim_braces(b: Seq<u8>) -> Seq<u8> {
    let r = b.skip(lead_braces(b) as int);
    r.take(r.len() - trail_braces(r))
}

/// Why TIP text or a GUID was not read. `S` is the text the message quotes.
#[derive(Clone, Debug, PartialEq, Eq)]
pub enum TipError<S> {
    /// No `:` in the TIP.
    MissingColon,
    /// The `:` is not after exactly four bytes.
    LangIdWidth,
    /// The language is not a hexadecimal `u16`.
    LangId(IntErrorKind),
    /// No `{`.
    MissingFirstOpen,
    /// No `}`.
    MissingFirstClose,
    /// No `{` after the first `}`.
    MissingSecondOpen,
    /// No `}` after the second `{`.
    MissingSecondClose,
    /// The GUID (quoted) does not have five parts.
    GuidSegments(S),
    /// The last two parts of the GUID (quoted, joined) are not 16 bytes long.
    GuidTail(S),
    /// A field of the GUID is not a hexadecimal number of its size.
    GuidField(IntErrorKind),
}

impl View for TipError<String> {
    type V = TipError<Seq<char>>;

    open spec fn view(&self) -> TipError<Seq<char>> {
        match self {
            TipError::MissingColon => TipError::MissingColon,
            TipError::LangIdWidth => TipError::LangIdWidth,
            TipError::LangId(k) => TipError::LangId(*k),
            TipError::MissingFirstOpen => TipError::MissingFirstOpen,
            TipError::MissingFirstClose => TipError::MissingFirstClose,
            TipError::MissingSecondOpen => TipError::MissingSecondOpen,
            TipError::MissingSecondClose => TipError::MissingSecondClose,
            TipError::GuidSegments(s) => TipError::GuidSegments(s@),
            TipError::GuidTail(s) => TipError::GuidTail(s@),
            TipError::GuidField(k) => TipError::GuidField(*k),
        }
    }
}

/// The eight bytes of the 16-byte GUID tail `t`, two bytes at a time from pair
/// `i` on; `None` where a cut falls inside a character (a slicing panic).
pub open spec fn tail_pairs(t: Seq<u8>, i: nat) -> Option<Result<Seq<u8>, IntErrorKind>>
    decreases 8 - i,
{
    if i >= 8 {
        Some(Ok(Seq::empty()))
    } else if !str_boundary(t, 2 * i as int) || !str_boundary(t, 2 * i as int + 2) {
        None
    } else {
        match hex_value(t.subrange(2 * i as int, 2 * i as int + 2), 0xff) {
            Err(e) => Some(Err(e)),
            Ok(v) => match tail_pairs(t, i + 1) {
                None => None,
                Some(Err(e)) => Some(Err(e)),
                Some(Ok(rest)) => Some(Ok(seq![v as u8] + rest)),
            },
        }
    }
}

/// What reading a GUID from the bytes `s` gives; `None` where it panics.
pub open spec fn guid_outcome(s: Seq<u8>) -> Option<Result<GuidV, TipError<Seq<char>>>> {
    let t = trim_braces(s);
    let parts = split_on(t, 0x2d);
    if parts.len() != 5 {
        Some(Err(TipError::GuidSegments(decode_utf8(t))))
    } else {
        match hex_value(parts[0], 0xffff_ffff) {
            Err(e) => Some(Err(TipError::GuidField(e))),
            Ok(d1) => match hex_value(parts[1], 0xffff) {
                Err(e) => Some(Err(TipError::GuidField(e))),
                Ok(d2) => match hex_value(parts[2], 0xffff) {
                    Err(e) => Some(Err(TipError::GuidField(e))),
                    Ok(d3) => {
                        let tail = parts[3] + parts[4];
                        if tail.len() != 16 {
                            Some(Err(TipError::GuidTail(decode_utf8(tail))))
                        } else {
                            match tail_pairs(tail, 0) {
                                None => None,
                                Some(Err(e)) => Some(Err(TipError::GuidField(e))),
                                Some(Ok(d4)) => Some(Ok((d1 as u32, d2 as u16, d3 as u16, d4))),
                            }
                        }
                    },
                },
            },
        }
    }
}

/// What reading TIP text from the bytes `t` gives; `None` where it panics.
pub open spec fn tip_outcome(t: Seq<u8>) -> Option<Result<(u16, GuidV, GuidV), TipError<Seq<char>>>> {
    match find_byte(t, 0x3a) {
        None => Some(Err(TipError::MissingColon)),
        Some(colon) => if colon != 4 {
            Some(Err(TipError::LangIdWidth))
        } else {
            match hex_value(t.take(4), 0xffff) {
                Err(e) => Some(Err(TipError::LangId(e))),
                Ok(langid) => match find_byte(t, 0x7b) {
                    None => Some(Err(TipError::MissingFirstOpen)),
                    Some(open1) => match find_byte(t, 0x7d) {
                        None => Some(Err(TipError::MissingFirstClose)),
                        Some(close1) => match find_byte(t.skip(close1), 0x7b) {
                            None => Some(Err(TipError::MissingSecondOpen)),
                            Some(k) => {
                                let open2 = k + close1;
                                match find_byte(t.skip(open2), 0x7d) {
                                    None => Some(Err(TipError::MissingSecondClose)),
                                    Some(k2) => {
                                        let close2 = k2 + open2;
                                        if open1 >= close1 {
                                            None
                                        } else {
                                            match guid_outcome(t.subrange(open1 + 1, close1)) {
                                                None => None,
                                                Some(Err(e)) => Some(Err(e)),
                                                Some(Ok(clsid)) => match guid_outcome(
                                                    t.subrange(open2 + 1, close2),
                                                ) {
                                                    None => None,
                                                    Some(Err(e)) => Some(Err(e)),
                                                    Some(Ok(profile)) => Some(
                                                        Ok((langid as u16, clsid, profile)),
                                                    ),
                                                },
                                            }
                                        }
                                    },
                                }
                            },
                        },
                    },
                },
            }
        }
    }
}

pub open spec fn guid_read_view(r: Option<Result<Guid, TipError<String>>>) -> Option<
    Result<GuidV, TipError<Seq<char>>>,
> {
    match r {
        None => None,
        Some(Ok(g)) => Some(Ok(g@)),
        Some(Err(e)) => Some(Err(e@)),
    }
}

pub open spec fn tip_read_view(r: Option<Result<(u16, Guid, Guid), TipError<String>>>) -> Option<
    Result<(u16, GuidV, GuidV), TipError<Seq<char>>>,
> {
    match r {
        None => None,
        Some(Ok((l, c, p))) => Some(Ok((l, c@, p@))),
        Some(Err(e)) => Some(Err(e@)),
    }
}

/// The first `x` in `b` at or after `start`.
fn find_from(b: &[u8], x: u8, start: usize) -> (r: Option<usize>)
    requires
        start <= b@.len(),
    ensures
        match r {
            Some(i) => start <= i < b@.len() && find_byte(
                b@.subrange(start as int, b@.len() as int),
                x,
            ) == Some(i - start),
            None => find_byte(b@.subrange(start as int, b@.len() as int), x) is None,
        },
{
    let ghost sub = b@.subrange(start as int, b@.len() as int);
    let mut i = start;
    while i < b.len()
        invariant
            start <= i <= b@.len(),
            sub == b@.subrange(start as int, b@.len() as int),
            forall|j: int| start <= j < i ==> b@[j] != x,
        decreases b@.len() - i,
    {
        if b[i] == x {
            proof {
                lemma_find_byte(sub, x);
                assert(sub[i - start] == x);
                match find_byte(sub, x) {
                    Some(k) => {
                        if k < i - start {
                            assert(sub[k] == b@[start + k]);
                        }
                    },
                    None => {},
                }
            }
            return Some(i);
        }
        i = i + 1;
    }
    proof {
        lemma_find_byte(sub, x);
        match find_byte(sub, x) {
            Some(k) => {
                assert(sub[k] == b@[start + k]);
            },
            None => {},
        }
    }
    None
}

pub open spec fn parts_of(b: Seq<u8>, rs: Seq<(usize, usize)>) -> Seq<Seq<u8>> {
    Seq::new(rs.len(), |k: int| b.subrange(rs[k].0 as int, rs[k].1 as int))
}

/// The byte ranges of the pieces of `b` between occurrences of `x`.
fn split_ranges(b: &[u8], x: u8) -> (r: Vec<(usize, usize)>)
    ensures
        parts_of(b@, r@) == split_on(b@, x),
        r@.len() >= 1,
        r@[0].0 == 0,
        r@[r@.len() - 1].1 == b@.len(),
        forall|k: int| #![trigger r@[k]] 0 <= k < r@.len() ==> r@[k].0 <= r@[k].1 <= b@.len(),
        forall|k: int|
            #![trigger r@[k]]
            0 <= k < r@.len() - 1 ==> r@[k].1 < b@.len() && b@[r@[k].1 as int] == x && r@[k
                + 1].0 == r@[k].1 + 1,
{
    let mut out: Vec<(usize, usize)> = Vec::new();
    let mut start: usize = 0;
    let n = b.len();
    assert(b@.subrange(0, b@.len() as int) =~= b@);
    loop
        invariant
            n == b@.len(),
            start <= b@.len(),
            parts_of(b@, out@) + split_on(b@.subrange(start as int, b@.len() as int), x) == split_on(
                b@,
                x,
            ),
            out@.len() == 0 ==> start == 0,
            out@.len() > 0 ==> start == out@[out@.len() - 1].1 + 1,
            out@.len() > 0 ==> out@[0].0 == 0,
            forall|k: int| #![trigger out@[k]] 0 <= k < out@.len() ==> out@[k].0 <= out@[k].1 < b@.len() && b@[out@[
                k].1 as int] == x,
            forall|k: int| #![trigger out@[k]] 0 <= k < out@.len() - 1 ==> out@[k + 1].0 == out@[k].1 + 1,
        decreases b@.len() - start,
    {
        let ghost sub = b@.subrange(start as int, b@.len() as int);
        let ghost before = out@;
        match find_from(b, x, start) {
            None => {
                out.push((start, b.len()));
                proof {
                    assert(split_on(sub, x) == seq![sub]);
                    assert(parts_of(b@, out@) =~= parts_of(b@, before).push(sub));
                    assert(parts_of(b@, out@) =~= parts_of(b@, before) + seq![sub]);
                }
                return out;
            },
            Some(p) => {
                out.push((start, p));
                proof {
                    lemma_find_byte(sub, x);
                    let i = p - start;
                    assert(sub.take(i) =~= b@.subrange(start as int, p as int));
                    assert(sub.skip(i + 1) =~= b@.subrange(p + 1, b@.len() as int));
                    assert(split_on(sub, x) == seq![sub.take(i)] + split_on(sub.skip(i + 1), x));
                    assert(parts_of(b@, out@) =~= parts_of(b@, before).push(
                        b@.subrange(start as int, p as int),
                    ));
                    assert(parts_of(b@, out@) + split_on(b@.subrange(p + 1, b@.len() as int), x)
                        =~= parts_of(b@, before) + split_on(sub, x));
                }
                start = p + 1;
            },
        }
    }
}


fn is_brace_byte(c: u8) -> (r: bool)
    ensures
        r == is_brace(c),
{
    c == 0x7b || c == 0x7d
}

fn boundary_at(b: &[u8], k: usize) -> (r: bool)
    ensures
        r == str_boundary(b@, k as int),
{
    k == 0 || k == b.len() || (k < b.len() && !(0x80 <= b[k] && b[k] <= 0xbf))
}

pub open spec fn prepend_pairs(p: Seq<u8>, o: Option<Result<Seq<u8>, IntErrorKind>>) -> Option<
    Result<Seq<u8>, IntErrorKind>,
> {
    match o {
        Some(Ok(r)) => Some(Ok(p + r)),
        _ => o,
    }
}

/// The braces trimmed from both ends of `s`, as byte offsets.
fn trim_brace_range(s: &str) -> (r: (usize, usize))
    ensures
        r.0 <= r.1 <= s.spec_bytes().len(),
        s.spec_bytes().subrange(r.0 as int, r.1 as int) == trim_braces(s.spec_bytes()),
        str_boundary(s.spec_bytes(), r.0 as int),
        str_boundary(s.spec_bytes(), r.1 as int),
{
    let b = s.as_bytes();
    let ghost sb = s.spec_bytes();
    let n = b.len();
    let mut lo: usize = 0;
    while lo < n && is_brace_byte(b[lo])
        invariant
            lo <= n,
            n == b@.len(),
            forall|j: int| 0 <= j < lo ==> is_brace(b@[j]),
        decreases n - lo,
    {
        lo = lo + 1;
    }
    let mut hi: usize = n;
    while hi > lo && is_brace_byte(b[hi - 1])
        invariant
            lo <= hi <= n,
            n == b@.len(),
            forall|j: int| hi <= j < n ==> is_brace(b@[j]),
        decreases hi,
    {
        hi = hi - 1;
    }
    proof {
        encode_utf8_valid_utf8(s@);
        lemma_lead_braces(sb);
        let lead = lead_braces(sb);
        if (lo as int) < lead {
            assert(is_brace(sb[lo as int]));
        }
        if lead < lo {
            assert(is_brace(sb[lead as int]));
        }
        assert(lo == lead);
        let r = sb.skip(lo as int);
        lemma_trail_braces(r);
        let tr = trail_braces(r);
        let m = n - hi;
        assert(forall|j: int| 0 <= j < r.len() ==> r[j] == sb[lo + j]);
        if m < tr {
            assert(is_brace(r[r.len() - 1 - m]));
            assert(r[r.len() - 1 - m] == sb[hi - 1]);
        }
        if tr < m {
            assert(is_brace(sb[n - 1 - tr]));
            assert(r[r.len() - 1 - tr] == sb[n - 1 - tr]);
        }
        assert(m == tr);
        assert(r.take(r.len() - tr) =~= sb.subrange(lo as int, hi as int));
        if lo > 0 {
            lemma_cut_after_ascii(sb, lo - 1);
        }
    }
    (lo, hi)
}

/// Reads a GUID (`{`/`}` around it allowed) as the hand-written field-by-field
/// reading does; `None` where that reading would panic on a cut inside a character.
pub fn read_guid(s: &str) -> (r: Option<Result<Guid, TipError<String>>>)
    ensures
        guid_read_view(r) == guid_outcome(s.spec_bytes()),
{
    let ghost sb = s.spec_bytes();
    let (lo, hi) = trim_brace_range(s);
    let trimmed = substr(s, lo, hi);
    let tb = trimmed.as_bytes();
    let ghost t = tb@;
    assert(t == trim_braces(sb));
    let ranges = split_ranges(tb, 0x2d);
    let ghost parts = split_on(t, 0x2d);
    if ranges.len() != 5 {
        return Some(Err(TipError::GuidSegments(trimmed.to_owned())));
    }
    assert(parts[0] == tb@.subrange(ranges@[0].0 as int, ranges@[0].1 as int));
    assert(parts[1] == tb@.subrange(ranges@[1].0 as int, ranges@[1].1 as int));
    assert(parts[2] == tb@.subrange(ranges@[2].0 as int, ranges@[2].1 as int));
    assert(parts[3] == tb@.subrange(ranges@[3].0 as int, ranges@[3].1 as int));
    assert(parts[4] == tb@.subrange(ranges@[4].0 as int, ranges@[4].1 as int));
    let r0 = ranges[0];
    let r1 = ranges[1];
    let r2 = ranges[2];
    let r3 = ranges[3];
    let r4 = ranges[4];
    let d1 = match parse_hex(tb, r0.0, r0.1, 0xffff_ffff) {
        Err(e) => {
            return Some(Err(TipError::GuidField(e)));
        },
        Ok(v) => v,
    };
    let d2 = match parse_hex(tb, r1.0, r1.1, 0xffff) {
        Err(e) => {
            return Some(Err(TipError::GuidField(e)));
        },
        Ok(v) => v,
    };
    let d3 = match parse_hex(tb, r2.0, r2.1, 0xffff) {
        Err(e) => {
            return Some(Err(TipError::GuidField(e)));
        },
        Ok(v) => v,
    };
    proof {
        encode_utf8_valid_utf8(trimmed@);
        assert(tb@[ranges@[2].1 as int] == 0x2d);
        assert(tb@[ranges@[3].1 as int] == 0x2d);
        lemma_cut_after_ascii(t, ranges@[2].1 as int);
        lemma_cut_after_ascii(t, ranges@[3].1 as int);
    }
    let p3 = substr(trimmed, r3.0, r3.1);
    let p4 = substr(trimmed, r4.0, r4.1);
    let mut tail = p3.to_owned();
    push_str(&mut tail, p4);
    let tbytes = tail.as_str().as_bytes();
    let ghost tt = parts[3] + parts[4];
    proof {
        lemma_encode_concat(p3@, p4@);
        assert(tbytes@ == tt);
        encode_utf8_decode_utf8(tail@);
    }
    if tbytes.len() != 16 {
        return Some(Err(TipError::GuidTail(tail)));
    }
    let mut d4 = [0u8; 8];
    let mut i: usize = 0;
    assert(d4@.take(0) =~= Seq::<u8>::empty());
    assert(prepend_pairs(Seq::<u8>::empty(), tail_pairs(tt, 0)) == tail_pairs(tt, 0)) by {
        match tail_pairs(tt, 0) {
            Some(Ok(r)) => {
                assert(Seq::<u8>::empty() + r =~= r);
            },
            _ => {},
        }
    }
    while i < 8
        invariant
            i <= 8,
            sb == s.spec_bytes(),
            tbytes@ == tt,
            tt.len() == 16,
            d4@.len() == 8,
            tail_pairs(tt, 0) == prepend_pairs(d4@.take(i as int), tail_pairs(tt, i as nat)),
            guid_outcome(sb) == match tail_pairs(tt, 0) {
                None => None,
                Some(Err(e)) => Some(Err(TipError::<Seq<char>>::GuidField(e))),
                Some(Ok(d)) => Some(Ok((d1 as u32, d2 as u16, d3 as u16, d))),
            },
        decreases 8 - i,
    {
        let a = 2 * i;
        if !boundary_at(tbytes, a) || !boundary_at(tbytes, a + 2) {
            return None;
        }
        let ghost before = d4@;
        match parse_hex(tbytes, a, a + 2, 0xff) {
            Err(e) => {
                return Some(Err(TipError::GuidField(e)));
            },
            Ok(v) => {
                d4[i] = v as u8;
                proof {
                    assert(d4@.take(i + 1) =~= before.take(i as int).push(v as u8));
                    match tail_pairs(tt, (i + 1) as nat) {
                        Some(Ok(rest)) => {
                            assert(before.take(i as int) + (seq![v as u8] + rest) =~= before.take(
                                i as int,
                            ).push(v as u8) + rest);
                        },
                        _ => {},
                    }
                }
                i = i + 1;
            },
        }
    }
    assert(d4@.take(8) =~= d4@);
    assert(d4@ + Seq::<u8>::empty() =~= d4@);
    Some(Ok(Guid { data1: d1 as u32, data2: d2 as u16, data3: d3 as u16, data4: d4 }))
}


/// Reads TIP text `LLLL:{CLSID}{PROFILE}`; `None` where the reading would panic
/// (a first `}` before the first `{`, or a GUID tail cut inside a character).
pub fn read_tip(tip: &str) -> (r: Option<Result<(u16, Guid, Guid), TipError<String>>>)
    ensures
        tip_read_view(r) == tip_outcome(tip.spec_bytes()),
{
    let t = tip.as_bytes();
    let ghost sb = tip.spec_bytes();
    proof {
        encode_utf8_valid_utf8(tip@);
    }
    assert(t@.subrange(0, t@.len() as int) =~= t@);
    let colon = match find_from(t, 0x3a, 0) {
        None => {
            return Some(Err(TipError::MissingColon));
        },
        Some(c) => c,
    };
    if colon != 4 {
        return Some(Err(TipError::LangIdWidth));
    }
    assert(t@.subrange(0, 4) =~= t@.take(4));
    let langid = match parse_hex(t, 0, 4, 0xffff) {
        Err(e) => {
            return Some(Err(TipError::LangId(e)));
        },
        Ok(v) => v,
    };
    let open1 = match find_from(t, 0x7b, 0) {
        None => {
            return Some(Err(TipError::MissingFirstOpen));
        },
        Some(i) => i,
    };
    let close1 = match find_from(t, 0x7d, 0) {
        None => {
            return Some(Err(TipError::MissingFirstClose));
        },
        Some(i) => i,
    };
    assert(t@.subrange(close1 as int, t@.len() as int) =~= t@.skip(close1 as int));
    let open2 = match find_from(t, 0x7b, close1) {
        None => {
            return Some(Err(TipError::MissingSecondOpen));
        },
        Some(i) => i,
    };
    assert(t@.subrange(open2 as int, t@.len() as int) =~= t@.skip(open2 as int));
    let close2 = match find_from(t, 0x7d, open2) {
        None => {
            return Some(Err(TipError::MissingSecondClose));
        },
        Some(i) => i,
    };
    if open1 >= close1 {
        return None;
    }
    proof {
        lemma_find_byte(t@, 0x7b);
        lemma_find_byte(t@, 0x7d);
        lemma_find_byte(t@.skip(close1 as int), 0x7b);
        lemma_find_byte(t@.skip(open2 as int), 0x7d);
        assert(t@[open2 as int] == 0x7b);
        assert(t@[close2 as int] == 0x7d);
        lemma_cut_after_ascii(sb, open1 as int);
        lemma_cut_after_ascii(sb, open2 as int);
    }
    let g1 = substr(tip, open1 + 1, close1);
    let clsid = match read_guid(g1) {
        None => {
            return None;
        },
        Some(Err(e)) => {
            return Some(Err(e));
        },
        Some(Ok(g)) => g,
    };
    let g2 = substr(tip, open2 + 1, close2);
    let profile = match read_guid(g2) {
        None => {
            return None;
        },
        Some(Err(e)) => {
            return Some(Err(e));
        },
        Some(Ok(g)) => g,
    };
    Some(Ok((langid as u16, clsid, profile)))
}

/// Whether reading `tip` as TIP text panics (then `parse_tip` is not to be called on it).
pub fn tip_parse_panics(tip: &str) -> (r: bool)
    ensures
        r == (tip_outcome(tip.spec_bytes()) is None),
{
    read_tip(tip).is_none()
}

/// The message `from_str_radix` gives for each failure.
pub open spec fn int_error_text(k: IntErrorKind) -> Seq<char> {
    match k {
        IntErrorKind::Empty => "cannot parse integer from empty string"@,
        IntErrorKind::InvalidDigit => "invalid digit found in string"@,
        IntErrorKind::PosOverflow => "number too large to fit in target type"@,
    }
}

/// The message for each failure to read TIP text.
pub open spec fn tip_error_text(e: TipError<Seq<char>>) -> Seq<char> {
    match e {
        TipError::MissingColon => "缺少冒号"@,
        TipError::LangIdWidth => "语言 ID 应为 4 位十六进制"@,
        TipError::LangId(k) => int_error_text(k),
        TipError::MissingFirstOpen => "缺少第一个 {"@,
        TipError::MissingFirstClose => "缺少第一个 }"@,
        TipError::MissingSecondOpen => "缺少第二个 {"@,
        TipError::MissingSecondClose => "缺少第二个 }"@,
        TipError::GuidSegments(s) => "GUID 段数不对: "@ + s,
        TipError::GuidTail(s) => "GUID 尾部长度不对: "@ + s,
        TipError::GuidField(k) => int_error_text(k),
    }
}

pub fn int_error_message(k: IntErrorKind) -> (r: String)
    ensures
        r@ == int_error_text(k),
{
    let mut s = String::new();
    match k {
        IntErrorKind::Empty => push_str(&mut s, "cannot parse integer from empty string"),
        IntErrorKind::InvalidDigit => push_str(&mut s, "invalid digit found in string"),
        IntErrorKind::PosOverflow => push_str(&mut s, "number too large to fit in target type"),
    }
    assert(s@ =~= int_error_text(k));
    s
}

impl TipError<String> {
    /// The message shown for this failure.
    pub fn message(&self) -> (r: String)
        ensures
            r@ == tip_error_text(self@),
    {
        let mut s = String::new();
        match self {
            TipError::MissingColon => push_str(&mut s, "缺少冒号"),
            TipError::LangIdWidth => push_str(&mut s, "语言 ID 应为 4 位十六进制"),
            TipError::LangId(k) => {
                return int_error_message(*k);
            },
            TipError::MissingFirstOpen => push_str(&mut s, "缺少第一个 {"),
            TipError::MissingFirstClose => push_str(&mut s, "缺少第一个 }"),
            TipError::MissingSecondOpen => push_str(&mut s, "缺少第二个 {"),
            TipError::MissingSecondClose => push_str(&mut s, "缺少第二个 }"),
            TipError::GuidSegments(t) => {
                push_str(&mut s, "GUID 段数不对: ");
                push_str(&mut s, t.as_str());
            },
            TipError::GuidTail(t) => {
                push_str(&mut s, "GUID 尾部长度不对: ");
                push_str(&mut s, t.as_str());
            },
            TipError::GuidField(k) => {
                return int_error_message(*k);
            },
        }
        assert(s@ =~= tip_error_text(self@));
        s
    }
}

/// Reads `LLLL:{CLSID}{PROFILE}` into the language and the two GUIDs, or says
/// why not.
pub fn parse_tip(tip: &str) -> (r: Result<(u16, Guid, Guid), String>)
    requires
        tip_outcome(tip.spec_bytes()) is Some,
    ensures
        match tip_outcome(tip.spec_bytes()) {
            Some(Ok((l, c, p))) => r matches Ok((l2, c2, p2)) && l2 == l && c2@ == c && p2@ == p,
            Some(Err(e)) => r matches Err(m) && m@ == tip_error_text(e),
            None => false,
        },
{
    match read_tip(tip) {
        Some(Ok(v)) => Ok(v),
        Some(Err(e)) => Err(e.message()),
        None => Err(String::new()),
    }
}

/// Reads a GUID `XXXXXXXX-XXXX-XXXX-XXXX-XXXXXXXXXXXX` (braces around it
/// allowed), or says why not.
pub fn parse_guid(s: &str) -> (r: Result<Guid, String>)
    requires
        guid_outcome(s.spec_bytes()) is Some,
    ensures
        match guid_outcome(s.spec_bytes()) {
            Some(Ok(g)) => r matches Ok(g2) && g2@ == g,
            Some(Err(e)) => r matches Err(m) && m@ == tip_error_text(e),
            None => false,
        },
{
    match read_guid(s) {
        Some(Ok(g)) => Ok(g),
        Some(Err(e)) => Err(e.message()),
        None => Err(String::new()),
    }
}

} // verus!
