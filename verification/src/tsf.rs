//! The text-services side that is plain computation: the text of the active
//! input method, the keyboard-layout form, and picking the keyboard input
//! methods out of an enumeration.
use vstd::prelude::*;
use vstd::utf8::*;
use vstd::string::StringSliceAdditionalSpecFns;
use crate::hex::{hex_value, parse_hex};
use crate::text::{hex_fixed, numeral, push_char, push_fixed, push_numeral, push_str};
use crate::tip::{Guid, GuidV, format_tip, tip_chars, TF_PROFILETYPE_INPUTPROCESSOR};

verus! {

/// What the text services report as the active input method of the thread.
#[derive(Clone, Copy, Debug)]
pub struct ActiveProfile {
    /// `TF_PROFILETYPE_INPUTPROCESSOR` for a TSF input method, else a keyboard layout.
    pub profile_type: u32,
    pub langid: u16,
    pub clsid: Guid,
    pub guid_profile: Guid,
    /// The keyboard layout handle, as a number.
    pub hkl: usize,
}

/// The keyboard-layout form `LLLL:HKL:HHHHHHHH` (at least eight hex digits).
pub open spec fn hkl_chars(langid: u16, hkl: usize) -> Seq<char> {
    hex_fixed(langid as nat, 4) + seq![':', 'H', 'K', 'L', ':'] + numeral(hkl as nat, 8, 16)
}

/// The text of the active input method: its TIP text for a TSF input method,
/// else the keyboard-layout form.
pub open spec fn active_tip_chars(p: ActiveProfile) -> Seq<char> {
    if p.profile_type == TF_PROFILETYPE_INPUTPROCESSOR {
        tip_chars(p.langid, p.clsid@, p.guid_profile@)
    } else {
        hkl_chars(p.langid, p.hkl)
    }
}

/// The keyboard-layout form of a language and layout handle.
pub fn format_hkl_tip(langid: u16, hkl: usize) -> (r: String)
    ensures
        r@ == hkl_chars(langid, hkl),
{
    let mut s = String::new();
    push_fixed(&mut s, langid as u64, 4, 16);
    push_str(&mut s, ":HKL:");
    push_numeral(&mut s, hkl as u64, 8, 16);
    proof {
        reveal_strlit(":HKL:");
    }
    assert(s@ =~= hkl_chars(langid, hkl));
    s
}

/// The text of the active input method.
pub fn active_tip_text(p: &ActiveProfile) -> (r: String)
    ensures
        r@ == active_tip_chars(*p),
{
    if p.profile_type == TF_PROFILETYPE_INPUTPROCESSOR {
        format_tip(p.langid, &p.clsid, &p.guid_profile)
    } else {
        format_hkl_tip(p.langid, p.hkl)
    }
}

/// The text of the active input method, empty where it could not be read.
pub open spec fn active_or_empty(p: Option<ActiveProfile>) -> Seq<char> {
    match p {
        Some(a) => active_tip_chars(a),
        None => Seq::empty(),
    }
}

/// What reading the keyboard-layout form from the bytes `b` gives.
pub open spec fn hkl_outcome(b: Seq<u8>) -> Option<(u16, usize)> {
    if b.len() >= 9 && b.subrange(4, 9) == seq![0x3au8, 0x48u8, 0x4bu8, 0x4cu8, 0x3au8] {
        match hex_value(b.take(4), 0xffff) {
            Ok(l) => match hex_value(b.skip(9), usize::MAX as nat) {
                Ok(h) => Some((l as u16, h as usize)),
                Err(_) => None,
            },
            Err(_) => None,
        }
    } else {
        None
    }
}

/// Reads the keyboard-layout form `LLLL:HKL:H…`; `None` for any other text.
pub fn parse_hkl_tip(tip: &str) -> (r: Option<(u16, usize)>)
    ensures
        r == hkl_outcome(tip.spec_bytes()),
{
    let t = tip.as_bytes();
    let n = t.len();
    if n < 9 || t[4] != 0x3a || t[5] != 0x48 || t[6] != 0x4b || t[7] != 0x4c || t[8] != 0x3a {
        proof {
            if n >= 9 {
                assert(t@.subrange(4, 9)[0] == t@[4]);
                assert(t@.subrange(4, 9)[1] == t@[5]);
                assert(t@.subrange(4, 9)[2] == t@[6]);
                assert(t@.subrange(4, 9)[3] == t@[7]);
                assert(t@.subrange(4, 9)[4] == t@[8]);
            }
        }
        return None;
    }
    assert(t@.subrange(4, 9) =~= seq![0x3au8, 0x48u8, 0x4bu8, 0x4cu8, 0x3au8]);
    assert(t@.subrange(0, 4) =~= t@.take(4));
    assert(t@.subrange(9, n as int) =~= t@.skip(9));
    let l = match parse_hex(t, 0, 4, 0xffff) {
        Ok(v) => v,
        Err(_) => {
            return None;
        },
    };
    let h = match parse_hex(t, 9, n, usize::MAX as u64) {
        Ok(v) => v,
        Err(_) => {
            return None;
        },
    };
    Some((l as u16, h as usize))
}

/// An input method found while enumerating one language's profiles.
#[derive(Clone, Copy, Debug)]
pub struct FoundProfile {
    /// The language whose enumeration found it (used to ask for its name).
    pub enum_langid: u16,
    pub profile_type: u32,
    pub catid: Guid,
    pub langid: u16,
    pub clsid: Guid,
    pub guid_profile: Guid,
}

/// The category of keyboard input methods, `GUID_TFCAT_TIP_KEYBOARD`.
pub open spec fn keyboard_category() -> GuidV {
    (0x34745c63u32, 0xb2f0u16, 0x4784u16, seq![0x8bu8, 0x67u8, 0x5eu8, 0x12u8, 0xc8u8, 0x70u8, 0x1au8, 0x31u8])
}

fn is_keyboard_category(g: &Guid) -> (r: bool)
    ensures
        r == (g@ == keyboard_category()),
{
    let d = g.data4;
    let r = g.data1 == 0x34745c63 && g.data2 == 0xb2f0 && g.data3 == 0x4784 && d[0] == 0x8b
        && d[1] == 0x67 && d[2] == 0x5e && d[3] == 0x12 && d[4] == 0xc8 && d[5] == 0x70 && d[6]
        == 0x1a && d[7] == 0x31;
    proof {
        if r {
            assert(g.data4@ =~= keyboard_category().3);
        } else if g@ == keyboard_category() {
            assert(g.data4@[0] == 0x8b);
            assert(g.data4@[1] == 0x67);
            assert(g.data4@[2] == 0x5e);
            assert(g.data4@[3] == 0x12);
            assert(g.data4@[4] == 0xc8);
            assert(g.data4@[5] == 0x70);
            assert(g.data4@[6] == 0x1a);
            assert(g.data4@[7] == 0x31);
        }
    }
    r
}

pub open spec fn found_tip(f: FoundProfile) -> Seq<char> {
    tip_chars(f.langid, f.clsid@, f.guid_profile@)
}

/// Which of the found input methods are listed, by position: keyboard-category
/// input processors, each TIP text once (the first time it is found).
pub open spec fn listed(found: Seq<FoundProfile>) -> Seq<int>
    decreases found.len(),
{
    if found.len() == 0 {
        Seq::empty()
    } else {
        let before = listed(found.drop_last());
        let f = found.last();
        if f.profile_type == TF_PROFILETYPE_INPUTPROCESSOR && f.catid@ == keyboard_category() && !(
        exists|j: int| 0 <= j < before.len() && found_tip(found[#[trigger] before[j]]) == found_tip(f)) {
            before.push(found.len() - 1)
        } else {
            before
        }
    }
}

/// A keyboard-category input processor: what `--list` shows.
pub open spec fn is_keyboard_processor(f: FoundProfile) -> bool {
    f.profile_type == TF_PROFILETYPE_INPUTPROCESSOR && f.catid@ == keyboard_category()
}

/// The listed positions are keyboard input processors, in the order found.
pub open spec fn listed_in_order(found: Seq<FoundProfile>, l: Seq<int>) -> bool {
    &&& forall|j: int|
        0 <= j < l.len() ==> 0 <= #[trigger] l[j] < found.len() && is_keyboard_processor(found[l[j]])
    &&& forall|i: int, j: int| 0 <= i < j < l.len() ==> #[trigger] l[i] < #[trigger] l[j]
}

/// No two listed positions have the same TIP text.
pub open spec fn listed_distinct(found: Seq<FoundProfile>, l: Seq<int>) -> bool {
    forall|i: int, j: int|
        0 <= i < j < l.len() ==> found_tip(found[#[trigger] l[i]]) != found_tip(found[#[trigger] l[j]])
}

/// Every keyboard input processor found has its TIP text listed.
pub open spec fn listed_covers(found: Seq<FoundProfile>, l: Seq<int>) -> bool {
    forall|m: int|
        0 <= m < found.len() && is_keyboard_processor(#[trigger] found[m]) ==> exists|j: int|
            0 <= j < l.len() && found_tip(found[#[trigger] l[j]]) == found_tip(found[m])
}

proof fn lemma_listed_in_order(found: Seq<FoundProfile>)
    ensures
        listed_in_order(found, listed(found)),
    decreases found.len(),
{
    if found.len() > 0 {
        let pre = found.drop_last();
        lemma_listed_in_order(pre);
        let before = listed(pre);
        let l = listed(found);
        let n = found.len() - 1;
        assert forall|j: int| 0 <= j < before.len() implies found[#[trigger] before[j]] == pre[before[j]] by {}
        if l.len() > before.len() {
            assert(l == before.push(n));
            assert forall|j: int| 0 <= j < l.len() implies 0 <= #[trigger] l[j] < found.len()
                && is_keyboard_processor(found[l[j]]) by {
                if j < before.len() {
                    assert(l[j] == before[j]);
                }
            }
            assert forall|i: int, j: int| 0 <= i < j < l.len() implies #[trigger] l[i] < #[trigger] l[j] by {
                assert(l[i] == before[i]);
                if j < before.len() {
                    assert(l[j] == before[j]);
                }
            }
        }
    }
}

proof fn lemma_listed_distinct(found: Seq<FoundProfile>)
    ensures
        listed_distinct(found, listed(found)),
    decreases found.len(),
{
    if found.len() > 0 {
        let pre = found.drop_last();
        lemma_listed_distinct(pre);
        lemma_listed_in_order(pre);
        let before = listed(pre);
        let l = listed(found);
        let f = found.last();
        let n = found.len() - 1;
        assert forall|j: int| 0 <= j < before.len() implies found[#[trigger] before[j]] == pre[before[j]] by {}
        if l.len() > before.len() {
            assert(l == before.push(n));
            assert forall|i: int, j: int| 0 <= i < j < l.len() implies found_tip(found[#[trigger] l[i]])
                != found_tip(found[#[trigger] l[j]]) by {
                assert(l[i] == before[i]);
                if j < before.len() {
                    assert(l[j] == before[j]);
                } else {
                    assert(found_tip(found[before[i]]) != found_tip(f));
                }
            }
        } else {
            assert forall|i: int, j: int| 0 <= i < j < l.len() implies found_tip(found[#[trigger] l[i]])
                != found_tip(found[#[trigger] l[j]]) by {
                assert(found[before[i]] == pre[before[i]]);
                assert(found[before[j]] == pre[before[j]]);
            }
        }
    }
}

/// The last one found is listed where it is a keyboard input processor whose
/// TIP text is not listed before it; otherwise the list stays as it was.
proof fn lemma_listed_last(found: Seq<FoundProfile>)
    requires
        found.len() > 0,
    ensures
        ({
            let before = listed(found.drop_last());
            let l = listed(found);
            ||| l == before.push(found.len() - 1)
            ||| (l == before && (!is_keyboard_processor(found.last()) || exists|j: int|
                0 <= j < before.len() && found_tip(found[#[trigger] before[j]]) == found_tip(
                    found.last(),
                )))
        }),
{
}

proof fn lemma_listed_covers_at(found: Seq<FoundProfile>, m: int)
    requires
        0 <= m < found.len(),
        is_keyboard_processor(found[m]),
    ensures
        exists|j: int|
            0 <= j < listed(found).len() && found_tip(found[#[trigger] listed(found)[j]])
                == found_tip(found[m]),
    decreases found.len(),
{
    let pre = found.drop_last();
    let before = listed(pre);
    let l = listed(found);
    let n = found.len() - 1;
    lemma_listed_last(found);
    if m < n {
        lemma_listed_covers_at(pre, m);
        lemma_listed_in_order(pre);
        let j = choose|j: int|
            0 <= j < before.len() && found_tip(pre[#[trigger] before[j]]) == found_tip(pre[m]);
        lemma_listed_keep(found, j);
    } else if l.len() > before.len() {
        assert(l[before.len() as int] == n);
    } else {
        let j = choose|j: int|
            0 <= j < before.len() && found_tip(found[#[trigger] before[j]]) == found_tip(found.last());
        assert(l[j] == before[j]);
    }
}

/// A position listed before the last one found stays listed at the same place.
proof fn lemma_listed_keep(found: Seq<FoundProfile>, j: int)
    requires
        found.len() > 0,
        0 <= j < listed(found.drop_last()).len(),
        listed_in_order(found.drop_last(), listed(found.drop_last())),
    ensures
        listed(found)[j] == listed(found.drop_last())[j],
        found[listed(found)[j]] == found.drop_last()[listed(found.drop_last())[j]],
{
    lemma_listed_last(found);
    let before = listed(found.drop_last());
    assert(0 <= before[j] < found.len() - 1);
}

proof fn lemma_listed_covers(found: Seq<FoundProfile>)
    ensures
        listed_covers(found, listed(found)),
{
    assert forall|m: int| 0 <= m < found.len() && is_keyboard_processor(#[trigger] found[m])
        implies exists|j: int| 0 <= j < listed(found).len() && found_tip(found[#[trigger] listed(found)[j]])
        == found_tip(found[m]) by {
        lemma_listed_covers_at(found, m);
    }
}

/// `--list` shows each keyboard input method once: the listed positions are
/// keyboard input processors in the order found, their TIP texts are pairwise
/// distinct, and every keyboard input processor found has its TIP text listed.
pub proof fn lemma_listed_once(found: Seq<FoundProfile>)
    ensures
        listed_in_order(found, listed(found)),
        listed_distinct(found, listed(found)),
        listed_covers(found, listed(found)),
{
    lemma_listed_in_order(found);
    lemma_listed_distinct(found);
    lemma_listed_covers(found);
}

/// Picks the keyboard input methods out of an enumeration, dropping repeats
/// (language 0x0000 enumerates some a second time).
pub fn select_keyboard_profiles(found: &Vec<FoundProfile>) -> (r: Vec<usize>)
    ensures
        r@.len() == listed(found@).len(),
        forall|j: int| 0 <= j < r@.len() ==> r@[j] as int == #[trigger] listed(found@)[j],
{
    let n = found.len();
    let mut out: Vec<usize> = Vec::new();
    let mut tips: Vec<String> = Vec::new();
    let mut i: usize = 0;
    while i < n
        invariant
            n == found@.len(),
            i <= n,
            out@.len() == listed(found@.take(i as int)).len(),
            tips@.len() == out@.len(),
            forall|j: int| 0 <= j < out@.len() ==> out@[j] as int == #[trigger] listed(found@.take(i as int))[j],
            forall|j: int| 0 <= j < out@.len() ==> #[trigger] tips@[j]@ == found_tip(found@[out@[j] as int]),
            forall|j: int| 0 <= j < out@.len() ==> out@[j] < i,
        decreases n - i,
    {
        let f = found[i];
        let ghost pre = found@.take(i as int);
        let ghost next = found@.take(i + 1);
        assert(next.drop_last() =~= pre);
        assert(next.last() == f);
        assert(forall|k: int| 0 <= k < i ==> next[k] == found@[k] && pre[k] == found@[k]);
        if f.profile_type == TF_PROFILETYPE_INPUTPROCESSOR && is_keyboard_category(&f.catid) {
            let tip = format_tip(f.langid, &f.clsid, &f.guid_profile);
            let dup = contains_text(&tips, &tip);
            proof {
                let before = listed(pre);
                assert(forall|j: int| 0 <= j < before.len() ==> before[j] == out@[j] as int);
                assert(forall|j: int| 0 <= j < before.len() ==> next[#[trigger] before[j]] == found@[out@[j] as int]);
                if dup {
                    let k = choose|k: int| 0 <= k < tips@.len() && tips@[k]@ == tip@;
                    assert(found_tip(next[before[k]]) == found_tip(f));
                } else {
                    assert forall|j: int| 0 <= j < before.len() implies found_tip(next[#[trigger] before[j]]) != found_tip(next.last()) by {
                        assert(tips@[j]@ != tip@);
                    }
                }
            }
            if !dup {
                out.push(i);
                tips.push(tip);
            }
        }
        i = i + 1;
    }
    assert(found@.take(n as int) =~= found@);
    out
}

fn contains_text(v: &Vec<String>, s: &String) -> (r: bool)
    ensures
        r == exists|k: int| 0 <= k < v@.len() && #[trigger] v@[k]@ == s@,
{
    let n = v.len();
    let mut k: usize = 0;
    while k < n
        invariant
            n == v@.len(),
            k <= n,
            forall|j: int| 0 <= j < k ==> v@[j]@ != s@,
        decreases n - k,
    {
        if v[k] == *s {
            return true;
        }
        k = k + 1;
    }
    false
}

/// A keyboard input method with its display name.
#[derive(Clone, Debug)]
pub struct Profile {
    pub langid: u16,
    pub clsid: Guid,
    pub profile: Guid,
    pub name: String,
}

impl Profile {
    /// The TIP text of this input method.
    pub fn tip(&self) -> (r: String)
        ensures
            r@ == tip_chars(self.langid, self.clsid@, self.profile@),
    {
        format_tip(self.langid, &self.clsid, &self.profile)
    }

    /// The listed input method: its name is its description where there is
    /// one, else its TIP text.
    pub fn from_found(f: &FoundProfile, description: Option<String>) -> (r: Profile)
        ensures
            r.langid == f.langid,
            r.clsid == f.clsid,
            r.profile == f.guid_profile,
            r.name@ == match description {
                Some(d) => d@,
                None => found_tip(*f),
            },
    {
        let name = match description {
            Some(d) => d,
            None => format_tip(f.langid, &f.clsid, &f.guid_profile),
        };
        Profile { langid: f.langid, clsid: f.clsid, profile: f.guid_profile, name }
    }
}

/// A description as the text services give it: an empty one counts as none.
pub fn description_text(s: String) -> (r: Option<String>)
    ensures
        s@.len() == 0 ==> r is None,
        s@.len() > 0 ==> (r matches Some(t) && t@ == s@),
{
    if s.as_str().is_empty() {
        None
    } else {
        Some(s)
    }
}

} // verus!
