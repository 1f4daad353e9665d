//! Building text one character at a time, fixed-width numerals, and the
//! UTF-8 facts that relate text to its bytes.
use vstd::prelude::*;
use vstd::utf8::*;
use vstd::string::StringSliceAdditionalSpecFns;
use vstd::string::StrSliceExecFns;

verus! {

/// `String::push`: appends one character.
#[verifier::external_body]
pub(crate) fn push_char(s: &mut String, c: char)
    ensures
        final(s)@ == old(s)@.push(c),
{
    s.push(c);
}

/// The digit for `d` (below 16), upper case.
pub open spec fn digit_char(d: nat) -> char {
    if d < 10 {
        (d + 48) as char
    } else {
        (d + 55) as char
    }
}

/// The byte of `digit_char(d)`.
pub open spec fn digit_byte(d: nat) -> u8 {
    if d < 10 {
        (d + 48) as u8
    } else {
        (d + 55) as u8
    }
}

/// The last `n` digits of `v` in base `radix`, most significant first.
pub open spec fn fixed_digits(v: nat, n: nat, radix: nat) -> Seq<char>
    decreases n,
{
    if n == 0 || radix == 0 {
        Seq::empty()
    } else {
        fixed_digits(v / radix, (n - 1) as nat, radix).push(digit_char(v % radix))
    }
}

/// The bytes of `fixed_digits(v, n, radix)`.
pub open spec fn fixed_digit_bytes(v: nat, n: nat, radix: nat) -> Seq<u8>
    decreases n,
{
    if n == 0 || radix == 0 {
        Seq::empty()
    } else {
        fixed_digit_bytes(v / radix, (n - 1) as nat, radix).push(digit_byte(v % radix))
    }
}

/// How many digits `v` has in base `radix` (zero has one).
pub open spec fn digit_count(v: nat, radix: nat) -> nat
    decreases v,
{
    if radix < 2 || v < radix {
        1
    } else {
        proof {
            lemma_div_shrinks(v, radix);
        }
        1 + digit_count(v / radix, radix)
    }
}

pub open spec fn max_nat(a: nat, b: nat) -> nat {
    if a >= b {
        a
    } else {
        b
    }
}

/// `v` in base `radix`, padded with zeros on the left to at least `width`
/// digits: what `{:0width$X}` (radix 16) and `{:0width$}` (radix 10) print.
pub open spec fn numeral(v: nat, width: nat, radix: nat) -> Seq<char> {
    fixed_digits(v, max_nat(width, digit_count(v, radix)), radix)
}

/// Upper-case hexadecimal, exactly `n` digits.
pub open spec fn hex_fixed(v: nat, n: nat) -> Seq<char> {
    fixed_digits(v, n, 16)
}

pub fn digit_to_char(d: u64) -> (c: char)
    requires
        d < 16,
    ensures
        c == digit_char(d as nat),
{
    if d < 10 {
        ((d as u8) + 48) as char
    } else {
        ((d as u8) + 55) as char
    }
}

/// Appends the last `n` digits of `v` in base `radix`.
pub fn push_fixed(s: &mut String, v: u64, n: usize, radix: u64)
    requires
        2 <= radix <= 16,
    ensures
        final(s)@ == old(s)@ + fixed_digits(v as nat, n as nat, radix as nat),
    decreases n,
{
    if n > 0 {
        push_fixed(s, v / radix, n - 1, radix);
        push_char(s, digit_to_char(v % radix));
    } else {
        assert(old(s)@ + Seq::<char>::empty() =~= old(s)@);
    }
    assert(forall|a: Seq<char>, b: Seq<char>, c: char| #![auto] (a + b).push(c) =~= a + b.push(c));
}

pub fn count_digits(v: u64, radix: u64) -> (r: usize)
    requires
        2 <= radix <= 16,
    ensures
        r == digit_count(v as nat, radix as nat),
        1 <= r <= 64,
    decreases v,
{
    if v < radix {
        1
    } else {
        proof {
            lemma_div_shrinks(v as nat, radix as nat);
            lemma_pow2_64();
            lemma_digit_count_log(v as nat, radix as nat, 64);
        }
        let r = count_digits(v / radix, radix);
        r + 1
    }
}

/// Dividing by a radix of at least two makes a number that is at least the
/// radix smaller.
pub proof fn lemma_div_shrinks(v: nat, radix: nat)
    requires
        radix >= 2,
        v >= radix,
    ensures
        v / radix < v,
        v / radix <= v / 2,
{
    assert(v / radix < v) by (nonlinear_arith)
        requires
            radix >= 2,
            v >= radix,
    ;
    assert(v / radix <= v / 2) by (nonlinear_arith)
        requires
            radix >= 2,
    ;
}

proof fn lemma_pow2_64()
    ensures
        pow2(64) == 0x1_0000_0000_0000_0000,
{
    reveal_with_fuel(pow2, 65);
}

proof fn lemma_digit_count_log(v: nat, radix: nat, k: nat)
    requires
        radix >= 2,
        k >= 1,
        v < pow2(k),
    ensures
        digit_count(v, radix) <= k,
    decreases v,
{
    if v >= radix {
        lemma_div_shrinks(v, radix);
        if k == 1 {
            assert(pow2(1) == 2 * pow2(0));
        } else {
            assert(pow2(k) == 2 * pow2((k - 1) as nat));
            lemma_digit_count_log(v / radix, radix, (k - 1) as nat);
        }
    }
}

pub open spec fn pow2(k: nat) -> nat
    decreases k,
{
    if k == 0 {
        1
    } else {
        2 * pow2((k - 1) as nat)
    }
}

/// Appends `v` in base `radix`, zero-padded to at least `width` digits.
pub fn push_numeral(s: &mut String, v: u64, width: usize, radix: u64)
    requires
        2 <= radix <= 16,
    ensures
        final(s)@ == old(s)@ + numeral(v as nat, width as nat, radix as nat),
{
    let c = count_digits(v, radix);
    let n = if width >= c {
        width
    } else {
        c
    };
    push_fixed(s, v, n, radix);
}

/// Appends text.
pub fn push_str(s: &mut String, t: &str)
    ensures
        final(s)@ == old(s)@ + t@,
{
    s.append(t);
}

/// UTF-8 of a concatenation is the concatenation of the UTF-8.
pub proof fn lemma_encode_concat(a: Seq<char>, b: Seq<char>)
    ensures
        encode_utf8(a + b) == encode_utf8(a) + encode_utf8(b),
    decreases a.len(),
{
    if a.len() == 0 {
        assert(a + b =~= b);
        assert(Seq::<u8>::empty() + encode_utf8(b) =~= encode_utf8(b));
    } else {
        assert((a + b).drop_first() =~= a.drop_first() + b);
        lemma_encode_concat(a.drop_first(), b);
        assert((a + b)[0] == a[0]);
        assert(encode_scalar(a[0] as u32) + (encode_utf8(a.drop_first()) + encode_utf8(b))
            =~= (encode_scalar(a[0] as u32) + encode_utf8(a.drop_first())) + encode_utf8(b));
    }
}

/// The UTF-8 of a single ASCII character is that character's byte.
pub proof fn lemma_encode_ascii_char(c: char)
    requires
        (c as u32) < 0x80,
    ensures
        encode_utf8(seq![c]) == seq![c as u8],
{
    let s = seq![c];
    assert(is_ascii_chars(s));
    is_ascii_chars_encode_utf8(s);
    assert(encode_utf8(s) =~= seq![c as u8]);
}

/// The UTF-8 of a numeral is its digit bytes.
pub proof fn lemma_encode_fixed(v: nat, n: nat, radix: nat)
    requires
        2 <= radix <= 16,
    ensures
        encode_utf8(fixed_digits(v, n, radix)) == fixed_digit_bytes(v, n, radix),
    decreases n,
{
    if n > 0 {
        lemma_encode_fixed(v / radix, (n - 1) as nat, radix);
        let d = v % radix;
        let pre = fixed_digits(v / radix, (n - 1) as nat, radix);
        assert(pre.push(digit_char(d)) =~= pre + seq![digit_char(d)]);
        lemma_encode_concat(pre, seq![digit_char(d)]);
        lemma_encode_ascii_char(digit_char(d));
        assert(digit_char(d) as u8 == digit_byte(d));
        assert(fixed_digit_bytes(v / radix, (n - 1) as nat, radix) + seq![digit_byte(d)]
            =~= fixed_digit_bytes(v, n, radix));
    } else {
        assert(encode_utf8(Seq::<char>::empty()) =~= Seq::<u8>::empty());
    }
}

/// Where `str::is_char_boundary` says a string may be cut: at either end, or
/// before any byte that does not continue a multi-byte character.
pub open spec fn str_boundary(b: Seq<u8>, k: int) -> bool {
    k == 0 || k == b.len() || (0 <= k < b.len() && !is_continuation_byte(b[k]))
}

/// On valid UTF-8, `str_boundary` is vstd's `is_char_boundary`.
pub proof fn lemma_str_boundary(b: Seq<u8>, k: int)
    requires
        valid_utf8(b),
        0 <= k <= b.len(),
    ensures
        str_boundary(b, k) <==> is_char_boundary(b, k),
{
    is_char_boundary_start_end_of_seq(b);
    if k < b.len() {
        is_char_boundary_iff_not_is_continuation_byte(b, k);
    }
}

proof fn lemma_boundary_after_ascii(bytes: Seq<u8>, i: int)
    requires
        valid_utf8(bytes),
        0 <= i < bytes.len(),
        bytes[i] < 0x80,
        is_char_boundary(bytes, i),
    ensures
        is_char_boundary(bytes, i + 1),
    decreases bytes.len(),
{
    let l = length_of_first_scalar(bytes);
    let rest = pop_first_scalar(bytes);
    assert(valid_first_scalar(bytes) && valid_utf8(rest));
    assert(1 <= l <= bytes.len());
    if i == 0 {
        assert(l == 1);
        assert(is_char_boundary(bytes, 1) == is_char_boundary(rest, 0));
    } else {
        assert(is_char_boundary(bytes, i) == is_char_boundary(rest, i - l));
        assert(i - l >= 0);
        assert(rest[i - l] == bytes[i]);
        lemma_boundary_after_ascii(rest, i - l);
        assert(is_char_boundary(bytes, i + 1) == is_char_boundary(rest, i + 1 - l));
    }
}

/// In valid UTF-8 the position right after an ASCII byte is a boundary.
pub proof fn lemma_cut_after_ascii(b: Seq<u8>, i: int)
    requires
        valid_utf8(b),
        0 <= i < b.len(),
        b[i] < 0x80,
    ensures
        str_boundary(b, i + 1),
{
    lemma_str_boundary(b, i);
    lemma_boundary_after_ascii(b, i);
    lemma_str_boundary(b, i + 1);
}

/// The part of `s` between byte offsets `a` and `b`.
pub fn substr<'a>(s: &'a str, a: usize, b: usize) -> (r: &'a str)
    requires
        a <= b <= s.spec_bytes().len(),
        str_boundary(s.spec_bytes(), a as int),
        str_boundary(s.spec_bytes(), b as int),
    ensures
        r.spec_bytes() == s.spec_bytes().subrange(a as int, b as int),
        r@ == decode_utf8(s.spec_bytes().subrange(a as int, b as int)),
{
    let ghost bytes = s.spec_bytes();
    proof {
        encode_utf8_valid_utf8(s@);
        lemma_str_boundary(bytes, a as int);
    }
    let (_, rest) = s.split_at(a);
    let ghost rb = rest.spec_bytes();
    proof {
        assert(rb =~= bytes.subrange(a as int, bytes.len() as int));
        valid_utf8_split(bytes, a as int);
        if (b as int) < bytes.len() {
            assert(rb[b - a] == bytes[b as int]);
        }
        lemma_str_boundary(rb, b - a);
    }
    let (mid, _) = rest.split_at(b - a);
    proof {
        assert(mid.spec_bytes() =~= bytes.subrange(a as int, b as int));
        encode_utf8_decode_utf8(mid@);
    }
    mid
}


/// The Unicode White_Space property (25 code points): what `char::is_whitespace`
/// and `str::trim` go by.
pub open spec fn is_white_space(c: char) -> bool {
    let u = c as u32;
    ||| 0x09 <= u <= 0x0d
    ||| u == 0x20
    ||| u == 0x85
    ||| u == 0xa0
    ||| u == 0x1680
    ||| 0x2000 <= u <= 0x200a
    ||| u == 0x2028
    ||| u == 0x2029
    ||| u == 0x202f
    ||| u == 0x205f
    ||| u == 0x3000
}

/// The text without its leading White_Space.
pub open spec fn trim_start_chars(s: Seq<char>) -> Seq<char>
    decreases s.len(),
{
    if s.len() > 0 && is_white_space(s[0]) {
        trim_start_chars(s.drop_first())
    } else {
        s
    }
}

/// The text without its trailing White_Space.
pub open spec fn trim_end_chars(s: Seq<char>) -> Seq<char>
    decreases s.len(),
{
    if s.len() > 0 && is_white_space(s.last()) {
        trim_end_chars(s.drop_last())
    } else {
        s
    }
}

/// What `str::trim` leaves of a string: the text without leading and trailing
/// White_Space.
pub open spec fn trimmed(s: Seq<char>) -> Seq<char> {
    trim_end_chars(trim_start_chars(s))
}

/// What `str::to_lowercase` makes of a string (full Unicode lower-casing).
pub uninterp spec fn lowercase(s: Seq<char>) -> Seq<char>;

/// Whether `c` is White_Space.
fn is_white_space_char(c: char) -> (r: bool)
    ensures
        r == is_white_space(c),
{
    let u = c as u32;
    (0x09 <= u && u <= 0x0d) || u == 0x20 || u == 0x85 || u == 0xa0 || u == 0x1680 || (0x2000 <= u
        && u <= 0x200a) || u == 0x2028 || u == 0x2029 || u == 0x202f || u == 0x205f || u == 0x3000
}

/// The text without leading and trailing White_Space, what `str::trim` gives.
pub fn trim_str(s: &str) -> (r: &str)
    ensures
        r@ == trimmed(s@),
{
    let n = s.unicode_len();
    let mut a: usize = 0;
    assert(s@.skip(0) =~= s@);
    loop
        invariant
            n == s@.len(),
            a <= n,
            trim_start_chars(s@) == trim_start_chars(s@.skip(a as int)),
        ensures
            a <= n,
            trim_start_chars(s@) == s@.skip(a as int),
        decreases n - a,
    {
        if a == n {
            assert(s@.skip(a as int) =~= Seq::<char>::empty());
            break;
        }
        let c = s.get_char(a);
        if !is_white_space_char(c) {
            assert(s@.skip(a as int)[0] == c);
            break;
        }
        assert(s@.skip(a as int).drop_first() =~= s@.skip(a + 1));
        a = a + 1;
    }
    let ghost front = s@.skip(a as int);
    let mut b: usize = n;
    loop
        invariant
            n == s@.len(),
            a <= b <= n,
            front == s@.skip(a as int),
            trim_end_chars(front) == trim_end_chars(s@.subrange(a as int, b as int)),
        ensures
            a <= b <= n,
            trim_end_chars(front) == s@.subrange(a as int, b as int),
        decreases b,
    {
        if b == a {
            assert(s@.subrange(a as int, b as int) =~= Seq::<char>::empty());
            break;
        }
        let c = s.get_char(b - 1);
        if !is_white_space_char(c) {
            assert(s@.subrange(a as int, b as int).last() == c);
            break;
        }
        assert(s@.subrange(a as int, b as int).drop_last() =~= s@.subrange(a as int, b - 1));
        b = b - 1;
    }
    assert(s@.subrange(a as int, n as int) =~= front);
    s.substring_char(a, b)
}

/// `str::to_lowercase`: the lower-case form of the text.
#[verifier::external_body]
pub(crate) fn to_lower(s: &str) -> (r: String)
    ensures
        r@ == lowercase(s@),
{
    s.to_lowercase()
}

} // verus!
