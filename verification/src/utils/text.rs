//! Text as the shell reads it: Unicode white space, trimming, splitting at the first white
//! space, comparing, and numbers written in decimal and hexadecimal.
use vstd::prelude::*;
use vstd::string::*;

verus! {

/// The characters with Unicode's `White_Space` property, the ones that Rust's
/// `char::is_whitespace` and `str::trim` go by.
pub open spec fn is_white_space(c: char) -> bool {
    ||| '\u{9}' <= c <= '\u{d}'
    ||| c == ' '
    ||| c == '\u{85}'
    ||| c == '\u{a0}'
    ||| c == '\u{1680}'
    ||| '\u{2000}' <= c <= '\u{200a}'
    ||| c == '\u{2028}'
    ||| c == '\u{2029}'
    ||| c == '\u{202f}'
    ||| c == '\u{205f}'
    ||| c == '\u{3000}'
}

pub fn is_whitespace(c: char) -> (r: bool)
    ensures
        r == is_white_space(c),
{
    ('\u{9}' <= c && c <= '\u{d}') || c == ' ' || c == '\u{85}' || c == '\u{a0}' || c == '\u{1680}'
        || ('\u{2000}' <= c && c <= '\u{200a}') || c == '\u{2028}' || c == '\u{2029}' || c
        == '\u{202f}' || c == '\u{205f}' || c == '\u{3000}'
}

/// `s` without its leading white space.
pub open spec fn trim_start(s: Seq<char>) -> Seq<char>
    decreases s.len(),
{
    if s.len() > 0 && is_white_space(s[0]) {
        trim_start(s.drop_first())
    } else {
        s
    }
}

/// `s` without its trailing white space.
pub open spec fn trim_end(s: Seq<char>) -> Seq<char>
    decreases s.len(),
{
    if s.len() > 0 && is_white_space(s.last()) {
        trim_end(s.drop_last())
    } else {
        s
    }
}

/// `s` without its leading and trailing white space.
pub open spec fn trimmed(s: Seq<char>) -> Seq<char> {
    trim_end(trim_start(s))
}

/// The index of the first white space in `s`; its length where there is none.
pub open spec fn first_white_space(s: Seq<char>) -> nat
    decreases s.len(),
{
    if s.len() == 0 || is_white_space(s[0]) {
        0
    } else {
        1 + first_white_space(s.drop_first())
    }
}

/// Where `s` has white space at each index below `i` and none at `i`, trimming its start
/// drops the first `i` characters.
pub proof fn lemma_trim_start_at(s: Seq<char>, i: int)
    requires
        0 <= i <= s.len(),
        forall|j: int| 0 <= j < i ==> is_white_space(#[trigger] s[j]),
        i == s.len() || !is_white_space(s[i]),
    ensures
        trim_start(s) == s.skip(i),
    decreases i,
{
    if i == 0 {
        assert(s.skip(0) =~= s);
    } else {
        let t = s.drop_first();
        assert forall|j: int| 0 <= j < i - 1 implies is_white_space(#[trigger] t[j]) by {
            assert(t[j] == s[j + 1]);
        }
        if i < s.len() {
            assert(t[i - 1] == s[i]);
        }
        lemma_trim_start_at(t, i - 1);
        assert(t.skip(i - 1) =~= s.skip(i));
    }
}

/// Where `s` has white space at each index from `k` on and none at `k - 1`, trimming its
/// end keeps the first `k` characters.
pub proof fn lemma_trim_end_at(s: Seq<char>, k: int)
    requires
        0 <= k <= s.len(),
        forall|j: int| k <= j < s.len() ==> is_white_space(#[trigger] s[j]),
        k == 0 || !is_white_space(s[k - 1]),
    ensures
        trim_end(s) == s.take(k),
    decreases s.len() - k,
{
    if k == s.len() {
        assert(s.take(k) =~= s);
    } else {
        let t = s.drop_last();
        assert(is_white_space(s[s.len() - 1]));
        assert forall|j: int| k <= j < t.len() implies is_white_space(#[trigger] t[j]) by {
            assert(t[j] == s[j]);
        }
        if k > 0 {
            assert(t[k - 1] == s[k - 1]);
        }
        lemma_trim_end_at(t, k);
        assert(t.take(k) =~= s.take(k));
    }
}

/// Where `s` has no white space below `i` and has it at `i` (or ends there), its first
/// white space is at `i`.
pub proof fn lemma_first_white_space_at(s: Seq<char>, i: int)
    requires
        0 <= i <= s.len(),
        forall|j: int| 0 <= j < i ==> !is_white_space(#[trigger] s[j]),
        i == s.len() || is_white_space(s[i]),
    ensures
        first_white_space(s) == i,
    decreases i,
{
    if i > 0 {
        let t = s.drop_first();
        assert forall|j: int| 0 <= j < i - 1 implies !is_white_space(#[trigger] t[j]) by {
            assert(t[j] == s[j + 1]);
        }
        if i < s.len() {
            assert(t[i - 1] == s[i]);
        }
        assert(!is_white_space(s[0]));
        lemma_first_white_space_at(t, i - 1);
    }
}

/// `s` without its leading and trailing white space.
pub fn trim(s: &str) -> (r: &str)
    ensures
        r@ == trimmed(s@),
{
    let len = s.unicode_len();
    let mut start: usize = 0;
    while start < len && is_whitespace(s.get_char(start))
        invariant
            len == s@.len(),
            start <= len,
            forall|j: int| 0 <= j < start ==> is_white_space(#[trigger] s@[j]),
        decreases len - start,
    {
        start += 1;
    }
    proof {
        lemma_trim_start_at(s@, start as int);
    }
    let ghost t = s@.skip(start as int);
    let mut end: usize = len;
    while end > start && is_whitespace(s.get_char(end - 1))
        invariant
            len == s@.len(),
            start <= end <= len,
            t == s@.skip(start as int),
            forall|j: int| end - start <= j < t.len() ==> is_white_space(#[trigger] t[j]),
        decreases end,
    {
        assert(t[end - 1 - start] == s@[end - 1]);
        end -= 1;
    }
    proof {
        if end > start {
            assert(t[end - start - 1] == s@[end - 1]);
        }
        lemma_trim_end_at(t, end - start);
        assert(t.take(end - start) =~= s@.subrange(start as int, end as int));
    }
    s.substring_char(start, end)
}

/// The index of the first white space in `s`; its length where there is none.
pub fn find_white_space(s: &str) -> (r: usize)
    ensures
        r == first_white_space(s@),
{
    let len = s.unicode_len();
    let mut i: usize = 0;
    while i < len && !is_whitespace(s.get_char(i))
        invariant
            len == s@.len(),
            i <= len,
            forall|j: int| 0 <= j < i ==> !is_white_space(#[trigger] s@[j]),
        decreases len - i,
    {
        i += 1;
    }
    proof {
        lemma_first_white_space_at(s@, i as int);
    }
    i
}

/// Whether `a` and `b` hold the same characters.
pub fn str_eq(a: &str, b: &str) -> (r: bool)
    ensures
        r == (a@ == b@),
{
    let len = a.unicode_len();
    if len != b.unicode_len() {
        return false;
    }
    let mut i: usize = 0;
    while i < len
        invariant
            len == a@.len() == b@.len(),
            i <= len,
            forall|j: int| 0 <= j < i ==> a@[j] == b@[j],
        decreases len - i,
    {
        if a.get_char(i) != b.get_char(i) {
            return false;
        }
        i += 1;
    }
    assert(a@ =~= b@);
    true
}

/// The decimal digits of `n`, most significant first, with no leading zero.
pub open spec fn spec_decimal(n: nat) -> Seq<u8>
    decreases n,
{
    if n < 10 {
        seq![(0x30 + n) as u8]
    } else {
        spec_decimal(n / 10).push((0x30 + n % 10) as u8)
    }
}

/// Appends the decimal digits of `n` to `out`.
pub fn push_decimal(out: &mut Vec<u8>, n: u64)
    ensures
        final(out)@ == old(out)@ + spec_decimal(n as nat),
    decreases n,
{
    if n >= 10 {
        push_decimal(out, n / 10);
    }
    out.push(0x30 + (n % 10) as u8);
    assert(final(out)@ =~= old(out)@ + spec_decimal(n as nat));
}

/// `text` followed by spaces up to `width` bytes: left-aligned in a field of `width`.
pub open spec fn left_aligned(text: Seq<u8>, width: nat) -> Seq<u8> {
    if text.len() < width {
        text + Seq::new((width - text.len()) as nat, |i: int| 0x20u8)
    } else {
        text
    }
}

/// Appends the decimal digits of `n` to `out`, left-aligned in a field of `width`.
pub fn push_decimal_left(out: &mut Vec<u8>, n: u64, width: usize)
    ensures
        final(out)@ == old(out)@ + left_aligned(spec_decimal(n as nat), width as nat),
{
    let ghost start = out@;
    let before = out.len();
    push_decimal(out, n);
    let ghost digits = spec_decimal(n as nat);
    assert(out@.len() == before + digits.len());
    let mut written: usize = out.len() - before;
    while written < width
        invariant
            written >= digits.len(),
            written <= width || written == digits.len(),
            written == out@.len() - before,
            before == start.len(),
            out@ == start + digits + Seq::new((written - digits.len()) as nat, |i: int| 0x20u8),
        decreases width - written,
    {
        out.push(0x20);
        written += 1;
        assert(out@ =~= start + digits + Seq::new((written - digits.len()) as nat, |i: int| 0x20u8));
    }
    proof {
        if digits.len() >= width {
            assert(out@ =~= start + digits);
        }
    }
    assert(out@ =~= start + left_aligned(digits, width as nat));
}

/// The lowercase hexadecimal digit of `d`, for `d < 16`.
pub open spec fn hex_digit(d: nat) -> u8 {
    if d < 10 {
        (0x30 + d) as u8
    } else {
        (0x61 + d - 10) as u8
    }
}

/// The lowercase hexadecimal digits of `n`, most significant first, with no leading zero.
pub open spec fn spec_hex(n: nat) -> Seq<u8>
    decreases n,
{
    if n < 16 {
        seq![hex_digit(n)]
    } else {
        spec_hex(n / 16).push(hex_digit(n % 16))
    }
}

/// The hexadecimal digits of `n`, zeros in front up to `width` digits.
pub open spec fn spec_hex_padded(n: nat, width: nat) -> Seq<u8> {
    let digits = spec_hex(n);
    if digits.len() < width {
        Seq::new((width - digits.len()) as nat, |i: int| 0x30u8) + digits
    } else {
        digits
    }
}

spec fn pow16(k: nat) -> nat
    decreases k,
{
    if k == 0 {
        1
    } else {
        16 * pow16((k - 1) as nat)
    }
}

/// A number below `16^k`, for `k >= 1`, has at most `k` hexadecimal digits.
proof fn lemma_hex_len(n: nat, k: nat)
    requires
        k >= 1,
        n < pow16(k),
    ensures
        1 <= spec_hex(n).len() <= k,
    decreases k,
{
    if n >= 16 {
        let p = pow16((k - 1) as nat);
        assert(n / 16 < p) by (nonlinear_arith)
            requires
                n < 16 * p,
        ;
        assert(k >= 2);
        lemma_hex_len(n / 16, (k - 1) as nat);
    }
}

proof fn lemma_u64_hex_len(n: u64)
    ensures
        1 <= spec_hex(n as nat).len() <= 16,
{
    assert(pow16(16) == 0x1_0000_0000_0000_0000) by {
        reveal_with_fuel(pow16, 17);
    }
    lemma_hex_len(n as nat, 16);
}

fn hex_digit_of(d: u64) -> (r: u8)
    requires
        d < 16,
    ensures
        r == hex_digit(d as nat),
{
    if d < 10 {
        0x30 + d as u8
    } else {
        0x61 + (d - 10) as u8
    }
}

/// Appends the lowercase hexadecimal digits of `n` to `out`.
pub fn push_hex(out: &mut Vec<u8>, n: u64)
    ensures
        final(out)@ == old(out)@ + spec_hex(n as nat),
    decreases n,
{
    if n >= 16 {
        push_hex(out, n / 16);
    }
    out.push(hex_digit_of(n % 16));
    assert(final(out)@ =~= old(out)@ + spec_hex(n as nat));
}

/// The number of hexadecimal digits of `n`.
fn hex_len(n: u64) -> (r: usize)
    ensures
        r == spec_hex(n as nat).len(),
        r <= 16,
    decreases n,
{
    if n >= 16 {
        proof {
            lemma_u64_hex_len(n);
        }
        1 + hex_len(n / 16)
    } else {
        1
    }
}

/// Appends the hexadecimal digits of `n` to `out`, zeros in front up to `width` digits.
pub fn push_hex_padded(out: &mut Vec<u8>, n: u64, width: usize)
    ensures
        final(out)@ == old(out)@ + spec_hex_padded(n as nat, width as nat),
{
    let digits = hex_len(n);
    let ghost start = out@;
    if digits < width {
        let mut i: usize = digits;
        while i < width
            invariant
                digits <= i <= width,
                out@ == start + Seq::new((i - digits) as nat, |k: int| 0x30u8),
            decreases width - i,
        {
            out.push(0x30);
            i += 1;
            assert(out@ =~= start + Seq::new((i - digits) as nat, |k: int| 0x30u8));
        }
    }
    push_hex(out, n);
    assert(out@ =~= start + spec_hex_padded(n as nat, width as nat));
}

/// The bytes of ASCII text `s`.
pub open spec fn ascii_bytes(s: Seq<char>) -> Seq<u8> {
    Seq::new(s.len(), |i: int| s[i] as u8)
}

/// Appends the bytes of ASCII text `s` to `out`.
pub fn push_ascii(out: &mut Vec<u8>, s: &str)
    requires
        s.is_ascii(),
    ensures
        final(out)@ == old(out)@ + ascii_bytes(s@),
{
    let ghost start = out@;
    let len = s.unicode_len();
    let mut i: usize = 0;
    while i < len
        invariant
            s.is_ascii(),
            len == s@.len(),
            i <= len,
            out@ == start + ascii_bytes(s@.take(i as int)),
        decreases len - i,
    {
        out.push(s.get_ascii(i));
        i += 1;
        assert(out@ =~= start + ascii_bytes(s@.take(i as int)));
    }
    assert(s@.take(len as int) =~= s@);
}

} // verus!
