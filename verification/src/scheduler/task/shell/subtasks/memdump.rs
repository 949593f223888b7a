//! The `memdump` command: its arguments, an address in hexadecimal and a length in
//! decimal, and the lines of its hex dump. Reading the memory is done outside this library.
use crate::utils::text::{
    ascii_bytes, find_white_space, first_white_space, push_ascii, push_decimal, push_hex,
    push_hex_padded, spec_decimal, spec_hex, spec_hex_padded, trim, trimmed,
};
use vstd::prelude::*;
use vstd::slice::slice_subrange;
use vstd::string::*;

verus! {

/// Whether `c` is a hexadecimal digit, either case.
pub open spec fn is_hex_char(c: char) -> bool {
    ('0' <= c <= '9') || ('a' <= c <= 'f') || ('A' <= c <= 'F')
}

/// The value of hexadecimal digit `c`.
pub open spec fn hex_char_value(c: char) -> nat {
    if '0' <= c <= '9' {
        (c as nat - '0' as nat) as nat
    } else if 'a' <= c <= 'f' {
        (c as nat - 'a' as nat + 10) as nat
    } else {
        (c as nat - 'A' as nat + 10) as nat
    }
}

/// The number that the hexadecimal digits `s` write, most significant first.
pub open spec fn hex_value(s: Seq<char>) -> nat
    decreases s.len(),
{
    if s.len() == 0 {
        0
    } else {
        hex_value(s.drop_last()) * 16 + hex_char_value(s.last())
    }
}

/// `s` without a leading `0x`.
pub open spec fn strip_0x(s: Seq<char>) -> Seq<char> {
    if s.len() >= 2 && s[0] == '0' && s[1] == 'x' {
        s.skip(2)
    } else {
        s
    }
}

/// The number written in hexadecimal by `s`, with or without `0x` in front; none where a
/// character is not a hexadecimal digit or the number does not fit in 64 bits. An empty
/// string of digits is zero.
pub open spec fn spec_parse_hex_u64(s: Seq<char>) -> Option<u64> {
    let d = strip_0x(s);
    if (forall|i: int| 0 <= i < d.len() ==> is_hex_char(#[trigger] d[i])) && hex_value(d) <= u64::MAX {
        Some(hex_value(d) as u64)
    } else {
        None
    }
}

/// The value of a longer string of digits is no smaller.
proof fn lemma_hex_value_grows(s: Seq<char>, i: int)
    requires
        0 <= i <= s.len(),
    ensures
        hex_value(s.take(i)) <= hex_value(s),
    decreases s.len() - i,
{
    if i < s.len() {
        lemma_hex_value_grows(s, i + 1);
        assert(s.take(i + 1).drop_last() =~= s.take(i));
    } else {
        assert(s.take(i) =~= s);
    }
}

fn hex_char_digit(c: char) -> (r: Option<u64>)
    ensures
        r == (if is_hex_char(c) {
            Some(hex_char_value(c) as u64)
        } else {
            None
        }),
{
    if '0' <= c && c <= '9' {
        Some((c as u32 - '0' as u32) as u64)
    } else if 'a' <= c && c <= 'f' {
        Some((c as u32 - 'a' as u32 + 10) as u64)
    } else if 'A' <= c && c <= 'F' {
        Some((c as u32 - 'A' as u32 + 10) as u64)
    } else {
        None
    }
}

pub fn parse_hex_u64(s: &str) -> (r: Option<u64>)
    ensures
        r == spec_parse_hex_u64(s@),
{
    let len = s.unicode_len();
    let start: usize = if len >= 2 && s.get_char(0) == '0' && s.get_char(1) == 'x' {
        2
    } else {
        0
    };
    let ghost d = strip_0x(s@);
    assert(d =~= s@.skip(start as int));
    let mut value: u64 = 0;
    let mut i: usize = start;
    while i < len
        invariant
            len == s@.len(),
            start <= i <= len,
            d == s@.skip(start as int),
            d == strip_0x(s@),
            forall|j: int| 0 <= j < i - start ==> is_hex_char(#[trigger] d[j]),
            value == hex_value(d.take(i - start)),
        decreases len - i,
    {
        let c = s.get_char(i);
        assert(c == d[i - start]);
        let digit = match hex_char_digit(c) {
            Some(v) => v,
            None => {
                assert(!is_hex_char(d[i - start]));
                return None;
            },
        };
        assert(d.take(i - start + 1).drop_last() =~= d.take(i - start));
        assert(d.take(i - start + 1).last() == d[i - start]);
        assert(hex_value(d.take(i - start + 1)) == value * 16 + digit);
        let shifted = match value.checked_mul(16) {
            Some(v) => v,
            None => {
                proof {
                    assert(hex_value(d.take(i - start + 1)) > u64::MAX);
                    lemma_hex_value_grows(d, i - start + 1);
                }
                return None;
            },
        };
        let next = match shifted.checked_add(digit) {
            Some(v) => v,
            None => {
                proof {
                    lemma_hex_value_grows(d, i - start + 1);
                }
                return None;
            },
        };
        value = next;
        i += 1;
    }
    assert(d.take(len - start) =~= d);
    Some(value)
}

/// Whether `c` is a decimal digit.
pub open spec fn is_digit(c: char) -> bool {
    '0' <= c <= '9'
}

/// The number that the decimal digits `s` write, most significant first.
pub open spec fn dec_value(s: Seq<char>) -> nat
    decreases s.len(),
{
    if s.len() == 0 {
        0
    } else {
        dec_value(s.drop_last()) * 10 + (s.last() as nat - '0' as nat) as nat
    }
}

/// `s` without a leading `+`.
pub open spec fn strip_plus(s: Seq<char>) -> Seq<char> {
    if s.len() > 0 && s[0] == '+' {
        s.skip(1)
    } else {
        s
    }
}

/// An unsigned number as Rust's `str::parse::<usize>` reads it: an optional `+`, then at
/// least one decimal digit and nothing else, of a value that fits.
pub open spec fn spec_parse_usize(s: Seq<char>) -> Option<usize> {
    let d = strip_plus(s);
    if d.len() > 0 && (forall|i: int| 0 <= i < d.len() ==> is_digit(#[trigger] d[i]))
        && dec_value(d) <= usize::MAX {
        Some(dec_value(d) as usize)
    } else {
        None
    }
}

proof fn lemma_dec_value_grows(s: Seq<char>, i: int)
    requires
        0 <= i <= s.len(),
        forall|j: int| 0 <= j < s.len() ==> is_digit(#[trigger] s[j]),
    ensures
        dec_value(s.take(i)) <= dec_value(s),
    decreases s.len() - i,
{
    if i < s.len() {
        lemma_dec_value_grows(s, i + 1);
        assert(s.take(i + 1).drop_last() =~= s.take(i));
    } else {
        assert(s.take(i) =~= s);
    }
}

pub fn parse_usize(s: &str) -> (r: Option<usize>)
    ensures
        r == spec_parse_usize(s@),
{
    let len = s.unicode_len();
    let start: usize = if len > 0 && s.get_char(0) == '+' {
        1
    } else {
        0
    };
    let ghost d = strip_plus(s@);
    assert(d =~= s@.skip(start as int));
    if start == len {
        return None;
    }
    let mut value: usize = 0;
    let mut i: usize = start;
    while i < len
        invariant
            len == s@.len(),
            start <= i <= len,
            d == s@.skip(start as int),
            d == strip_plus(s@),
            forall|j: int| 0 <= j < i - start ==> is_digit(#[trigger] d[j]),
            value == dec_value(d.take(i - start)),
        decreases len - i,
    {
        let c = s.get_char(i);
        assert(c == d[i - start]);
        if c < '0' || c > '9' {
            assert(!is_digit(d[i - start]));
            return None;
        }
        let digit = (c as u32 - '0' as u32) as usize;
        assert(d.take(i - start + 1).drop_last() =~= d.take(i - start));
        assert(d.take(i - start + 1).last() == d[i - start]);
        assert(dec_value(d.take(i - start + 1)) == value * 10 + digit);
        let shifted = match value.checked_mul(10) {
            Some(v) => v,
            None => {
                proof {
                    overflow_or_bad_digit(d, i - start + 1);
                }
                return None;
            },
        };
        let next = match shifted.checked_add(digit) {
            Some(v) => v,
            None => {
                proof {
                    overflow_or_bad_digit(d, i - start + 1);
                }
                return None;
            },
        };
        value = next;
        i += 1;
    }
    assert(d.take(len - start) =~= d);
    Some(value)
}

/// Where a prefix of `d` is already too large, `d` is either too large or holds a
/// character that is not a digit.
proof fn overflow_or_bad_digit(d: Seq<char>, k: int)
    requires
        0 <= k <= d.len(),
        dec_value(d.take(k)) > usize::MAX,
    ensures
        !((forall|i: int| 0 <= i < d.len() ==> is_digit(#[trigger] d[i])) && dec_value(d)
            <= usize::MAX),
{
    if forall|i: int| 0 <= i < d.len() ==> is_digit(#[trigger] d[i]) {
        lemma_dec_value_grows(d, k);
    }
}

/// The default number of bytes that `memdump` shows.
pub const DEFAULT_DUMP_LEN: usize = 64;

/// The arguments of `memdump`, an address in hexadecimal and an optional length in decimal:
/// none for no arguments or an address that does not parse; a length that does not parse
/// is the default. Where the trimmed arguments hold no white space, they are the address
/// as they were given, untrimmed.
pub open spec fn spec_memdump_args(args: Seq<char>) -> Option<(u64, usize)> {
    if args.len() == 0 {
        None
    } else {
        let t = trimmed(args);
        let p = first_white_space(t);
        let addr = if p < t.len() {
            t.take(p as int)
        } else {
            args
        };
        let len = if p < t.len() {
            match spec_parse_usize(trimmed(t.skip(p + 1 as int))) {
                Some(n) => n,
                None => DEFAULT_DUMP_LEN,
            }
        } else {
            DEFAULT_DUMP_LEN
        };
        match spec_parse_hex_u64(addr) {
            Some(a) => Some((a, len)),
            None => None,
        }
    }
}

pub fn parse_memdump_args(args: &str) -> (r: Option<(u64, usize)>)
    ensures
        r == spec_memdump_args(args@),
{
    if args.unicode_len() == 0 {
        return None;
    }
    let t = trim(args);
    let p = find_white_space(t);
    let len = t.unicode_len();
    let (addr_str, dump_len) = if p < len {
        let addr_str = t.substring_char(0, p);
        let rest = t.substring_char(p + 1, len);
        proof {
            assert(addr_str@ =~= t@.take(p as int));
            assert(rest@ =~= t@.skip(p + 1 as int));
        }
        let n = match parse_usize(trim(rest)) {
            Some(n) => n,
            None => DEFAULT_DUMP_LEN,
        };
        (addr_str, n)
    } else {
        (args, DEFAULT_DUMP_LEN)
    };
    match parse_hex_u64(addr_str) {
        Some(a) => Some((a, dump_len)),
        None => None,
    }
}

/// `Dumping n bytes at 0xa`, and a newline: the length in decimal, the address in hex.
pub open spec fn spec_memdump_header(len: usize, addr: u64) -> Seq<u8> {
    ascii_bytes(seq!['D', 'u', 'm', 'p', 'i', 'n', 'g', ' ']) + spec_decimal(len as nat)
        + ascii_bytes(seq![' ', 'b', 'y', 't', 'e', 's', ' ', 'a', 't', ' ', '0', 'x']) + spec_hex(
        addr as nat,
    ) + seq![0x0au8]
}

/// The line that opens the dump of `len` bytes at `addr`.
pub fn memdump_header(len: usize, addr: u64) -> (r: Vec<u8>)
    ensures
        r@ == spec_memdump_header(len, addr),
{
    let head = "Dumping ";
    let mid = " bytes at 0x";
    proof {
        reveal_strlit("Dumping ");
        reveal_strlit(" bytes at 0x");
        assert(head@ =~= seq!['D', 'u', 'm', 'p', 'i', 'n', 'g', ' ']);
        assert(mid@ =~= seq![' ', 'b', 'y', 't', 'e', 's', ' ', 'a', 't', ' ', '0', 'x']);
    }
    let mut out: Vec<u8> = Vec::new();
    push_ascii(&mut out, head);
    push_decimal(&mut out, len as u64);
    push_ascii(&mut out, mid);
    push_hex(&mut out, addr);
    out.push(0x0a);
    assert(out@ =~= spec_memdump_header(len, addr));
    out
}

/// How a dumped byte is shown among the characters: printable ASCII as it is, anything
/// else as a dot.
pub open spec fn shown_char(b: u8) -> u8 {
    if 32 <= b <= 126 {
        b
    } else {
        0x2e
    }
}

/// The hex cell of column `j`: two digits and a space, or three spaces past the bytes.
pub open spec fn hex_cell(row: Seq<u8>, j: int) -> Seq<u8> {
    if j < row.len() {
        spec_hex_padded(row[j] as nat, 2) + seq![0x20u8]
    } else {
        seq![0x20u8, 0x20u8, 0x20u8]
    }
}

/// The hex cells of the first `k` columns.
pub open spec fn hex_cells(row: Seq<u8>, k: nat) -> Seq<u8>
    decreases k,
{
    if k == 0 {
        Seq::empty()
    } else {
        hex_cells(row, (k - 1) as nat) + hex_cell(row, k - 1)
    }
}

/// A line of the dump: the address in at least eight hex digits, two spaces, sixteen hex
/// cells, ` | `, the bytes as characters, and a newline.
pub open spec fn spec_dump_line(addr: u64, row: Seq<u8>) -> Seq<u8> {
    spec_hex_padded(addr as nat, 8) + seq![0x20u8, 0x20u8] + hex_cells(row, 16) + seq![
        0x20u8,
        0x7cu8,
        0x20u8,
    ] + Seq::new(row.len(), |j: int| shown_char(row[j]))
        + seq![0x0au8]
}

/// The line of the dump for the bytes `row`, found at `addr`.
pub fn dump_line(addr: u64, row: &[u8]) -> (r: Vec<u8>)
    requires
        row@.len() <= 16,
    ensures
        r@ == spec_dump_line(addr, row@),
{
    let mut out: Vec<u8> = Vec::new();
    push_hex_padded(&mut out, addr, 8);
    out.push(0x20);
    out.push(0x20);
    let ghost head = out@;
    let mut j: usize = 0;
    while j < 16
        invariant
            j <= 16,
            row@.len() <= 16,
            out@ == head + hex_cells(row@, j as nat),
        decreases 16 - j,
    {
        let ghost before = out@;
        if j < row.len() {
            push_hex_padded(&mut out, row[j] as u64, 2);
            out.push(0x20);
        } else {
            out.push(0x20);
            out.push(0x20);
            out.push(0x20);
        }
        assert(out@ =~= before + hex_cell(row@, j as int));
        j += 1;
        assert(out@ =~= head + hex_cells(row@, j as nat));
    }
    out.push(0x20);
    out.push(0x7c);
    out.push(0x20);
    let ghost mid = out@;
    let mut k: usize = 0;
    while k < row.len()
        invariant
            k <= row@.len(),
            out@ == mid + Seq::new(k as nat, |i: int| shown_char(row@[i])),
        decreases row@.len() - k,
    {
        let b = row[k];
        let c = if 32 <= b && b <= 126 {
            b
        } else {
            0x2e
        };
        out.push(c);
        k += 1;
        assert(out@ =~= mid + Seq::new(k as nat, |i: int| shown_char(row@[i])));
    }
    out.push(0x0a);
    assert(out@ =~= spec_dump_line(addr, row@));
    out
}

/// The whole dump of `data`, found from `addr` on: a line for each sixteen bytes.
pub open spec fn spec_dump(addr: u64, data: Seq<u8>) -> Seq<u8>
    decreases data.len(),
{
    if data.len() == 0 {
        Seq::empty()
    } else if data.len() <= 16 {
        spec_dump_line(addr, data)
    } else {
        spec_dump_line(addr, data.take(16)) + spec_dump((addr + 16) as u64, data.skip(16))
    }
}

/// The dump of `data`, the bytes found from `addr` on; they must all have an address.
pub fn dump(addr: u64, data: &[u8]) -> (r: Vec<u8>)
    requires
        addr + data@.len() <= u64::MAX + 1,
    ensures
        r@ == spec_dump(addr, data@),
{
    let mut out: Vec<u8> = Vec::new();
    let mut i: usize = 0;
    let len = data.len();
    assert(data@.skip(0) =~= data@);
    assert(out@ + spec_dump(addr, data@) =~= spec_dump(addr, data@));
    while i < len
        invariant
            len == data@.len(),
            i <= len,
            addr + data@.len() <= u64::MAX + 1,
            out@ + spec_dump((addr + i) as u64, data@.skip(i as int)) == spec_dump(addr, data@),
        decreases len - i,
    {
        let end = if len - i > 16 {
            i + 16
        } else {
            len
        };
        let row = slice_subrange(data, i, end);
        let line = dump_line(addr + i as u64, row);
        let ghost rest = data@.skip(i as int);
        proof {
            assert(row@ =~= data@.subrange(i as int, end as int));
            if rest.len() > 16 {
                assert(rest.take(16) =~= row@);
                assert(rest.skip(16) =~= data@.skip(end as int));
                assert(addr + i + 16 == addr + end);
            } else {
                assert(rest =~= row@);
                assert(data@.skip(end as int) =~= Seq::<u8>::empty());
            }
        }
        let mut line = line;
        out.append(&mut line);
        i = end;
    }
    assert(data@.skip(i as int) =~= Seq::<u8>::empty());
    assert(out@ + Seq::<u8>::empty() =~= out@);
    out
}

} // verus!
