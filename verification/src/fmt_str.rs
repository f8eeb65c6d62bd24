//! Format strings: where a string constant lies in a segment, and which
//! argument registers its conversions consume.

use vstd::prelude::*;
use crate::convert::to_u64;
use crate::datalog::{
    FmtStrAsciiNulltermIn,
    FmtStrAsciiNulltermOut,
    FmtStrParseStrIn,
    FmtStrParseStrOut,
};
use crate::regs::spec_args;
use crate::text::chars_of;

verus! {

/// The number of conversions in the format string `cs` from position `i`
/// on, where `skip` says that position `i` is the second sign of an escaped
/// percent sign. A conversion is a percent sign that is followed by
/// another character than a percent sign.
pub open spec fn conversions(cs: Seq<char>, i: int, skip: bool) -> nat
    decreases cs.len() - i,
{
    if i < 0 || i + 1 >= cs.len() {
        0
    } else if skip {
        conversions(cs, i + 1, false)
    } else if cs[i] == '%' {
        if cs[i + 1] == '%' {
            conversions(cs, i + 1, true)
        } else {
            1 + conversions(cs, i + 1, false)
        }
    } else {
        conversions(cs, i + 1, false)
    }
}

/// The number of conversions in the format string `s`.
pub fn count_conversions(s: &str) -> (r: usize)
    ensures
        r == conversions(s@, 0, false),
{
    let cs = chars_of(s);
    let ghost total = conversions(s@, 0, false);
    let mut skip = false;
    let mut found: usize = 0;
    let mut k: usize = 0;
    let n = cs.len();
    if n == 0 {
        return 0;
    }
    while k < n - 1
        invariant
            n == cs@.len(),
            n >= 1,
            k <= n - 1,
            cs@ == s@,
            found <= k,
            found + conversions(cs@, k as int, skip) == total,
        decreases cs@.len() - k,
    {
        if skip {
            skip = false;
        } else if cs[k] == '%' {
            if cs[k + 1] == '%' {
                skip = true;
            } else {
                found += 1;
            }
        }
        k += 1;
    }
    found
}

/// The argument registers that the conversions of the format string
/// consume, in order. At most six arguments are passed in registers.
pub fn parse_str(i: &FmtStrParseStrIn) -> (r: Vec<FmtStrParseStrOut>)
    requires
        conversions(i.str@, 0, false) <= 6,
    ensures
        r@.len() == conversions(i.str@, 0, false),
        forall|k: int| 0 <= k < r@.len() ==> (#[trigger] r@[k]).arg == spec_args()[k],
{
    let args = crate::regs::args();
    let cs = chars_of(i.str.as_str());
    let ghost total = conversions(i.str@, 0, false);
    let mut skip = false;
    let mut out: Vec<FmtStrParseStrOut> = Vec::new();
    let mut k: usize = 0;
    let n = cs.len();
    if n == 0 {
        return out;
    }
    while k < n - 1
        invariant
            n == cs@.len(),
            n >= 1,
            cs@ == i.str@,
            args@ == spec_args(),
            total <= 6,
            out@.len() + conversions(cs@, k as int, skip) == total,
            forall|j: int| 0 <= j < out@.len() ==> (#[trigger] out@[j]).arg == spec_args()[j],
        decreases cs@.len() - k,
    {
        if skip {
            skip = false;
        } else if cs[k] == '%' {
            if cs[k + 1] == '%' {
                skip = true;
            } else {
                let n = out.len();
                out.push(FmtStrParseStrOut { arg: args[n] });
            }
        }
        k += 1;
    }
    out
}

/// Whether `c` is a printable character or white space.
pub open spec fn spec_ascii_range(c: u8) -> bool {
    (0x20 <= c && c <= 0x7E) || (0x07 <= c && c <= 0x0D)
}

/// Whether `c` is a printable character or white space.
pub fn ascii_range(c: u8) -> (r: bool)
    ensures
        r == spec_ascii_range(c),
{
    if c >= 0x20 && c <= 0x7E {
        return true;
    }
    if c >= 0x07 && c <= 0x0D {
        return true;
    }
    false
}

/// Whether all bytes of `contents` from `from` up to `to` are printable.
pub open spec fn all_printable(contents: Seq<u8>, from: int, to: int) -> bool {
    forall|j: int| from <= j < to ==> spec_ascii_range(#[trigger] contents[j])
}

/// Whether the text that starts at `offset` ends within `contents`: some
/// byte from `offset` on is not printable.
pub open spec fn ends_within(contents: Seq<u8>, offset: int) -> bool {
    exists|j: int| offset <= j < contents.len() && !spec_ascii_range(#[trigger] contents[j])
}

/// The characters of the bytes `bytes`.
pub open spec fn ascii_chars(bytes: Seq<u8>) -> Seq<char> {
    bytes.map_values(|b: u8| b as char)
}

/// `String::from_utf8` on bytes below 128: the string of the characters
/// with those codes.
#[verifier::external_body]
fn ascii_string(bytes: Vec<u8>) -> (r: String)
    requires
        forall|j: int| 0 <= j < bytes@.len() ==> #[trigger] bytes@[j] < 0x80,
    ensures
        r@ == ascii_chars(bytes@),
{
    String::from_utf8(bytes).unwrap()
}

/// The text at address `addr` of a segment that starts at `start`, ends
/// before `end` and holds `contents`: the printable bytes up to the first
/// zero byte, as a string. Nothing where `addr` lies outside the segment or
/// a byte that is not printable comes before the zero byte. The text must
/// end within `contents`.
pub fn ascii_nullterm(i: &FmtStrAsciiNulltermIn) -> (r: Vec<FmtStrAsciiNulltermOut>)
    requires
        i.start <= i.addr && i.addr < i.end ==> ends_within(i.contents@, i.addr - i.start),
    ensures
        r@.len() <= 1,
        r@.len() == 1 <==> (i.start <= i.addr && i.addr < i.end && exists|j: int|
            i.addr - i.start <= j < i.contents@.len() && #[trigger] i.contents@[j] == 0
                && all_printable(i.contents@, i.addr - i.start, j)),
        r@.len() == 1 ==> exists|j: int|
            i.addr - i.start <= j < i.contents@.len() && #[trigger] i.contents@[j] == 0
                && all_printable(i.contents@, i.addr - i.start, j) && r@[0].str@ == ascii_chars(
                i.contents@.subrange(i.addr - i.start, j),
            ),
{
    let mut out: Vec<FmtStrAsciiNulltermOut> = Vec::new();
    if !(i.start <= i.addr && i.end > i.addr) {
        return out;
    }
    let addr64 = match to_u64(i.addr) {
        Some(a) => a,
        None => {
            return out;
        },
    };
    let start64 = match to_u64(i.start) {
        Some(s) => s,
        None => {
            return out;
        },
    };
    let first: u64 = addr64 - start64;
    let n = i.contents.len();
    if first >= n as u64 {
        return out;
    }
    let begin: usize = first as usize;
    let mut offset: usize = begin;
    let mut strbuf: Vec<u8> = Vec::new();
    while offset < n && i.contents[offset] != 0
        invariant
            begin <= offset <= n,
            out@.len() == 0,
            n == i.contents@.len(),
            begin == i.addr - i.start,
            ends_within(i.contents@, begin as int),
            all_printable(i.contents@, begin as int, offset as int),
            strbuf@ == i.contents@.subrange(begin as int, offset as int),
        decreases n - offset,
    {
        let candidate = i.contents[offset];
        if ascii_range(candidate) {
            strbuf.push(candidate);
            assert(strbuf@ =~= i.contents@.subrange(begin as int, offset + 1));
        } else {
            proof {
                assert forall|j: int|
                    begin <= j < n && #[trigger] i.contents@[j] == 0 implies !all_printable(
                    i.contents@,
                    begin as int,
                    j,
                ) by {
                    if j < offset {
                        assert(spec_ascii_range(i.contents@[j]));
                    } else if j > offset {
                        assert(!spec_ascii_range(i.contents@[offset as int]));
                    }
                }
            }
            return out;
        }
        offset += 1;
    }
    proof {
        if offset == n {
            let j = choose|j: int| begin <= j < n && !spec_ascii_range(#[trigger] i.contents@[j]);
            assert(spec_ascii_range(i.contents@[j]));
        }
        assert forall|j: int| 0 <= j < strbuf@.len() implies #[trigger] strbuf@[j] < 0x80 by {
            assert(spec_ascii_range(i.contents@[begin + j]));
        }
    }
    out.push(FmtStrAsciiNulltermOut { str: ascii_string(strbuf) });
    out
}

} // verus!
