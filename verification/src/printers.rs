//! Rendering lists.

use vstd::prelude::*;
use vstd::string::StringExecFns;
use crate::interned_string::InternedString;
use crate::load::{Loc, Stack};
use crate::text::{
    chars_of,
    hex_digit,
    hex_digit_of,
    hex_digits,
    hex_text,
    lemma_hex_round_trip,
    parse_hex,
    parse_hex_spec,
};

verus! {

/// The items `v` from position `from` on, each preceded by a comma and a space.
pub open spec fn tail_text(v: Seq<String>, from: int) -> Seq<char>
    decreases v.len() - from,
{
    if from < 0 || from >= v.len() {
        Seq::empty()
    } else {
        ", "@ + v[from]@ + tail_text(v, from + 1)
    }
}

/// The items `v` between brackets, separated by a comma and a space.
pub open spec fn list_text(v: Seq<String>) -> Seq<char> {
    if v.len() == 0 {
        "["@ + "]"@
    } else {
        "["@ + v[0]@ + tail_text(v, 1) + "]"@
    }
}

/// The items `v` between brackets, separated by a comma and a space.
pub fn fmt_vec(v: &Vec<String>) -> (r: String)
    ensures
        r@ == list_text(v@),
{
    let mut out = String::from_str("[");
    if v.len() > 0 {
        out.append(v[0].as_str());
        let ghost head = out@;
        let mut k: usize = 1;
        while k < v.len()
            invariant
                1 <= k <= v@.len(),
                out@ + tail_text(v@, k as int) == head + tail_text(v@, 1),
            decreases v@.len() - k,
        {
            let ghost before = out@;
            out.append(", ");
            out.append(v[k].as_str());
            proof {
                assert(out@ + tail_text(v@, k + 1) =~= before + (", "@ + v@[k as int]@ + tail_text(
                    v@,
                    k + 1,
                )));
            }
            k += 1;
        }
        proof {
            assert(out@ + tail_text(v@, k as int) =~= out@);
        }
    }
    out.append("]");
    out
}

/// A list to be rendered between brackets.
pub struct CB<'a>(pub &'a Vec<String>);

impl<'a> CB<'a> {
    /// The list between brackets, the items separated by a comma and a space.
    pub fn to_string(&self) -> (r: String)
        ensures
            r@ == list_text(self.0@),
    {
        fmt_vec(self.0)
    }
}

/// The text of the stack `stack`: nothing where stacks are not tracked,
/// braces for the empty stack, and a plus sign and the text of the return
/// location otherwise.
pub open spec fn stack_text(stack: Stack) -> Seq<char>
    decreases stack,
{
    match stack {
        Stack::NoStack => Seq::empty(),
        Stack::EmptyStack => "{}"@,
        Stack::Return(l) => "+"@ + loc_text(*l),
    }
}

/// The text of the location `loc`: its address in base sixteen after
/// `0x`, and the text of its stack.
pub open spec fn loc_text(loc: Loc) -> Seq<char>
    decreases loc,
{
    "0x"@ + hex_digits(loc.addr as nat) + stack_text(loc.stack)
}

/// The text of the location `loc`.
pub fn show_loc(loc: &Loc) -> (r: String)
    ensures
        r@ == loc_text(*loc),
    decreases *loc,
{
    let mut out = String::from_str("0x");
    out.append(hex_text(loc.addr).as_str());
    match &loc.stack {
        Stack::NoStack => {
            assert(out@ =~= loc_text(*loc));
        },
        Stack::EmptyStack => {
            out.append("{}");
        },
        Stack::Return(ret) => {
            out.append("+");
            out.append(show_loc(ret).as_str());
            assert(out@ =~= loc_text(*loc));
        },
    }
    out
}

/// The end of the run of hexadecimal digits that starts at `from` in `s`.
pub open spec fn hex_run_end(s: Seq<char>, from: int) -> int
    decreases s.len() - from,
{
    if from < 0 || from >= s.len() {
        s.len() as int
    } else if hex_digit(s[from]) is None {
        from
    } else {
        hex_run_end(s, from + 1)
    }
}

/// The location that the text `s` names in the file `file_name`, without
/// stack: after `0x` the address in base sixteen, up to the first
/// character that is no digit. None where `s` does not start so.
pub open spec fn loc_of_text(s: Seq<char>, file_name: InternedString) -> Option<Loc> {
    if s.len() >= 2 && s[0] == '0' && s[1] == 'x' {
        match parse_hex_spec(s.subrange(2, hex_run_end(s, 2))) {
            Some(addr) => Some(Loc { file_name, addr, stack: Stack::NoStack }),
            None => None,
        }
    } else {
        None
    }
}

/// Reads the text of a location of the file `file_name`.
pub fn parse_loc(text: &str, file_name: InternedString) -> (r: Option<Loc>)
    ensures
        r == loc_of_text(text@, file_name),
{
    let cs = chars_of(text);
    let n = cs.len();
    if !(n >= 2 && cs[0] == '0' && cs[1] == 'x') {
        return None;
    }
    let mut end: usize = 2;
    while end < n && hex_digit_of(cs[end]).is_some()
        invariant
            2 <= end <= n,
            n == cs@.len(),
            hex_run_end(cs@, 2) == hex_run_end(cs@, end as int),
        decreases n - end,
    {
        end += 1;
    }
    match parse_hex(text.substring_char(2, end)) {
        Some(addr) => Some(Loc { file_name, addr, stack: Stack::NoStack }),
        None => None,
    }
}

proof fn lemma_hex_run(s: Seq<char>, from: int, end: int)
    requires
        0 <= from <= end <= s.len(),
        forall|j: int| from <= j < end ==> hex_digit(#[trigger] s[j]) is Some,
        end < s.len() ==> hex_digit(s[end]) is None,
    ensures
        hex_run_end(s, from) == end,
    decreases end - from,
{
    if from < end {
        lemma_hex_run(s, from + 1, end);
    }
}

/// Reading the text of a location gives the location back, but for its stack.
pub proof fn lemma_loc_round_trip(loc: Loc)
    ensures
        loc_of_text(loc_text(loc), loc.file_name) == Some(
            Loc { file_name: loc.file_name, addr: loc.addr, stack: Stack::NoStack },
        ),
{
    reveal_strlit("0x");
    reveal_strlit("{}");
    reveal_strlit("+");
    let d = hex_digits(loc.addr as nat);
    let tail = stack_text(loc.stack);
    let s = loc_text(loc);
    lemma_hex_round_trip(loc.addr as nat);
    let end: int = 2 + d.len() as int;
    assert(s.len() == 2 + d.len() + tail.len());
    assert(s[0] == '0' && s[1] == 'x');
    assert forall|j: int| 2 <= j < end implies hex_digit(#[trigger] s[j]) is Some by {
        assert(s[j] == d[j - 2]);
    }
    if end < s.len() {
        assert(s[end] == tail[0]);
        match loc.stack {
            Stack::NoStack => {},
            Stack::EmptyStack => {
                assert(tail[0] == '{');
            },
            Stack::Return(l) => {
                assert(tail[0] == '+');
            },
        }
    }
    lemma_hex_run(s, 2, end);
    assert(s.subrange(2, end) =~= d);
}

} // verus!
