//! Searching in strings.

use vstd::prelude::*;
use vstd::string::StringExecFns;

verus! {

/// Whether `pat` occurs in `s` at position `i`.
pub open spec fn occurs_at(s: Seq<char>, pat: Seq<char>, i: int) -> bool {
    0 <= i && i + pat.len() <= s.len() && s.subrange(i, i + pat.len()) == pat
}

/// Whether `pat` occurs somewhere in `s`.
pub open spec fn has_substring(s: Seq<char>, pat: Seq<char>) -> bool {
    exists|i: int| occurs_at(s, pat, i)
}

/// The characters of `s`.
pub fn chars_of(s: &str) -> (r: Vec<char>)
    ensures
        r@ == s@,
{
    let n = s.unicode_len();
    let mut out: Vec<char> = Vec::new();
    let mut i: usize = 0;
    while i < n
        invariant
            i <= n,
            n == s@.len(),
            out@ == s@.subrange(0, i as int),
        decreases n - i,
    {
        out.push(s.get_char(i));
        assert(out@ =~= s@.subrange(0, i + 1));
        i += 1;
    }
    assert(s@.subrange(0, n as int) =~= s@);
    out
}

/// Whether `pat` occurs somewhere in `s`.
pub fn contains_str(s: &str, pat: &str) -> (r: bool)
    ensures
        r == has_substring(s@, pat@),
{
    let text = chars_of(s);
    let want = chars_of(pat);
    let n = text.len();
    let m = want.len();
    if m > n {
        assert forall|i: int| !occurs_at(s@, pat@, i) by {}
        return false;
    }
    let mut i: usize = 0;
    while i <= n - m
        invariant
            i <= n - m + 1,
            m <= n,
            n == text@.len(),
            m == want@.len(),
            text@ == s@,
            want@ == pat@,
            forall|j: int| 0 <= j < i ==> !occurs_at(s@, pat@, j),
        decreases n - m + 1 - i,
    {
        let mut k: usize = 0;
        while k < m && text[i + k] == want[k]
            invariant
                k <= m,
                i + m <= n,
                n == text@.len(),
                m == want@.len(),
                forall|j: int| 0 <= j < k ==> text@[i + j] == want@[j],
            decreases m - k,
        {
            k += 1;
        }
        if k == m {
            assert(text@.subrange(i as int, i + m) =~= want@);
            assert(occurs_at(s@, pat@, i as int));
            return true;
        }
        assert(!occurs_at(s@, pat@, i as int)) by {
            if occurs_at(s@, pat@, i as int) {
                assert(text@.subrange(i as int, i + m)[k as int] == want@[k as int]);
            }
        }
        i += 1;
    }
    assert forall|j: int| !occurs_at(s@, pat@, j) by {}
    false
}

/// The first position from `from` on at which `s` holds `c`, or the length
/// of `s` if there is none.
pub open spec fn next_char(s: Seq<char>, from: int, c: char) -> int
    decreases s.len() - from,
{
    if from < 0 || from >= s.len() {
        s.len() as int
    } else if s[from] == c {
        from
    } else {
        next_char(s, from + 1, c)
    }
}

/// The position found lies between the start and the end, and `c` does
/// not occur before it.
pub proof fn lemma_next_char(s: Seq<char>, from: int, c: char)
    requires
        0 <= from <= s.len(),
    ensures
        from <= next_char(s, from, c) <= s.len(),
        forall|j: int| from <= j < next_char(s, from, c) ==> s[j] != c,
        next_char(s, from, c) < s.len() ==> s[next_char(s, from, c)] == c,
    decreases s.len() - from,
{
    if from < s.len() && s[from] != c {
        lemma_next_char(s, from + 1, c);
    }
}

/// The first position from `from` on at which `cs` holds `c`, or the
/// length of `cs` if there is none.
pub fn find_char(cs: &Vec<char>, from: usize, c: char) -> (r: usize)
    requires
        from <= cs@.len(),
    ensures
        r == next_char(cs@, from as int, c),
        from <= r <= cs@.len(),
{
    let mut i: usize = from;
    while i < cs.len() && cs[i] != c
        invariant
            from <= i <= cs@.len(),
            next_char(cs@, from as int, c) == next_char(cs@, i as int, c),
        decreases cs@.len() - i,
    {
        i += 1;
    }
    i
}

/// The value of the hexadecimal digit `c`, if it is one.
pub open spec fn hex_digit(c: char) -> Option<nat> {
    if '0' <= c && c <= '9' {
        Some((c as nat - '0' as nat) as nat)
    } else if 'a' <= c && c <= 'f' {
        Some((c as nat - 'a' as nat + 10) as nat)
    } else if 'A' <= c && c <= 'F' {
        Some((c as nat - 'A' as nat + 10) as nat)
    } else {
        None
    }
}

/// Whether every character of `d` is a hexadecimal digit.
pub open spec fn all_hex(d: Seq<char>) -> bool {
    forall|i: int| 0 <= i < d.len() ==> hex_digit(#[trigger] d[i]) is Some
}

/// The number that the digits `d` spell in base sixteen.
pub open spec fn hex_value(d: Seq<char>) -> nat
    decreases d.len(),
{
    if d.len() == 0 {
        0
    } else {
        hex_value(d.drop_last()) * 16 + match hex_digit(d.last()) {
            Some(v) => v,
            None => 0,
        }
    }
}

/// The number that `s` spells in base sixteen: an optional plus sign and
/// then at least one hexadecimal digit, of either case; none where the
/// number does not fit 64 bits.
pub open spec fn parse_hex_spec(s: Seq<char>) -> Option<u64> {
    let d = if s.len() > 0 && s[0] == '+' {
        s.drop_first()
    } else {
        s
    };
    if d.len() > 0 && all_hex(d) && hex_value(d) <= u64::MAX {
        Some(hex_value(d) as u64)
    } else {
        None
    }
}

proof fn lemma_hex_prefix(d: Seq<char>, k: int)
    requires
        0 <= k <= d.len(),
    ensures
        hex_value(d.subrange(0, k)) <= hex_value(d),
    decreases d.len() - k,
{
    if k == d.len() {
        assert(d.subrange(0, k) =~= d);
    } else {
        lemma_hex_prefix(d, k + 1);
        let pre = d.subrange(0, k + 1);
        assert(pre.drop_last() =~= d.subrange(0, k));
    }
}

/// The value of the hexadecimal digit `c`, if it is one.
pub fn hex_digit_of(c: char) -> (r: Option<u8>)
    ensures
        match r {
            Some(v) => hex_digit(c) == Some(v as nat) && v < 16,
            None => hex_digit(c) is None,
        },
{
    if '0' <= c && c <= '9' {
        Some((c as u32 - '0' as u32) as u8)
    } else if 'a' <= c && c <= 'f' {
        Some((c as u32 - 'a' as u32 + 10) as u8)
    } else if 'A' <= c && c <= 'F' {
        Some((c as u32 - 'A' as u32 + 10) as u8)
    } else {
        None
    }
}

/// Reads the characters `cs` as a number in base sixteen.
pub fn parse_hex_chars(cs: &Vec<char>) -> (r: Option<u64>)
    ensures
        r == parse_hex_spec(cs@),
{
    let n = cs.len();
    let start: usize = if n > 0 && cs[0] == '+' { 1 } else { 0 };
    let ghost d = cs@.subrange(start as int, n as int);
    proof {
        if start == 1 {
            assert(d =~= cs@.drop_first());
        } else {
            assert(d =~= cs@);
        }
    }
    if start == n {
        return None;
    }
    let mut value: u64 = 0;
    let mut i: usize = start;
    assert(d.subrange(0, 0) =~= Seq::<char>::empty());
    while i < n
        invariant
            start <= i <= n,
            n == cs@.len(),
            d == cs@.subrange(start as int, n as int),
            d == if cs@.len() > 0 && cs@[0] == '+' {
                cs@.drop_first()
            } else {
                cs@
            },
            all_hex(d.subrange(0, i - start)),
            value == hex_value(d.subrange(0, i - start)),
        decreases n - i,
    {
        let ghost pre = d.subrange(0, i - start);
        let ghost next = d.subrange(0, i - start + 1);
        proof {
            assert(next.drop_last() =~= pre);
            assert(next.last() == cs@[i as int]);
            assert(d[i - start] == cs@[i as int]);
        }
        let digit = match hex_digit_of(cs[i]) {
            Some(v) => v,
            None => {
                assert(!all_hex(d));
                return None;
            },
        };
        if value > (u64::MAX - digit as u64) / 16 {
            proof {
                assert(hex_value(next) > u64::MAX);
                lemma_hex_prefix(d, i - start + 1);
            }
            return None;
        }
        value = value * 16 + digit as u64;
        proof {
            assert forall|j: int| 0 <= j < next.len() implies hex_digit(#[trigger] next[j]) is Some by {
                if j < pre.len() {
                    assert(next[j] == pre[j]);
                }
            }
        }
        i += 1;
    }
    assert(d.subrange(0, n - start) =~= d);
    Some(value)
}

/// Reads `s` as a number in base sixteen.
pub fn parse_hex(s: &str) -> (r: Option<u64>)
    ensures
        r == parse_hex_spec(s@),
{
    let cs = chars_of(s);
    parse_hex_chars(&cs)
}

/// The hexadecimal digit of the value `v`, in lower case.
pub open spec fn digit_char(v: nat) -> char {
    if v == 0 {
        '0'
    } else if v == 1 {
        '1'
    } else if v == 2 {
        '2'
    } else if v == 3 {
        '3'
    } else if v == 4 {
        '4'
    } else if v == 5 {
        '5'
    } else if v == 6 {
        '6'
    } else if v == 7 {
        '7'
    } else if v == 8 {
        '8'
    } else if v == 9 {
        '9'
    } else if v == 10 {
        'a'
    } else if v == 11 {
        'b'
    } else if v == 12 {
        'c'
    } else if v == 13 {
        'd'
    } else if v == 14 {
        'e'
    } else {
        'f'
    }
}

/// The digits of `n` in base sixteen, in lower case and without leading zeros.
pub open spec fn hex_digits(n: nat) -> Seq<char>
    decreases n,
{
    if n < 16 {
        seq![digit_char(n)]
    } else {
        hex_digits(n / 16).push(digit_char(n % 16))
    }
}

/// The digits of a number spell the number.
pub proof fn lemma_hex_round_trip(n: nat)
    ensures
        hex_digits(n).len() > 0,
        all_hex(hex_digits(n)),
        hex_value(hex_digits(n)) == n,
        hex_digits(n)[0] != '+',
        n <= u64::MAX ==> parse_hex_spec(hex_digits(n)) == Some(n as u64),
    decreases n,
{
    let d = hex_digits(n);
    if n < 16 {
        assert(d.drop_last() =~= Seq::<char>::empty());
        assert(hex_value(d.drop_last()) == 0);
        assert(hex_digit(digit_char(n)) == Some(n));
    } else {
        lemma_hex_round_trip(n / 16);
        let pre = hex_digits(n / 16);
        assert(d.drop_last() =~= pre);
        assert(d.last() == digit_char(n % 16));
        assert(hex_digit(digit_char(n % 16)) == Some(n % 16));
        assert forall|i: int| 0 <= i < d.len() implies hex_digit(#[trigger] d[i]) is Some by {
            if i < pre.len() {
                assert(d[i] == pre[i]);
            }
        }
        assert(d[0] == pre[0]);
    }
}

/// The hexadecimal digit of the value `v`, as a string.
fn digit_str(v: u64) -> (r: &'static str)
    requires
        v < 16,
    ensures
        r@ == seq![digit_char(v as nat)],
{
    proof {
        reveal_strlit("0");
        reveal_strlit("1");
        reveal_strlit("2");
        reveal_strlit("3");
        reveal_strlit("4");
        reveal_strlit("5");
        reveal_strlit("6");
        reveal_strlit("7");
        reveal_strlit("8");
        reveal_strlit("9");
        reveal_strlit("a");
        reveal_strlit("b");
        reveal_strlit("c");
        reveal_strlit("d");
        reveal_strlit("e");
        reveal_strlit("f");
    }
    let r = if v == 0 {
        "0"
    } else if v == 1 {
        "1"
    } else if v == 2 {
        "2"
    } else if v == 3 {
        "3"
    } else if v == 4 {
        "4"
    } else if v == 5 {
        "5"
    } else if v == 6 {
        "6"
    } else if v == 7 {
        "7"
    } else if v == 8 {
        "8"
    } else if v == 9 {
        "9"
    } else if v == 10 {
        "a"
    } else if v == 11 {
        "b"
    } else if v == 12 {
        "c"
    } else if v == 13 {
        "d"
    } else if v == 14 {
        "e"
    } else {
        "f"
    };
    assert(r@ =~= seq![digit_char(v as nat)]);
    r
}

/// The digits of `n` in base sixteen, in lower case and without leading zeros.
pub fn hex_text(n: u64) -> (r: String)
    ensures
        r@ == hex_digits(n as nat),
    decreases n,
{
    if n < 16 {
        String::from_str(digit_str(n))
    } else {
        let mut out = hex_text(n / 16);
        out.append(digit_str(n % 16));
        assert(out@ =~= hex_digits(n as nat));
        out
    }
}

} // verus!
