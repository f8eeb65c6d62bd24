//! Short handles for file names.

use vstd::prelude::*;
use crate::order::{Key, Rank, StrictOrder};

verus! {

/// The table that hands out handles: the names interned so far, in the order
/// in which they were first seen.
pub struct Interner {
    names: Vec<String>,
}

/// A handle for a file name: its position in the table that interned it.
#[derive(Clone, Copy, Debug, PartialEq, Eq, Structural, PartialOrd, Ord, Hash)]
pub struct InternedString {
    index: u8,
}

/// Whether `name` is one of `names`.
pub open spec fn is_known(names: Seq<Seq<char>>, name: Seq<char>) -> bool {
    exists|i: int| 0 <= i < names.len() && names[i] == name
}

impl Interner {
    /// The names interned so far, each by its characters.
    pub closed spec fn names(&self) -> Seq<Seq<char>> {
        Seq::new(self.names@.len(), |i: int| self.names@[i]@)
    }

    /// No name is held twice, and every position fits a handle.
    pub open spec fn wf(&self) -> bool {
        &&& self.names().len() <= InternedString::spec_max()
        &&& forall|i: int, j: int|
            0 <= i < j < self.names().len() ==> self.names()[i] != self.names()[j]
    }

    /// An empty table.
    pub fn new() -> (r: Interner)
        ensures
            r.wf(),
            r.names() == Seq::<Seq<char>>::empty(),
    {
        let r = Interner { names: Vec::new() };
        assert(r.names() =~= Seq::<Seq<char>>::empty());
        r
    }

    /// How many names the table holds.
    pub fn len(&self) -> (n: usize)
        ensures
            n == self.names().len(),
    {
        self.names.len()
    }

    /// The position of `s` in the table, if it has been interned.
    pub fn position(&self, s: &str) -> (r: Option<usize>)
        ensures
            match r {
                Some(i) => i < self.names().len() && self.names()[i as int] == s@,
                None => !is_known(self.names(), s@),
            },
    {
        let mut i: usize = 0;
        while i < self.names.len()
            invariant
                i <= self.names.len(),
                forall|j: int| 0 <= j < i ==> self.names()[j] != s@,
            decreases self.names.len() - i,
        {
            if str_eq(self.names[i].as_str(), s) {
                return Some(i);
            }
            i += 1;
        }
        None
    }
}

/// Whether two string slices hold the same characters.
pub fn str_eq(a: &str, b: &str) -> (r: bool)
    ensures
        r == (a@ == b@),
{
    let n = a.unicode_len();
    if n != b.unicode_len() {
        return false;
    }
    let mut i: usize = 0;
    while i < n
        invariant
            i <= n,
            n == a@.len(),
            n == b@.len(),
            forall|j: int| 0 <= j < i ==> a@[j] == b@[j],
        decreases n - i,
    {
        if a.get_char(i) != b.get_char(i) {
            return false;
        }
        i += 1;
    }
    assert(a@ =~= b@);
    true
}

impl InternedString {
    /// The number of names a table may hold.
    pub open spec fn spec_max() -> int {
        255
    }

    /// The number of names a table may hold.
    pub fn max() -> (m: usize)
        ensures
            m == Self::spec_max(),
    {
        255
    }

    /// The position this handle stands for.
    pub closed spec fn spec_index(self) -> int {
        self.index as int
    }

    /// The position this handle stands for.
    pub fn index(&self) -> (i: usize)
        ensures
            i == self.spec_index(),
    {
        let i: usize = self.index as usize;
        i
    }

    /// The handle for `s`: the one it already has in `interner`, or else a
    /// new one, for which `interner` must have room.
    pub fn from_string(s: &str, interner: &mut Interner) -> (r: InternedString)
        requires
            old(interner).wf(),
            is_known(old(interner).names(), s@) || old(interner).names().len()
                < InternedString::spec_max(),
        ensures
            final(interner).wf(),
            0 <= r.spec_index() < final(interner).names().len(),
            final(interner).names()[r.spec_index()] == s@,
            final(interner).names() == if is_known(old(interner).names(), s@) {
                old(interner).names()
            } else {
                old(interner).names().push(s@)
            },
    {
        match interner.position(s) {
            Some(i) => {
                let index: u8 = i as u8;
                InternedString { index }
            },
            None => {
                let n = interner.names.len();
                let ghost before = interner.names();
                interner.names.push(s.to_owned());
                assert(interner.names() =~= before.push(s@));
                assert forall|i: int, j: int| 0 <= i < j < interner.names().len() implies interner.names()[i]
                    != interner.names()[j] by {
                    if j == before.len() {
                        assert(before[i] != s@);
                    } else {
                        assert(before[i] != before[j]);
                    }
                }
                let index: u8 = n as u8;
                InternedString { index }
            },
        }
    }

    /// The name this handle stands for in `interner`.
    pub fn to_string(&self, interner: &Interner) -> (r: String)
        requires
            self.spec_index() < interner.names().len(),
        ensures
            r@ == interner.names()[self.spec_index()],
    {
        interner.names[self.index as usize].clone()
    }
}

/// Interning one name twice gives one handle.
pub proof fn lemma_handles_agree(names: Seq<Seq<char>>, a: int, b: int)
    requires
        forall|i: int, j: int| 0 <= i < j < names.len() ==> names[i] != names[j],
        0 <= a < names.len(),
        0 <= b < names.len(),
        names[a] == names[b],
    ensures
        a == b,
{
    if a < b {
        assert(names[a] != names[b]);
    } else if b < a {
        assert(names[b] != names[a]);
    }
}

impl StrictOrder for InternedString {
    closed spec fn lt(self, other: InternedString) -> bool {
        self.index < other.index
    }

    proof fn lt_irreflexive(x: InternedString) {
    }

    proof fn lt_transitive(x: InternedString, y: InternedString, z: InternedString) {
    }

    proof fn lt_total(x: InternedString, y: InternedString) {
    }
}

impl Key for InternedString {
    fn order(&self, other: &InternedString) -> (r: Rank) {
        if self.index < other.index {
            Rank::Below
        } else if self.index == other.index {
            Rank::Same
        } else {
            Rank::Above
        }
    }

    fn dup(&self) -> (r: InternedString) {
        *self
    }
}

} // verus!
