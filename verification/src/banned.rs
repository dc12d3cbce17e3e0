//! The banned set: the strings that must never occur in the emitted
//! stream, with the suffix check the generator runs on every candidate.

use vstd::prelude::*;

use crate::stream::{ends_with, has_banned_suffix, max_len};

verus! {

/// An immutable set of banned strings.  Its view is the sequence of the
/// strings' character sequences.
pub struct Banned {
    list: Vec<String>,
}

impl View for Banned {
    type V = Seq<Seq<char>>;

    closed spec fn view(&self) -> Seq<Seq<char>> {
        self.list@.map(|i: int, s: String| s@)
    }
}

/// `s` ends with `b`, decided character by character.
fn str_ends_with(s: &str, b: &str) -> (r: bool)
    ensures
        r == ends_with(s@, b@),
{
    let n = s.unicode_len();
    let m = b.unicode_len();
    if m > n {
        return false;
    }
    let mut i: usize = 0;
    while i < m
        invariant
            m <= n,
            n == s@.len(),
            m == b@.len(),
            0 <= i <= m,
            forall|j: int| 0 <= j < i ==> s@[n - m + j] == b@[j],
        decreases m - i,
    {
        if s.get_char(n - m + i) != b.get_char(i) {
            assert(s@.subrange(n - m, n as int)[i as int] != b@[i as int]);
            return false;
        }
        i += 1;
    }
    assert(s@.subrange(n - m, n as int) =~= b@);
    true
}

impl Banned {
    pub fn new(list: Vec<String>) -> (r: Self)
        ensures
            r@ == list@.map(|i: int, s: String| s@),
    {
        Self { list }
    }

    /// The length of the longest banned string: how much context an
    /// emitter must retain to detect every banned suffix.
    pub fn ctx_len(&self) -> (r: usize)
        ensures
            r == max_len(self@),
    {
        let mut best: usize = 0;
        let mut k: usize = 0;
        while k < self.list.len()
            invariant
                0 <= k <= self.list.len(),
                best == max_len(self@.subrange(0, k as int)),
            decreases self.list.len() - k,
        {
            let len = self.list[k].unicode_len();
            proof {
                assert(self@.subrange(0, k + 1).drop_last() =~= self@.subrange(0, k as int));
                assert(self@.subrange(0, k + 1).last() == self@[k as int]);
            }
            if len > best {
                best = len;
            }
            k += 1;
        }
        proof {
            assert(self@.subrange(0, self.list@.len() as int) =~= self@);
        }
        best
    }

    /// Whether some banned string is a suffix of `s`.
    pub fn is_banned(&self, s: &str) -> (r: bool)
        ensures
            r == has_banned_suffix(self@, s@),
    {
        let mut k: usize = 0;
        while k < self.list.len()
            invariant
                0 <= k <= self.list.len(),
                forall|j: int| 0 <= j < k ==> !ends_with(s@, self@[j]),
            decreases self.list.len() - k,
        {
            if str_ends_with(s, self.list[k].as_str()) {
                assert(ends_with(s@, self@[k as int]));
                return true;
            }
            k += 1;
        }
        false
    }

    /// Whether every banned string is non-empty.  An empty banned string
    /// would forbid every possible emission, so constructors reject such
    /// a configuration.
    pub fn all_nonempty(&self) -> (r: bool)
        ensures
            r == (forall|k: int| 0 <= k < self@.len() ==> self@[k].len() > 0),
    {
        let mut k: usize = 0;
        while k < self.list.len()
            invariant
                0 <= k <= self.list.len(),
                forall|j: int| 0 <= j < k ==> self@[j].len() > 0,
            decreases self.list.len() - k,
        {
            if self.list[k].as_str().unicode_len() == 0 {
                assert(self@[k as int].len() == 0);
                return false;
            }
            k += 1;
        }
        true
    }
}

} // verus!
