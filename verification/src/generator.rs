//! The banned-substring-safe fragment generator.
//!
//! Each emission appends one alphabet fragment to the (ghost) history of
//! everything emitted so far.  A candidate is accepted only if no banned
//! string ends at any of the newly appended characters; because content
//! only ever grows by appending, this suffix check at every step keeps
//! the whole history free of banned substrings (`lemma_substring_safety`).
//! Only a bounded window of the history — one character less than the
//! longest banned string — must be retained to run the check.

use vstd::prelude::*;

use crate::banned::Banned;
use crate::stream::{
    clean, has_banned_suffix, lemma_clean_append, lemma_clean_iff_no_occurrence,
    lemma_window_slide, lemma_window_suffices, occurs_in, window_len, window_of,
};

verus! {

/// How many rejected candidates one emission will tolerate before it
/// reports the banned set as pathological instead of retrying forever.
pub const SPIT_ATTEMPT_CAP: usize = 10000;

/// The fixed candidate alphabet: every printable ASCII character from
/// the space up to (excluding) the tilde, then one CRLF fragment.
pub open spec fn ascii_alphabet() -> Seq<Seq<char>> {
    Seq::new(95, |i: int| if i < 94 { seq![((32 + i) as u8) as char] } else { seq!['\r', '\n'] })
}

/// Relies on `char::to_string` (std): the returned string holds exactly
/// the one given character.
#[verifier::external_body]
fn char_to_string(c: char) -> (r: String)
    ensures
        r@ == seq![c],
{
    c.to_string()
}

/// Relies on `rand::random_range` (rand): a draw from `0..n`, which
/// panics only on an empty range.  Nothing more is promised of a random
/// value than its bound.
#[verifier::external_body]
fn random_index(n: usize) -> (r: usize)
    requires
        n >= 1,
    ensures
        r < n,
{
    rand::random_range(0..n)
}

/// The candidate fragments the generator samples from.
pub fn ascii_string_list() -> (r: Vec<String>)
    ensures
        r@.len() == ascii_alphabet().len(),
        forall|i: int| 0 <= i < r@.len() ==> (#[trigger] r@[i])@ == ascii_alphabet()[i],
{
    let mut list: Vec<String> = Vec::new();
    let mut b: u8 = 32;
    while b < 126
        invariant
            32 <= b <= 126,
            list@.len() == b - 32,
            forall|i: int| 0 <= i < list@.len() ==> (#[trigger] list@[i])@ == ascii_alphabet()[i],
        decreases 126 - b,
    {
        list.push(char_to_string(b as char));
        b += 1;
    }
    let crlf = String::from_str("\r\n");
    proof {
        reveal_strlit("\r\n");
        assert(crlf@ =~= seq!['\r', '\n']);
    }
    list.push(crlf);
    list
}

/// A generator of random printable fragments whose concatenated output
/// never contains any banned string as a substring.
pub struct RandStringSpitter {
    spit_list: Vec<String>,
    banned: Banned,
    prev_string: String,
    history: Ghost<Seq<char>>,
}

impl RandStringSpitter {
    /// The banned strings this generator avoids.
    pub closed spec fn banned_strs(&self) -> Seq<Seq<char>> {
        self.banned@
    }

    /// The fragments candidates are drawn from.
    pub closed spec fn alphabet(&self) -> Seq<Seq<char>> {
        self.spit_list@.map(|i: int, s: String| s@)
    }

    /// The concatenation of every fragment ever emitted.
    pub closed spec fn emitted(&self) -> Seq<char> {
        self.history@
    }

    /// The retained sliding-window buffer.
    pub closed spec fn buffer(&self) -> Seq<char> {
        self.prev_string@
    }

    /// The generator's invariant: the emitted history is clean, and the
    /// buffer is exactly its suffix of length at most one less than the
    /// longest banned string.
    pub closed spec fn wf(&self) -> bool {
        &&& clean(self.banned@, self.history@)
        &&& self.prev_string@ == window_of(self.history@, window_len(self.banned@))
    }

    /// Suffix-window correctness: the retained buffer always equals the
    /// true suffix of the full emitted history, truncated to one less
    /// than the longest banned string.
    pub proof fn lemma_buffer_is_window(&self)
        requires
            self.wf(),
        ensures
            self.buffer() == window_of(self.emitted(), window_len(self.banned_strs())),
    {
    }

    /// Substring safety: the concatenation of everything this generator
    /// has ever emitted contains no banned string as a substring.
    pub proof fn lemma_substring_safety(&self)
        requires
            self.wf(),
        ensures
            forall|k: int|
                0 <= k < self.banned_strs().len() ==> !occurs_in(
                    self.emitted(),
                    #[trigger] self.banned_strs()[k],
                ),
    {
        lemma_clean_iff_no_occurrence(self.banned@, self.history@);
    }

    /// A generator over the printable-ASCII alphabet that will never let
    /// the SSH identification prefix appear in its output.
    pub fn new_ssh_identifier() -> (r: Self)
        ensures
            r.wf(),
            r.emitted() == Seq::<char>::empty(),
            r.banned_strs() == seq![seq!['S', 'S', 'H', '-']],
            r.alphabet() == ascii_alphabet(),
    {
        let mut list: Vec<String> = Vec::new();
        let ssh = String::from_str("SSH-");
        proof {
            reveal_strlit("SSH-");
            assert(ssh@ =~= seq!['S', 'S', 'H', '-']);
        }
        list.push(ssh);
        let banned = Banned::new(list);
        let r = Self {
            banned,
            spit_list: ascii_string_list(),
            prev_string: String::new(),
            history: Ghost(Seq::empty()),
        };
        proof {
            assert(r.banned@ =~= seq![seq!['S', 'S', 'H', '-']]);
            assert(r.alphabet() =~= ascii_alphabet());
            assert forall|i: int| 0 <= i <= r.history@.len() implies !has_banned_suffix(
                r.banned@,
                #[trigger] r.history@.subrange(0, i),
            ) by {
                assert(r.history@.subrange(0, i).len() == 0);
            }
            assert(r.prev_string@ =~= window_of(r.history@, window_len(r.banned@)));
        }
        r
    }

    /// A generator over the printable-ASCII alphabet with an arbitrary
    /// banned set.  A banned set holding an empty string would forbid
    /// every emission, so such a pathological configuration is rejected
    /// here rather than left to hang the sampling loop.
    pub fn with_banned(banned: Banned) -> (r: Option<Self>)
        ensures
            (r is Some) <==> (forall|k: int| 0 <= k < banned@.len() ==> banned@[k].len() > 0),
            r matches Some(g) ==> {
                &&& g.wf()
                &&& g.emitted() == Seq::<char>::empty()
                &&& g.banned_strs() == banned@
                &&& g.alphabet() == ascii_alphabet()
            },
    {
        if !banned.all_nonempty() {
            return None;
        }
        let r = Self {
            banned,
            spit_list: ascii_string_list(),
            prev_string: String::new(),
            history: Ghost(Seq::empty()),
        };
        proof {
            assert(r.alphabet() =~= ascii_alphabet());
            assert forall|i: int| 0 <= i <= r.history@.len() implies !has_banned_suffix(
                r.banned@,
                #[trigger] r.history@.subrange(0, i),
            ) by {
                assert(r.history@.subrange(0, i).len() == 0);
            }
            assert(r.prev_string@ =~= window_of(r.history@, window_len(r.banned@)));
        }
        Some(r)
    }

    /// The retained buffer, for callers that want to observe it.
    pub fn window_buffer(&self) -> (r: &String)
        ensures
            r@ == self.buffer(),
    {
        &self.prev_string
    }

    /// How many fragments the candidate alphabet holds.
    pub fn alphabet_len(&self) -> (r: usize)
        ensures
            r == self.alphabet().len(),
    {
        self.spit_list.len()
    }

    /// Try one chosen candidate fragment.  It is accepted — appended to
    /// the emitted history and returned — exactly when the history stays
    /// clean, i.e. when no banned string ends at any of the appended
    /// characters; a rejected candidate leaves the generator untouched.
    /// With an empty banned set every candidate is accepted.
    pub fn try_fragment(&mut self, idx: usize) -> (r: Option<String>)
        requires
            old(self).wf(),
            idx < old(self).alphabet().len(),
        ensures
            final(self).wf(),
            final(self).banned_strs() == old(self).banned_strs(),
            final(self).alphabet() == old(self).alphabet(),
            (r is Some) <==> clean(
                old(self).banned_strs(),
                old(self).emitted() + old(self).alphabet()[idx as int],
            ),
            r matches Some(f) ==> {
                &&& f@ == old(self).alphabet()[idx as int]
                &&& final(self).emitted() == old(self).emitted() + f@
            },
            r is None ==> *final(self) == *old(self),
            old(self).banned_strs().len() == 0 ==> r is Some,
    {
        let ghost hist = self.history@;
        let ghost bview = self.banned@;
        let frag = self.spit_list[idx].clone();
        let prev_len = self.prev_string.unicode_len();
        let frag_len = frag.unicode_len();
        let mut cand = self.prev_string.clone();
        cand.append(frag.as_str());
        proof {
            assert(cand@ == self.prev_string@ + frag@);
        }
        let cand_len = cand.unicode_len();
        let mut j: usize = 0;
        while j < frag_len
            invariant
                0 <= j <= frag_len,
                prev_len == self.prev_string@.len(),
                frag_len == frag@.len(),
                cand_len == prev_len + frag_len,
                cand@ == self.prev_string@ + frag@,
                bview == self.banned@,
                bview == old(self).banned_strs(),
                hist == self.history@,
                hist == old(self).emitted(),
                frag@ == old(self).alphabet()[idx as int],
                clean(bview, hist),
                self.prev_string@ == window_of(hist, window_len(bview)),
                forall|j2: int|
                    1 <= j2 <= j ==> !has_banned_suffix(
                        bview,
                        self.prev_string@ + #[trigger] frag@.subrange(0, j2),
                    ),
            decreases frag_len - j,
        {
            let prefix = cand.as_str().substring_char(0, prev_len + j + 1);
            proof {
                assert(prefix@ =~= self.prev_string@ + frag@.subrange(0, j + 1));
            }
            if self.banned.is_banned(prefix) {
                proof {
                    assert(prefix@ =~= self.prev_string@ + frag@.subrange(0, j + 1));
                    lemma_window_suffices(bview, hist, frag@.subrange(0, j + 1));
                    lemma_clean_append(bview, hist, frag@);
                    assert(!clean(bview, hist + frag@));
                }
                return None;
            }
            j += 1;
        }
        proof {
            assert forall|j2: int| 1 <= j2 <= frag@.len() implies !has_banned_suffix(
                bview,
                hist + #[trigger] frag@.subrange(0, j2),
            ) by {
                assert(!has_banned_suffix(bview, self.prev_string@ + frag@.subrange(0, j2)));
                lemma_window_suffices(bview, hist, frag@.subrange(0, j2));
            }
            lemma_clean_append(bview, hist, frag@);
            assert(clean(bview, hist + frag@));
        }
        let ctx = self.banned.ctx_len();
        let keep_w = if ctx == 0 {
            0
        } else {
            ctx - 1
        };
        let keep = if cand_len < keep_w {
            cand_len
        } else {
            keep_w
        };
        let new_prev = String::from_str(cand.as_str().substring_char(cand_len - keep, cand_len));
        proof {
            assert(keep_w == window_len(bview));
            assert(new_prev@ =~= window_of(cand@, window_len(bview)));
            lemma_window_slide(hist, frag@, window_len(bview));
        }
        self.prev_string = new_prev;
        self.history = Ghost(hist + frag@);
        Some(frag)
    }

    /// Draw one random fragment: sample candidates uniformly from the
    /// alphabet until one is accepted.  Returns `None` — leaving the
    /// generator untouched — only if every one of a generous number of
    /// attempts was rejected, which marks the banned set as pathological
    /// for the current buffer.  Success is certain whenever every
    /// alphabet fragment is currently safe (then the first sample is
    /// accepted, whatever was drawn) — in particular with an empty
    /// banned set.
    pub fn spit(&mut self) -> (r: Option<String>)
        requires
            old(self).wf(),
            old(self).alphabet().len() >= 1,
        ensures
            final(self).wf(),
            final(self).banned_strs() == old(self).banned_strs(),
            final(self).alphabet() == old(self).alphabet(),
            r matches Some(f) ==> {
                &&& exists|k: int|
                    0 <= k < old(self).alphabet().len() && f@ == old(self).alphabet()[k]
                &&& clean(old(self).banned_strs(), old(self).emitted() + f@)
                &&& final(self).emitted() == old(self).emitted() + f@
            },
            r is None ==> *final(self) == *old(self),
            (forall|k: int|
                0 <= k < old(self).alphabet().len() ==> clean(
                    old(self).banned_strs(),
                    old(self).emitted() + #[trigger] old(self).alphabet()[k],
                )) ==> r is Some,
            old(self).banned_strs().len() == 0 ==> r is Some,
    {
        let n = self.spit_list.len();
        let mut attempts: usize = 0;
        while attempts < SPIT_ATTEMPT_CAP
            invariant
                *self == *old(self),
                n == self.alphabet().len(),
                n >= 1,
                self.wf(),
                attempts >= 1 ==> self.banned_strs().len() > 0,
                attempts >= 1 ==> exists|k: int|
                    0 <= k < self.alphabet().len() && !clean(
                        self.banned_strs(),
                        self.emitted() + #[trigger] self.alphabet()[k],
                    ),
            decreases SPIT_ATTEMPT_CAP - attempts,
        {
            let idx = random_index(n);
            let got = self.try_fragment(idx);
            match got {
                Some(f) => {
                    return Some(f);
                },
                None => {},
            }
            attempts += 1;
        }
        None
    }
}

} // verus!
