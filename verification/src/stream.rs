//! Specification vocabulary for character streams: suffixes, substring
//! occurrence, and the "clean" predicate saying that no banned string
//! ever ends at any position of a stream.

use vstd::prelude::*;

verus! {

/// `b` is a suffix of `s`.
pub open spec fn ends_with(s: Seq<char>, b: Seq<char>) -> bool {
    b.len() <= s.len() && s.subrange(s.len() - b.len(), s.len() as int) == b
}

/// Some string of `banned` is a suffix of `s`.
pub open spec fn has_banned_suffix(banned: Seq<Seq<char>>, s: Seq<char>) -> bool {
    exists|k: int| 0 <= k < banned.len() && ends_with(s, banned[k])
}

/// No string of `banned` ends at any position of `s`: every prefix of `s`
/// is free of banned suffixes.  Because a stream only ever grows by
/// appending, this is exactly "no banned string occurs as a substring"
/// (`lemma_clean_iff_no_occurrence`).
pub open spec fn clean(banned: Seq<Seq<char>>, s: Seq<char>) -> bool {
    forall|i: int| 0 <= i <= s.len() ==> !has_banned_suffix(banned, #[trigger] s.subrange(0, i))
}

/// `b` occurs as a contiguous substring of `s`.
pub open spec fn occurs_in(s: Seq<char>, b: Seq<char>) -> bool {
    exists|i: int| 0 <= i && i + b.len() <= s.len() && #[trigger] s.subrange(i, i + b.len()) == b
}

/// Length of the longest string in `banned` (0 for an empty set).
pub open spec fn max_len(banned: Seq<Seq<char>>) -> nat
    decreases banned.len(),
{
    if banned.len() == 0 {
        0
    } else {
        let rest = max_len(banned.drop_last());
        if banned.last().len() > rest {
            banned.last().len()
        } else {
            rest
        }
    }
}

/// The window the generator must retain: one less than the longest
/// banned string, and nothing at all when the banned set is empty.
pub open spec fn window_len(banned: Seq<Seq<char>>) -> nat {
    if max_len(banned) == 0 {
        0
    } else {
        (max_len(banned) - 1) as nat
    }
}

/// The suffix of `s` of length at most `w`.
pub open spec fn window_of(s: Seq<char>, w: nat) -> Seq<char> {
    if s.len() <= w {
        s
    } else {
        s.subrange(s.len() - w, s.len() as int)
    }
}

/// Every member of `banned` is at most `max_len(banned)` long.
pub proof fn lemma_max_len_bound(banned: Seq<Seq<char>>, k: int)
    requires
        0 <= k < banned.len(),
    ensures
        banned[k].len() <= max_len(banned),
    decreases banned.len(),
{
    if k == banned.len() - 1 {
        assert(banned.last() == banned[k]);
    } else {
        lemma_max_len_bound(banned.drop_last(), k);
        assert(banned.drop_last()[k] == banned[k]);
    }
}

/// A clean stream is exactly one in which no banned string occurs as a
/// substring.
pub proof fn lemma_clean_iff_no_occurrence(banned: Seq<Seq<char>>, s: Seq<char>)
    ensures
        clean(banned, s) <==> (forall|k: int|
            0 <= k < banned.len() ==> !occurs_in(s, #[trigger] banned[k])),
{
    if clean(banned, s) {
        assert forall|k: int| 0 <= k < banned.len() implies !occurs_in(s, #[trigger] banned[k]) by {
            if occurs_in(s, banned[k]) {
                let i = choose|i: int|
                    0 <= i && i + banned[k].len() <= s.len() && #[trigger] s.subrange(
                        i,
                        i + banned[k].len(),
                    ) == banned[k];
                let j = i + banned[k].len();
                assert(s.subrange(0, j).subrange(j - banned[k].len(), j) =~= s.subrange(i, j));
                assert(ends_with(s.subrange(0, j), banned[k]));
                assert(has_banned_suffix(banned, s.subrange(0, j)));
            }
        }
    }
    if forall|k: int| 0 <= k < banned.len() ==> !occurs_in(s, #[trigger] banned[k]) {
        assert forall|i: int| 0 <= i <= s.len() implies !has_banned_suffix(
            banned,
            #[trigger] s.subrange(0, i),
        ) by {
            if has_banned_suffix(banned, s.subrange(0, i)) {
                let k = choose|k: int|
                    0 <= k < banned.len() && ends_with(s.subrange(0, i), banned[k]);
                let b = banned[k];
                assert(s.subrange(0, i).subrange(i - b.len(), i) =~= s.subrange(i - b.len(), i));
                assert(s.subrange(i - b.len(), (i - b.len()) + b.len()) == b);
                assert(occurs_in(s, b));
            }
        }
    }
}

/// Appending `f` to a clean stream stays clean exactly when no banned
/// string ends inside the appended part.
pub proof fn lemma_clean_append(banned: Seq<Seq<char>>, s: Seq<char>, f: Seq<char>)
    requires
        clean(banned, s),
    ensures
        clean(banned, s + f) <==> (forall|j: int|
            1 <= j <= f.len() ==> !has_banned_suffix(banned, s + #[trigger] f.subrange(0, j))),
{
    assert forall|j: int| 1 <= j <= f.len() implies (s + f).subrange(0, s.len() + j) =~= s
        + f.subrange(0, j) by {}
    if clean(banned, s + f) {
        assert forall|j: int| 1 <= j <= f.len() implies !has_banned_suffix(
            banned,
            s + #[trigger] f.subrange(0, j),
        ) by {
            assert(!has_banned_suffix(banned, (s + f).subrange(0, s.len() + j)));
        }
    }
    if forall|j: int| 1 <= j <= f.len() ==> !has_banned_suffix(
        banned,
        s + #[trigger] f.subrange(0, j),
    ) {
        assert forall|i: int| 0 <= i <= (s + f).len() implies !has_banned_suffix(
            banned,
            #[trigger] (s + f).subrange(0, i),
        ) by {
            if i <= s.len() {
                assert((s + f).subrange(0, i) =~= s.subrange(0, i));
            } else {
                let j = i - s.len();
                assert((s + f).subrange(0, i) =~= s + f.subrange(0, j));
            }
        }
    }
}

/// Whether a banned string is a suffix can be decided from the retained
/// window alone: with at least one appended character, checking against
/// `window_of(s, window_len(banned)) + t` equals checking against the
/// full history `s + t`.
pub proof fn lemma_window_suffices(banned: Seq<Seq<char>>, s: Seq<char>, t: Seq<char>)
    requires
        t.len() >= 1,
    ensures
        has_banned_suffix(banned, window_of(s, window_len(banned)) + t) == has_banned_suffix(
            banned,
            s + t,
        ),
{
    let w = window_len(banned);
    let win = window_of(s, w);
    if s.len() <= w {
        assert(win + t =~= s + t);
    } else {
        assert forall|k: int| 0 <= k < banned.len() implies ends_with(win + t, banned[k])
            == ends_with(s + t, banned[k]) by {
            let b = banned[k];
            lemma_max_len_bound(banned, k);
            if b.len() <= win.len() + t.len() {
                assert((win + t).subrange(
                    win.len() + t.len() - b.len(),
                    (win.len() + t.len()) as int,
                ) =~= (s + t).subrange(s.len() + t.len() - b.len(), (s.len() + t.len()) as int));
            }
        }
    }
}

/// Sliding the window forward commutes with appending: the window of the
/// grown history can be computed from the old window and the new part.
pub proof fn lemma_window_slide(s: Seq<char>, t: Seq<char>, w: nat)
    ensures
        window_of(window_of(s, w) + t, w) == window_of(s + t, w),
{
    let win = window_of(s, w);
    if s.len() <= w {
        assert(win + t =~= s + t);
    } else {
        assert(win.len() == w);
        assert(window_of(win + t, w) =~= window_of(s + t, w));
    }
}

} // verus!
