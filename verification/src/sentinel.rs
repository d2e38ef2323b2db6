//! Sequences whose logical end is marked by a sentinel element instead of a
//! stored length.
use vstd::prelude::*;

verus! {

/// The run of `s` ends at `n`: no element before `n` is a sentinel, and `n` is
/// either the place of a sentinel or, where `s` holds none, the length of `s`.
pub open spec fn ends_at<T>(s: Seq<T>, stop: spec_fn(T) -> bool, n: int) -> bool {
    &&& 0 <= n <= s.len()
    &&& forall|j: int| 0 <= j < n ==> !stop(#[trigger] s[j])
    &&& n < s.len() ==> stop(s[n])
}

/// How many elements stand before the first sentinel of `s`.
pub open spec fn run_len<T>(s: Seq<T>, stop: spec_fn(T) -> bool) -> int {
    choose|n: int| ends_at(s, stop, n)
}

/// The elements of `s` before its first sentinel.
pub open spec fn run<T>(s: Seq<T>, stop: spec_fn(T) -> bool) -> Seq<T> {
    s.take(run_len(s, stop))
}

/// Behind a first element that is no sentinel, the run ends one place
/// further than the run of the rest.
proof fn lemma_ends_behind_first<T>(s: Seq<T>, stop: spec_fn(T) -> bool, m: int)
    requires
        s.len() > 0,
        !stop(s[0]),
        ends_at(s.drop_first(), stop, m),
    ensures
        ends_at(s, stop, m + 1),
{
    let rest = s.drop_first();
    assert forall|j: int| 0 <= j < m + 1 implies !stop(#[trigger] s[j]) by {
        if j > 0 {
            assert(s[j] == rest[j - 1]);
        }
    }
    if m + 1 < s.len() {
        assert(s[m + 1] == rest[m]);
    }
}

/// Every sequence has a place where its run ends.
pub proof fn lemma_run_ends<T>(s: Seq<T>, stop: spec_fn(T) -> bool)
    ensures
        ends_at(s, stop, run_len(s, stop)),
    decreases s.len(),
{
    if s.len() == 0 || stop(s[0]) {
        assert(ends_at(s, stop, 0));
    } else {
        lemma_run_ends(s.drop_first(), stop);
        lemma_ends_behind_first(s, stop, run_len(s.drop_first(), stop));
    }
}

/// The place where a run ends is unique.
pub proof fn lemma_run_len_is<T>(s: Seq<T>, stop: spec_fn(T) -> bool, n: int)
    requires
        ends_at(s, stop, n),
    ensures
        run_len(s, stop) == n,
{
    let m = run_len(s, stop);
    if m < n {
        assert(!stop(s[m]));
    } else if n < m {
        assert(!stop(s[n]));
    }
}

/// A sequence that starts with a sentinel has an empty run; one that starts
/// with another element has that element, then the run of the rest.
pub proof fn lemma_run_step<T>(s: Seq<T>, stop: spec_fn(T) -> bool)
    ensures
        s.len() == 0 || stop(s[0]) ==> run(s, stop) == Seq::<T>::empty(),
        s.len() > 0 && !stop(s[0]) ==> run(s, stop) == seq![s[0]] + run(s.drop_first(), stop),
{
    if s.len() == 0 || stop(s[0]) {
        assert(ends_at(s, stop, 0));
        lemma_run_len_is(s, stop, 0);
    } else {
        let rest = s.drop_first();
        lemma_run_ends(rest, stop);
        lemma_ends_behind_first(s, stop, run_len(rest, stop));
        lemma_run_len_is(s, stop, run_len(rest, stop) + 1);
        assert(run(s, stop) =~= seq![s[0]] + run(rest, stop));
    }
}

} // verus!
