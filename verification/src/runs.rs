//! Runs: stretches of a sequence on which a condition holds without a break.
use vstd::prelude::*;

verus! {

/// Whether the `n` flags from `start` on are all set.
pub open spec fn is_run(flags: Seq<bool>, start: int, n: int) -> bool {
    &&& 0 <= start
    &&& 0 <= n
    &&& start + n <= flags.len()
    &&& forall|i: int| start <= i < start + n ==> #[trigger] flags[i]
}

/// Whether `n` flags in a row are set somewhere.
pub open spec fn has_run(flags: Seq<bool>, n: int) -> bool {
    exists|start: int| #[trigger] is_run(flags, start, n)
}

/// The number of flags in a row that are set at the end.
pub open spec fn trailing_run(flags: Seq<bool>) -> int
    decreases flags.len(),
{
    if flags.len() > 0 && flags.last() {
        trailing_run(flags.drop_last()) + 1
    } else {
        0
    }
}

/// The largest number of flags in a row that are set.
pub open spec fn longest_run(flags: Seq<bool>) -> int
    decreases flags.len(),
{
    if flags.len() == 0 {
        0
    } else if trailing_run(flags) > longest_run(flags.drop_last()) {
        trailing_run(flags)
    } else {
        longest_run(flags.drop_last())
    }
}

/// The number of flags that are set.
pub open spec fn count_set(flags: Seq<bool>) -> int
    decreases flags.len(),
{
    if flags.len() == 0 {
        0
    } else {
        count_set(flags.drop_last()) + if flags.last() {
            1int
        } else {
            0int
        }
    }
}

/// The trailing run is a run, and no run that reaches the end is longer.
pub proof fn lemma_trailing_run(flags: Seq<bool>)
    ensures
        is_run(flags, flags.len() - trailing_run(flags), trailing_run(flags)),
        forall|start: int, n: int| #[trigger]
            is_run(flags, start, n) && start + n == flags.len() ==> n <= trailing_run(flags),
    decreases flags.len(),
{
    if flags.len() > 0 && flags.last() {
        let rest = flags.drop_last();
        lemma_trailing_run(rest);
        assert forall|start: int, n: int| #[trigger]
            is_run(flags, start, n) && start + n == flags.len() implies n <= trailing_run(
            flags,
        ) by {
            if n > 0 {
                assert(is_run(rest, start, n - 1)) by {
                    assert forall|i: int| start <= i < start + n - 1 implies #[trigger] rest[i] by {
                        assert(flags[i]);
                    }
                }
            }
        }
        let t = trailing_run(flags);
        assert forall|i: int| flags.len() - t <= i < flags.len() implies #[trigger] flags[i] by {
            if i < rest.len() {
                assert(rest[i]);
            }
        }
    } else if flags.len() > 0 {
        assert forall|start: int, n: int| #[trigger]
            is_run(flags, start, n) && start + n == flags.len() implies n <= 0 by {
            if n > 0 {
                assert(flags[flags.len() - 1]);
            }
        }
    }
}

/// A run lies in all flags but the last, or reaches the end.
pub proof fn lemma_has_run_step(flags: Seq<bool>, n: int)
    requires
        flags.len() > 0,
        n >= 1,
    ensures
        has_run(flags, n) <==> has_run(flags.drop_last(), n) || trailing_run(flags) >= n,
{
    let rest = flags.drop_last();
    lemma_trailing_run(flags);
    if has_run(flags, n) {
        let start = choose|start: int| is_run(flags, start, n);
        if start + n < flags.len() {
            assert(is_run(rest, start, n)) by {
                assert forall|i: int| start <= i < start + n implies #[trigger] rest[i] by {
                    assert(flags[i]);
                }
            }
        } else {
            assert(start == flags.len() - n);
        }
    }
    if has_run(rest, n) {
        let start = choose|start: int| is_run(rest, start, n);
        assert(is_run(flags, start, n)) by {
            assert forall|i: int| start <= i < start + n implies #[trigger] flags[i] by {
                assert(rest[i]);
            }
        }
    }
    if trailing_run(flags) >= n {
        assert(is_run(flags, flags.len() - n, n)) by {
            assert forall|i: int| flags.len() - n <= i < flags.len() implies #[trigger] flags[i] by {
                assert(is_run(flags, flags.len() - trailing_run(flags), trailing_run(flags)));
            }
        }
    }
}

/// The longest run is a run, and none is longer.
pub proof fn law_longest_run(flags: Seq<bool>)
    ensures
        has_run(flags, longest_run(flags)),
        forall|n: int| has_run(flags, n) ==> n <= longest_run(flags),
    decreases flags.len(),
{
    if flags.len() == 0 {
        assert(is_run(flags, 0, 0));
        assert forall|n: int| has_run(flags, n) implies n <= 0 by {
            let start = choose|start: int| is_run(flags, start, n);
        }
    } else {
        let rest = flags.drop_last();
        law_longest_run(rest);
        lemma_trailing_run(flags);
        let longest = longest_run(flags);
        if longest == 0 {
            assert(is_run(flags, 0, 0));
        } else {
            lemma_has_run_step(flags, longest);
        }
        assert forall|n: int| has_run(flags, n) implies n <= longest by {
            if n >= 1 {
                lemma_has_run_step(flags, n);
            }
        }
    }
}

/// The runs of a sequence are no longer than the number of flags that are set, nor is that number
/// larger than the number of all flags; with any flag set, the longest run is not empty.
pub proof fn law_run_lengths(flags: Seq<bool>)
    ensures
        0 <= trailing_run(flags) <= longest_run(flags) <= count_set(flags) <= flags.len(),
        count_set(flags) > 0 ==> longest_run(flags) > 0,
    decreases flags.len(),
{
    lemma_trailing_run(flags);
    lemma_trailing_run_is_short(flags);
    if flags.len() > 0 {
        law_run_lengths(flags.drop_last());
    }
}

proof fn lemma_trailing_run_is_short(flags: Seq<bool>)
    ensures
        0 <= trailing_run(flags) <= count_set(flags),
        0 <= count_set(flags),
    decreases flags.len(),
{
    if flags.len() > 0 {
        lemma_trailing_run_is_short(flags.drop_last());
    }
}

/// The number of flags that are set is that of the places at which one is set.
pub proof fn law_count_is_of_set_flags(flags: Seq<bool>)
    ensures
        count_set(flags) == flags.filter(|flag: bool| flag).len(),
    decreases flags.len(),
{
    reveal(Seq::filter);
    if flags.len() > 0 {
        law_count_is_of_set_flags(flags.drop_last());
    }
}

/// The run at the end is as long as possible: all of its flags are set, and the one before it, if
/// there is one, is not.
pub proof fn law_trailing_run_is_whole(flags: Seq<bool>)
    ensures
        0 <= trailing_run(flags) <= flags.len(),
        forall|i: int| flags.len() - trailing_run(flags) <= i < flags.len() ==> #[trigger] flags[i],
        trailing_run(flags) < flags.len() ==> !flags[flags.len() - trailing_run(flags) - 1],
    decreases flags.len(),
{
    lemma_trailing_run(flags);
    if flags.len() > 0 && flags.last() {
        let rest = flags.drop_last();
        law_trailing_run_is_whole(rest);
        if trailing_run(flags) < flags.len() {
            assert(flags[flags.len() - trailing_run(flags) - 1] == rest[rest.len()
                - trailing_run(rest) - 1]);
        }
    }
}

} // verus!
