use crate::reader::{next_state, opened_from, step_of, ReadDir, Step};
use vstd::prelude::*;

verus! {

/// The steps a reader in state `s` takes when handed `slots` one by one.
pub open spec fn steps_of<H, T, E>(s: ReadDir<H>, slots: Seq<Option<Result<T, E>>>) -> Seq<
    Step<T>,
>
    decreases slots.len(),
{
    if slots.len() == 0 {
        Seq::empty()
    } else {
        seq![step_of(s, slots[0])] + steps_of(next_state(s, slots[0]), slots.drop_first())
    }
}

/// The state a reader in state `s` is left in when handed `slots` one by one.
pub open spec fn state_after<H, T, E>(s: ReadDir<H>, slots: Seq<Option<Result<T, E>>>) -> ReadDir<
    H,
>
    decreases slots.len(),
{
    if slots.len() == 0 {
        s
    } else {
        state_after(next_state(s, slots[0]), slots.drop_first())
    }
}

/// The entries that `steps` hand to the caller, in order.
pub open spec fn yielded<T>(steps: Seq<Step<T>>) -> Seq<T>
    decreases steps.len(),
{
    if steps.len() == 0 {
        Seq::empty()
    } else {
        match steps[0] {
            Step::Entry(e) => seq![e] + yielded(steps.drop_first()),
            _ => yielded(steps.drop_first()),
        }
    }
}

/// The entries of a raw listing that could be read, in order.
pub open spec fn readable<T, E>(listing: Seq<Result<T, E>>) -> Seq<T>
    decreases listing.len(),
{
    if listing.len() == 0 {
        Seq::empty()
    } else {
        match listing[0] {
            Ok(e) => seq![e] + readable(listing.drop_first()),
            Err(_) => readable(listing.drop_first()),
        }
    }
}

/// The slots a listing handle reports for `listing`: each raw slot, then the
/// end of the listing.
pub open spec fn slots_of<T, E>(listing: Seq<Result<T, E>>) -> Seq<Option<Result<T, E>>> {
    listing.map_values(|r: Result<T, E>| Some(r)).push(None)
}

/// Draining an opened reader yields exactly the readable entries of the
/// listing, in the order the handle reported them: an unreadable slot is
/// skipped and does not end the sequence. The last step ends it, and the
/// reader is then failed.
pub proof fn lemma_skips_unreadable<H, T, E>(h: H, listing: Seq<Result<T, E>>)
    ensures
        yielded(steps_of(ReadDir::Opened(h), slots_of(listing))) == readable(listing),
        steps_of(ReadDir::Opened(h), slots_of(listing)).last() == Step::<T>::End,
        state_after(ReadDir::<H>::Opened(h), slots_of(listing)) == ReadDir::<H>::Failed,
    decreases listing.len(),
{
    let slots = slots_of(listing);
    let s = ReadDir::<H>::Opened(h);
    if listing.len() == 0 {
        assert(slots =~= seq![None]);
        assert(steps_of(next_state(s, slots[0]), slots.drop_first()) =~= Seq::<Step<T>>::empty());
        assert(steps_of(s, slots) =~= seq![Step::<T>::End]);
        assert(yielded(steps_of(s, slots).drop_first()) =~= Seq::<T>::empty());
        assert(slots.drop_first() =~= Seq::<Option<Result<T, E>>>::empty());
        assert(state_after(ReadDir::<H>::Failed, slots.drop_first()) == ReadDir::<H>::Failed);
    } else {
        let rest = listing.drop_first();
        lemma_skips_unreadable::<H, T, E>(h, rest);
        assert(slots.drop_first() =~= slots_of(rest));
        assert(next_state(s, slots[0]) == s);
        let tail = steps_of(s, slots_of(rest));
        assert(steps_of(s, slots) == seq![step_of(s, slots[0])] + tail);
        assert((seq![step_of(s, slots[0])] + tail).drop_first() =~= tail);
    }
}

/// Where no slot of the listing is unreadable, draining an opened reader
/// yields the whole raw listing: the same entries, in the same order, and so
/// the same set of entries.
pub proof fn lemma_full_listing_yields_all<H, T, E>(h: H, listing: Seq<Result<T, E>>)
    requires
        forall|i: int| 0 <= i < listing.len() ==> (#[trigger] listing[i]) is Ok,
    ensures
        yielded(steps_of(ReadDir::Opened(h), slots_of(listing))) == listing.map_values(
            |r: Result<T, E>| r->Ok_0,
        ),
        yielded(steps_of(ReadDir::Opened(h), slots_of(listing))).to_set() == listing.map_values(
            |r: Result<T, E>| r->Ok_0,
        ).to_set(),
{
    lemma_skips_unreadable::<H, T, E>(h, listing);
    lemma_readable_all_ok(listing);
}

proof fn lemma_readable_all_ok<T, E>(listing: Seq<Result<T, E>>)
    requires
        forall|i: int| 0 <= i < listing.len() ==> (#[trigger] listing[i]) is Ok,
    ensures
        readable(listing) == listing.map_values(|r: Result<T, E>| r->Ok_0),
    decreases listing.len(),
{
    if listing.len() > 0 {
        let rest = listing.drop_first();
        assert forall|i: int| 0 <= i < rest.len() implies (#[trigger] rest[i]) is Ok by {
            assert(rest[i] == listing[i + 1]);
        }
        lemma_readable_all_ok(rest);
        assert(listing[0] is Ok);
        assert(listing.map_values(|r: Result<T, E>| r->Ok_0) =~= seq![listing[0]->Ok_0]
            + rest.map_values(|r: Result<T, E>| r->Ok_0));
    } else {
        assert(listing.map_values(|r: Result<T, E>| r->Ok_0) =~= Seq::<T>::empty());
    }
}

/// A reader whose open failed, for whatever reason, yields no entry and ends
/// at every step, whatever it is handed.
pub proof fn lemma_failed_open_yields_nothing<H, T, E>(err: E, slots: Seq<Option<Result<T, E>>>)
    ensures
        yielded(steps_of(opened_from::<H, E>(Err(err)), slots)).len() == 0,
        forall|i: int|
            0 <= i < slots.len() ==> #[trigger] steps_of(opened_from::<H, E>(Err(err)), slots)[i]
                == Step::<T>::End,
{
    lemma_failed_ends_always::<H, T, E>(slots);
}

proof fn lemma_failed_ends_always<H, T, E>(slots: Seq<Option<Result<T, E>>>)
    ensures
        yielded(steps_of(ReadDir::<H>::Failed, slots)).len() == 0,
        steps_of(ReadDir::<H>::Failed, slots).len() == slots.len(),
        forall|i: int|
            0 <= i < slots.len() ==> #[trigger] steps_of(ReadDir::<H>::Failed, slots)[i]
                == Step::<T>::End,
    decreases slots.len(),
{
    if slots.len() > 0 {
        let rest = slots.drop_first();
        lemma_failed_ends_always::<H, T, E>(rest);
        let steps = steps_of(ReadDir::<H>::Failed, slots);
        assert(next_state(ReadDir::<H>::Failed, slots[0]) == ReadDir::<H>::Failed);
        assert(steps.drop_first() =~= steps_of(ReadDir::<H>::Failed, rest));
        assert forall|i: int| 0 <= i < slots.len() implies #[trigger] steps[i] == Step::<T>::End by {
            if i > 0 {
                assert(steps[i] == steps.drop_first()[i - 1]);
            }
        }
    }
}

/// Once a reader has ended, it stays ended: it is failed, and every later
/// step ends again, whatever it is handed; no entry comes back.
pub proof fn lemma_end_is_final<H, T, E>(
    s: ReadDir<H>,
    slot: Option<Result<T, E>>,
    later: Seq<Option<Result<T, E>>>,
)
    requires
        step_of(s, slot) == Step::<T>::End,
    ensures
        next_state(s, slot) == ReadDir::<H>::Failed,
        yielded(steps_of(next_state(s, slot), later)).len() == 0,
        forall|i: int|
            0 <= i < later.len() ==> #[trigger] steps_of(next_state(s, slot), later)[i]
                == Step::<T>::End,
{
    lemma_failed_ends_always::<H, T, E>(later);
}

/// A reader never goes back: whatever it is handed, it is left either as it
/// was, with the same handle, or failed; and a failed reader stays failed.
/// Only a fresh open gives an opened reader again.
pub proof fn lemma_never_rewinds<H, T, E>(s: ReadDir<H>, slots: Seq<Option<Result<T, E>>>)
    ensures
        state_after(s, slots) == s || state_after(s, slots) == ReadDir::<H>::Failed,
        s == ReadDir::<H>::Failed ==> state_after(s, slots) == ReadDir::<H>::Failed,
    decreases slots.len(),
{
    if slots.len() > 0 {
        lemma_never_rewinds::<H, T, E>(next_state(s, slots[0]), slots.drop_first());
    }
}

} // verus!
