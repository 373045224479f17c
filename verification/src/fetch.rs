//! Resolving one user profile per submission. The requests run concurrently
//! and complete in any order; what comes out is in the order of the
//! submissions, or the failure that stands first in that order.

use vstd::prelude::*;
use crate::error::GraderError;
use crate::model::{Submission, UserProfile, UserSubmission};

verus! {

/// Every outcome is a success.
pub open spec fn all_ok<T, E>(outcomes: Seq<Result<T, E>>) -> bool {
    forall|i: int| 0 <= i < outcomes.len() ==> (#[trigger] outcomes[i]) is Ok
}

/// The outcome at `at` is a failure and none before it is.
pub open spec fn is_first_failure<T, E>(outcomes: Seq<Result<T, E>>, at: int) -> bool {
    &&& 0 <= at < outcomes.len()
    &&& outcomes[at] is Err
    &&& forall|k: int| 0 <= k < at ==> (#[trigger] outcomes[k]) is Ok
}

/// `result` is what a fail-fast collection of `outcomes` yields: every value
/// in its place if all succeeded, else the failure that stands first.
pub open spec fn collected<T, E>(outcomes: Seq<Result<T, E>>, result: Result<Vec<T>, E>) -> bool {
    match result {
        Ok(values) => {
            &&& all_ok(outcomes)
            &&& values@.len() == outcomes.len()
            &&& forall|i: int|
                #![trigger outcomes[i]]
                #![trigger values@[i]]
                0 <= i < outcomes.len() ==> outcomes[i] == Ok::<T, E>(values@[i])
        },
        Err(failure) => exists|at: int|
            is_first_failure(outcomes, at) && outcomes[at] == Err::<T, E>(failure),
    }
}

/// Turns the outcomes of a batch of requests into the batch's result: all
/// values in the order given, or the first failure in that order.
pub fn collect_in_order<T, E>(outcomes: Vec<Result<T, E>>) -> (result: Result<Vec<T>, E>)
    ensures
        collected(outcomes@, result),
{
    let mut values: Vec<T> = Vec::new();
    for outcome in it: outcomes
        invariant
            it.seq() == outcomes@,
            values@.len() == it.index(),
            forall|i: int|
                #![trigger outcomes@[i]]
                #![trigger values@[i]]
                0 <= i < it.index() ==> outcomes@[i] == Ok::<T, E>(values@[i]),
    {
        match outcome {
            Ok(value) => {
                values.push(value);
            },
            Err(failure) => {
                assert(outcomes@[it.index() as int] == Err::<T, E>(failure));
                assert(is_first_failure(outcomes@, it.index() as int));
                return Err(failure);
            },
        }
    }
    Ok(values)
}

/// The user ids of the submissions, in order.
pub open spec fn ids_of(submissions: Seq<Submission>) -> Seq<usize> {
    submissions.map_values(|s: Submission| s.user_id->0)
}

/// Some submission lacks an owning user.
pub open spec fn lacks_user_id(submissions: Seq<Submission>) -> bool {
    exists|i: int| 0 <= i < submissions.len() && (#[trigger] submissions[i]).user_id is None
}

/// Reads the owning user of every submission. A submission without one fails
/// the whole batch with `MissingUserId`.
pub fn user_ids(submissions: &Vec<Submission>) -> (result: Result<Vec<usize>, GraderError>)
    ensures
        lacks_user_id(submissions@) <==> result is Err,
        result matches Err(e) ==> e == GraderError::MissingUserId,
        result matches Ok(ids) ==> ids@ == ids_of(submissions@),
{
    let mut ids: Vec<usize> = Vec::new();
    let mut i: usize = 0;
    while i < submissions.len()
        invariant
            i <= submissions@.len(),
            ids@.len() == i,
            forall|k: int|
                #![trigger submissions@[k]]
                #![trigger ids@[k]]
                0 <= k < i ==> submissions@[k].user_id == Some(ids@[k]),
        decreases submissions@.len() - i,
    {
        match submissions[i].user_id {
            Some(id) => {
                ids.push(id);
            },
            None => {
                assert(submissions@[i as int].user_id is None);
                return Err(GraderError::MissingUserId);
            },
        }
        i = i + 1;
    }
    assert(ids@ =~= ids_of(submissions@));
    Ok(ids)
}

/// A buffer with one slot per request, keyed by the position of the request
/// in the batch. Completions are recorded as they arrive.
pub struct OrderedFetcher<T, E> {
    ids: Vec<usize>,
    slots: Vec<Option<Result<T, E>>>,
}

/// What recording a completion does to the slots: it fills the slot at
/// `position` if there is one and it is empty, and changes nothing otherwise.
pub open spec fn record_into<R>(slots: Seq<Option<R>>, position: int, outcome: R) -> Seq<Option<R>> {
    if 0 <= position < slots.len() && slots[position] is None {
        slots.update(position, Some(outcome))
    } else {
        slots
    }
}

/// The slots after a run of completions, recorded in the order they arrived.
pub open spec fn replay<R>(slots: Seq<Option<R>>, completions: Seq<(int, R)>) -> Seq<Option<R>>
    decreases completions.len(),
{
    if completions.len() == 0 {
        slots
    } else {
        let earlier = replay(slots, completions.drop_last());
        record_into(earlier, completions.last().0, completions.last().1)
    }
}

/// No slot is empty.
pub open spec fn all_filled<R>(slots: Seq<Option<R>>) -> bool {
    forall|i: int| 0 <= i < slots.len() ==> (#[trigger] slots[i]) is Some
}

impl<T, E> OrderedFetcher<T, E> {
    #[verifier::type_invariant]
    spec fn well_formed(&self) -> bool {
        self.ids@.len() == self.slots@.len()
    }

    /// The user ids to resolve, in the order of the submissions.
    pub closed spec fn ids(&self) -> Seq<usize> {
        self.ids@
    }

    /// The outcome recorded for each position, `None` while outstanding.
    pub closed spec fn slots(&self) -> Seq<Option<Result<T, E>>> {
        self.slots@
    }

    /// The outcomes by position, once every request has completed.
    pub open spec fn outcomes(&self) -> Seq<Result<T, E>> {
        self.slots().map_values(|slot: Option<Result<T, E>>| slot->0)
    }

    /// Starts a batch: one empty slot per id.
    pub fn new(ids: Vec<usize>) -> (fetcher: Self)
        ensures
            fetcher.ids() == ids@,
            fetcher.slots() == Seq::new(ids@.len(), |i: int| None::<Result<T, E>>),
    {
        let mut slots: Vec<Option<Result<T, E>>> = Vec::new();
        let mut i: usize = 0;
        while i < ids.len()
            invariant
                i <= ids@.len(),
                slots@ == Seq::new(i as nat, |k: int| None::<Result<T, E>>),
            decreases ids@.len() - i,
        {
            slots.push(None);
            i = i + 1;
            assert(slots@ =~= Seq::new(i as nat, |k: int| None::<Result<T, E>>));
        }
        OrderedFetcher { ids, slots }
    }

    /// The number of requests in the batch.
    pub fn len(&self) -> (n: usize)
        ensures
            n == self.ids().len(),
            n == self.slots().len(),
    {
        proof {
            use_type_invariant(self);
        }
        self.ids.len()
    }

    /// The id to ask the service for at `position`; `None` past the end.
    pub fn request(&self, position: usize) -> (id: Option<usize>)
        ensures
            position < self.ids().len() ==> id == Some(self.ids()[position as int]),
            position >= self.ids().len() ==> id is None,
    {
        if position < self.ids.len() {
            Some(self.ids[position])
        } else {
            None
        }
    }

    /// Records the outcome of the request at `position`. Returns whether it
    /// was accepted: a position past the end, or one already recorded, is
    /// refused and changes nothing.
    pub fn record(&mut self, position: usize, outcome: Result<T, E>) -> (accepted: bool)
        ensures
            accepted <==> position < old(self).slots().len() && old(self).slots()[position as int] is None,
            final(self).slots() == record_into(old(self).slots(), position as int, outcome),
            final(self).ids() == old(self).ids(),
    {
        proof {
            use_type_invariant(&*self);
        }
        if position < self.slots.len() && self.slots[position].is_none() {
            let mut held = Some(outcome);
            std::mem::swap(&mut self.slots[position], &mut held);
            true
        } else {
            false
        }
    }

    /// Tells whether every request has completed.
    pub fn is_complete(&self) -> (complete: bool)
        ensures
            complete == all_filled(self.slots()),
    {
        let mut i: usize = 0;
        while i < self.slots.len()
            invariant
                i <= self.slots@.len(),
                forall|k: int| 0 <= k < i ==> (#[trigger] self.slots@[k]) is Some,
            decreases self.slots@.len() - i,
        {
            if self.slots[i].is_none() {
                return false;
            }
            i = i + 1;
        }
        true
    }

    /// Ends the batch. `None` while a request is outstanding; else the
    /// profiles in the order of the ids, or the failure that stands first in
    /// that order.
    pub fn finish(self) -> (result: Option<Result<Vec<T>, E>>)
        ensures
            result is Some <==> all_filled(self.slots()),
            result matches Some(r) ==> collected(self.outcomes(), r),
    {
        let ghost slots = self.slots();
        let mut outcomes: Vec<Result<T, E>> = Vec::new();
        for slot in it: self.slots
            invariant
                it.seq() == slots,
                outcomes@.len() == it.index(),
                forall|k: int|
                    #![trigger slots[k]]
                    #![trigger outcomes@[k]]
                    0 <= k < it.index() ==> slots[k] == Some(outcomes@[k]),
        {
            match slot {
                Some(outcome) => {
                    outcomes.push(outcome);
                },
                None => {
                    assert(slots[it.index() as int] is None);
                    return None;
                },
            }
        }
        assert(outcomes@ =~= self.outcomes());
        Some(collect_in_order(outcomes))
    }
}

/// The completions of a batch, in the order `order` names the positions:
/// each carries the service's answer to the id at its position.
pub open spec fn completions_in<R>(ids: Seq<usize>, answer: spec_fn(usize) -> R, order: Seq<int>) -> Seq<(int, R)> {
    order.map_values(|position: int| (position, answer(ids[position])))
}

/// The position `p` is among the first `k` of `order`.
pub open spec fn completed_within(order: Seq<int>, k: int, p: int) -> bool {
    exists|j: int| 0 <= j < k && j < order.len() && order[j] == p
}

proof fn lemma_replay_prefix<R>(ids: Seq<usize>, answer: spec_fn(usize) -> R, order: Seq<int>, k: int)
    requires
        0 <= k <= order.len(),
        forall|j: int| 0 <= j < order.len() ==> 0 <= #[trigger] order[j] < ids.len(),
        forall|i: int, j: int| 0 <= i < j < order.len() ==> order[i] != order[j],
    ensures
        ({
            let slots = replay(
                Seq::new(ids.len(), |i: int| None::<R>),
                completions_in(ids, answer, order).take(k),
            );
            &&& slots.len() == ids.len()
            &&& forall|p: int|
                0 <= p < ids.len() ==> #[trigger] slots[p] == if completed_within(order, k, p) {
                    Some(answer(ids[p]))
                } else {
                    None
                }
        }),
    decreases k,
{
    let empty = Seq::new(ids.len(), |i: int| None::<R>);
    let completions = completions_in(ids, answer, order);
    if k > 0 {
        lemma_replay_prefix(ids, answer, order, k - 1);
        let earlier = replay(empty, completions.take(k - 1));
        let position = order[k - 1];
        assert(completions.take(k).drop_last() =~= completions.take(k - 1));
        assert(completions.take(k).last() == (position, answer(ids[position])));
        assert(!completed_within(order, k - 1, position));
        let slots = replay(empty, completions.take(k));
        assert(slots == earlier.update(position, Some(answer(ids[position]))));
        assert forall|p: int| 0 <= p < ids.len() implies #[trigger] slots[p] == if completed_within(
            order,
            k,
            p,
        ) {
            Some(answer(ids[p]))
        } else {
            None
        } by {
            if p == position {
                assert(completed_within(order, k, p));
            } else if completed_within(order, k - 1, p) {
                assert(completed_within(order, k, p));
            } else {
                assert(!completed_within(order, k, p));
            }
        }
    }
}

/// Order preservation. Let the requests of a batch complete in any order,
/// each position once: the slot at every position then holds the answer to
/// the id at that position, so the profiles come out in the order of the ids.
pub proof fn lemma_order_preserved<R>(ids: Seq<usize>, answer: spec_fn(usize) -> R, order: Seq<int>)
    requires
        forall|j: int| 0 <= j < order.len() ==> 0 <= #[trigger] order[j] < ids.len(),
        forall|i: int, j: int| 0 <= i < j < order.len() ==> order[i] != order[j],
        forall|p: int| 0 <= p < ids.len() ==> completed_within(order, order.len() as int, p),
    ensures
        replay(Seq::new(ids.len(), |i: int| None::<R>), completions_in(ids, answer, order))
            == ids.map_values(|id: usize| Some(answer(id))),
{
    lemma_replay_prefix(ids, answer, order, order.len() as int);
    let completions = completions_in(ids, answer, order);
    assert(completions.take(order.len() as int) =~= completions);
    assert(replay(Seq::new(ids.len(), |i: int| None::<R>), completions) =~= ids.map_values(
        |id: usize| Some(answer(id)),
    ));
}

/// Pairs each submission with the profile at the same position. The roster
/// is as long as the shorter of the two.
pub fn pair_roster(submissions: Vec<Submission>, profiles: Vec<UserProfile>) -> (roster: Vec<UserSubmission>)
    ensures
        roster@.len() == if submissions@.len() <= profiles@.len() { submissions@.len() } else { profiles@.len() },
        forall|i: int| 0 <= i < roster@.len() ==> (#[trigger] roster@[i]) == (UserSubmission {
            user_profile: profiles@[i],
            submission: submissions@[i],
        }),
{
    let ghost wanted = profiles@;
    let mut stack = profiles;
    let mut waiting: Vec<UserProfile> = Vec::new();
    while stack.len() > 0
        invariant
            stack@.len() + waiting@.len() == wanted.len(),
            forall|k: int| 0 <= k < stack@.len() ==> stack@[k] == wanted[k],
            forall|k: int| 0 <= k < waiting@.len() ==> waiting@[k] == wanted[wanted.len() - 1 - k],
        decreases stack@.len(),
    {
        match stack.pop() {
            Some(profile) => {
                waiting.push(profile);
            },
            None => {},
        }
    }
    let mut roster: Vec<UserSubmission> = Vec::new();
    for submission in it: submissions
        invariant
            it.seq() == submissions@,
            wanted == profiles@,
            it.index() <= wanted.len(),
            roster@.len() == it.index(),
            waiting@.len() == wanted.len() - it.index(),
            forall|k: int| 0 <= k < waiting@.len() ==> waiting@[k] == wanted[wanted.len() - 1 - k],
            forall|i: int| 0 <= i < roster@.len() ==> (#[trigger] roster@[i]) == (UserSubmission {
                user_profile: wanted[i],
                submission: submissions@[i],
            }),
    {
        match waiting.pop() {
            Some(user_profile) => {
                roster.push(UserSubmission { user_profile, submission });
            },
            None => {
                return roster;
            },
        }
    }
    roster
}

} // verus!
