//! The grader's pick from one portion. Every entry sits in a slot; taking an
//! entry empties its slot, so that no entry is processed twice.

use vstd::prelude::*;
use crate::error::GraderError;
use crate::model::UserSubmission;

verus! {

/// The names shown to the grader, one per entry, in order.
pub open spec fn names_of(entries: Seq<UserSubmission>) -> Seq<Seq<char>> {
    entries.map_values(|entry: UserSubmission| entry.sort_key())
}

/// Lists the display name of every entry of a portion, in order.
pub fn display_names(entries: &Vec<UserSubmission>) -> (names: Vec<String>)
    ensures
        names@.map_values(|name: String| name@) == names_of(entries@),
{
    let mut names: Vec<String> = Vec::new();
    let mut i: usize = 0;
    while i < entries.len()
        invariant
            i <= entries@.len(),
            names@.len() == i,
            forall|k: int| 0 <= k < i ==> (#[trigger] names@[k])@ == entries@[k].sort_key(),
        decreases entries@.len() - i,
    {
        names.push(entries[i].user_profile.sortable_name.clone());
        i = i + 1;
    }
    assert(names@.map_values(|name: String| name@) =~= names_of(entries@));
    names
}

/// The marks the prompt starts with: every entry is selected, and the grader
/// opts out of the ones to skip.
pub fn preselected(count: usize) -> (marks: Vec<bool>)
    ensures
        marks@ == Seq::new(count as nat, |i: int| true),
{
    let mut marks: Vec<bool> = Vec::new();
    let mut i: usize = 0;
    while i < count
        invariant
            i <= count,
            marks@ == Seq::new(i as nat, |k: int| true),
        decreases count - i,
    {
        marks.push(true);
        i = i + 1;
        assert(marks@ =~= Seq::new(i as nat, |k: int| true));
    }
    marks
}

/// What taking the slot `index` yields: the entry in it, or an invalid
/// selection if there is no such slot or the slot is empty.
pub open spec fn take_result(slots: Seq<Option<UserSubmission>>, index: int) -> Result<
    UserSubmission,
    GraderError,
> {
    if 0 <= index < slots.len() && slots[index] is Some {
        Ok(slots[index]->0)
    } else {
        Err(GraderError::InvalidSelection)
    }
}

/// The slots after taking the slot `index`: that slot is empty.
pub open spec fn slots_after_take(slots: Seq<Option<UserSubmission>>, index: int) -> Seq<
    Option<UserSubmission>,
> {
    if 0 <= index < slots.len() {
        slots.update(index, None)
    } else {
        slots
    }
}

/// Taking the same slot a second time is an invalid selection, whatever the
/// first attempt gave and whatever was taken in between.
pub proof fn lemma_second_take_is_invalid(
    slots: Seq<Option<UserSubmission>>,
    index: int,
    between: Seq<int>,
)
    ensures
        take_result(slots_after_takes(slots_after_take(slots, index), between), index) == Err::<
            UserSubmission,
            GraderError,
        >(GraderError::InvalidSelection),
{
    lemma_taken_stays_empty(slots_after_take(slots, index), between, index);
}

/// The slots after taking each slot of `indices` in turn.
pub open spec fn slots_after_takes(slots: Seq<Option<UserSubmission>>, indices: Seq<int>) -> Seq<
    Option<UserSubmission>,
>
    decreases indices.len(),
{
    if indices.len() == 0 {
        slots
    } else {
        slots_after_take(slots_after_takes(slots, indices.drop_last()), indices.last())
    }
}

proof fn lemma_taken_stays_empty(slots: Seq<Option<UserSubmission>>, indices: Seq<int>, index: int)
    requires
        !(0 <= index < slots.len()) || slots[index] is None,
    ensures
        slots_after_takes(slots, indices).len() == slots.len(),
        !(0 <= index < slots.len()) || slots_after_takes(slots, indices)[index] is None,
    decreases indices.len(),
{
    if indices.len() > 0 {
        lemma_taken_stays_empty(slots, indices.drop_last(), index);
    }
}

/// The entries of one portion, each in a slot of its own.
pub struct Selection {
    slots: Vec<Option<UserSubmission>>,
}

impl Selection {
    /// The slots in order: `Some` for an entry not yet taken.
    pub closed spec fn slots(&self) -> Seq<Option<UserSubmission>> {
        self.slots@
    }

    /// Puts every entry of a portion into a slot, in order.
    pub fn new(entries: Vec<UserSubmission>) -> (selection: Selection)
        ensures
            selection.slots() == entries@.map_values(|entry: UserSubmission| Some(entry)),
    {
        let mut slots: Vec<Option<UserSubmission>> = Vec::new();
        for entry in it: entries
            invariant
                it.seq() == entries@,
                slots@.len() == it.index(),
                forall|k: int| 0 <= k < it.index() ==> #[trigger] slots@[k] == Some(entries@[k]),
        {
            slots.push(Some(entry));
        }
        assert(slots@ =~= entries@.map_values(|entry: UserSubmission| Some(entry)));
        Selection { slots }
    }

    /// The number of slots.
    pub fn len(&self) -> (n: usize)
        ensures
            n == self.slots().len(),
    {
        self.slots.len()
    }

    /// Tells whether the slot `index` still holds its entry.
    pub fn is_available(&self, index: usize) -> (available: bool)
        ensures
            available == take_result(self.slots(), index as int) is Ok,
    {
        index < self.slots.len() && self.slots[index].is_some()
    }

    /// Takes the entry out of the slot `index` and leaves the slot empty. An
    /// index past the end, or a slot taken before, is an invalid selection.
    pub fn take(&mut self, index: usize) -> (result: Result<UserSubmission, GraderError>)
        ensures
            result == take_result(old(self).slots(), index as int),
            final(self).slots() == slots_after_take(old(self).slots(), index as int),
    {
        if index >= self.slots.len() {
            return Err(GraderError::InvalidSelection);
        }
        let mut held: Option<UserSubmission> = None;
        std::mem::swap(&mut self.slots[index], &mut held);
        match held {
            Some(entry) => Ok(entry),
            None => {
                assert(self.slots@ =~= old(self).slots@);
                Err(GraderError::InvalidSelection)
            },
        }
    }
}

} // verus!
