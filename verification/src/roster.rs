//! The roster: the paired entries sorted by sortable name, and its division
//! into contiguous portions, one per grader.

use vstd::prelude::*;
use crate::error::GraderError;
use crate::model::UserSubmission;
use crate::text::{
    lemma_lex_le_antisymmetric, lemma_lex_le_reflexive, lemma_lex_le_total, lemma_lex_le_transitive,
    lex_le, name_le,
};

verus! {

/// The names of `roster` ascend.
pub open spec fn is_sorted(roster: Seq<UserSubmission>) -> bool {
    forall|i: int, j: int|
        0 <= i < j < roster.len() ==> lex_le(
            (#[trigger] roster[i]).sort_key(),
            (#[trigger] roster[j]).sort_key(),
        )
}

/// `origin` tells, for each place of `sorted`, the place in `roster` its
/// entry came from: every place of `roster` is used, none twice, and entries
/// with the same name keep the order they had in `roster`.
pub open spec fn is_stable_rearrangement(
    roster: Seq<UserSubmission>,
    sorted: Seq<UserSubmission>,
    origin: Seq<int>,
) -> bool {
    &&& origin.len() == sorted.len()
    &&& sorted.len() == roster.len()
    &&& forall|i: int|
        0 <= i < origin.len() ==> 0 <= #[trigger] origin[i] < roster.len() && sorted[i]
            == roster[origin[i]]
    &&& forall|i: int, j: int|
        0 <= i < j < origin.len() ==> #[trigger] origin[i] != #[trigger] origin[j]
    &&& forall|place: int| 0 <= place < roster.len() ==> #[trigger] origin.contains(place)
    &&& forall|i: int, j: int|
        0 <= i < j < origin.len() && sorted[i].sort_key() == sorted[j].sort_key()
            ==> #[trigger] origin[i] < #[trigger] origin[j]
}

/// `sorted` is `roster` after a stable sort by ascending sortable name.
pub open spec fn is_stable_sort_of(roster: Seq<UserSubmission>, sorted: Seq<UserSubmission>) -> bool {
    is_sorted(sorted) && exists|origin: Seq<int>| is_stable_rearrangement(roster, sorted, origin)
}

/// Sorts the roster by ascending sortable name. Entries with the same name
/// keep their order.
pub fn sort_roster(roster: Vec<UserSubmission>) -> (sorted: Vec<UserSubmission>)
    ensures
        is_stable_sort_of(roster@, sorted@),
{
    let mut sorted: Vec<UserSubmission> = Vec::new();
    let ghost mut origin: Seq<int> = Seq::empty();
    for entry in it: roster
        invariant
            it.seq() == roster@,
            sorted@.len() == it.index(),
            origin.len() == it.index(),
            is_sorted(sorted@),
            forall|i: int|
                0 <= i < origin.len() ==> 0 <= #[trigger] origin[i] < it.index() && sorted@[i]
                    == roster@[origin[i]],
            forall|i: int, j: int|
                0 <= i < j < origin.len() ==> #[trigger] origin[i] != #[trigger] origin[j],
            forall|place: int| 0 <= place < it.index() ==> #[trigger] origin.contains(place),
            forall|i: int, j: int|
                0 <= i < j < origin.len() && sorted@[i].sort_key() == sorted@[j].sort_key()
                    ==> #[trigger] origin[i] < #[trigger] origin[j],
    {
        let ghost before = sorted@;
        let ghost before_origin = origin;
        let ghost key = entry.sort_key();
        let mut at: usize = sorted.len();
        while at > 0 && !name_le(
            sorted[at - 1].user_profile.sortable_name.as_str(),
            entry.user_profile.sortable_name.as_str(),
        )
            invariant
                at <= sorted@.len(),
                sorted@ == before,
                key == entry.sort_key(),
                forall|k: int| at <= k < before.len() ==> !lex_le((#[trigger] before[k]).sort_key(), key),
            decreases at,
        {
            at = at - 1;
        }
        proof {
            let place = at as int;
            assert forall|k: int| 0 <= k < place implies lex_le((#[trigger] before[k]).sort_key(), key) by {
                if k < place - 1 {
                    lemma_lex_le_transitive(before[k].sort_key(), before[place - 1].sort_key(), key);
                }
            }
            assert forall|k: int| place <= k < before.len() implies lex_le(key, (#[trigger] before[k]).sort_key()) by {
                lemma_lex_le_total(key, before[k].sort_key());
            }
            assert forall|k: int| place <= k < before.len() implies (#[trigger] before[k]).sort_key() != key by {
                lemma_lex_le_reflexive(key);
            }
            origin = before_origin.insert(place, it.index() as int);
        }
        sorted.insert(at, entry);
        proof {
            let place = at as int;
            let after = sorted@;
            assert(after.len() == before.len() + 1);
            assert(after[place] == entry);
            assert(origin[place] == it.index());
            assert forall|i: int| 0 <= i < place implies #[trigger] after[i] == before[i] && origin[i] == before_origin[i] by {}
            assert forall|i: int| place < i < after.len() implies #[trigger] after[i] == before[i - 1] && origin[i] == before_origin[i - 1] by {}
            assert forall|p: int| 0 <= p <= it.index() implies #[trigger] origin.contains(p) by {
                if p == it.index() {
                    assert(origin[place] == p);
                } else {
                    assert(before_origin.contains(p));
                    let i = choose|i: int| 0 <= i < before_origin.len() && before_origin[i] == p;
                    if i < place {
                        assert(origin[i] == p);
                    } else {
                        assert(origin[i + 1] == p);
                    }
                }
            }
            assert(is_sorted(after)) by {
                assert forall|i: int, j: int| 0 <= i < j < after.len() implies lex_le(
                    (#[trigger] after[i]).sort_key(),
                    (#[trigger] after[j]).sort_key(),
                ) by {
                    if j < place {
                        assert(after[i] == before[i] && after[j] == before[j]);
                    } else if j == place {
                        assert(after[i] == before[i]);
                    } else if i < place {
                        assert(after[i] == before[i] && after[j] == before[j - 1]);
                    } else if i == place {
                        assert(after[j] == before[j - 1]);
                    } else {
                        assert(after[i] == before[i - 1] && after[j] == before[j - 1]);
                    }
                }
            }
        }
    }
    proof {
        assert(is_stable_rearrangement(roster@, sorted@, origin));
    }
    sorted
}

proof fn lemma_origins_agree(
    roster: Seq<UserSubmission>,
    first: Seq<UserSubmission>,
    first_origin: Seq<int>,
    second: Seq<UserSubmission>,
    second_origin: Seq<int>,
    upto: int,
)
    requires
        is_sorted(first),
        is_sorted(second),
        is_stable_rearrangement(roster, first, first_origin),
        is_stable_rearrangement(roster, second, second_origin),
        0 <= upto <= roster.len(),
    ensures
        forall|i: int| 0 <= i < upto ==> first_origin[i] == second_origin[i],
    decreases upto,
{
    if upto > 0 {
        lemma_origins_agree(roster, first, first_origin, second, second_origin, upto - 1);
        let i = upto - 1;
        let x = first_origin[i];
        let y = second_origin[i];
        if x != y {
            // Where the other arrangement has each of the two entries.
            assert(second_origin.contains(x));
            let j = choose|j: int| 0 <= j < second_origin.len() && second_origin[j] == x;
            assert(first_origin.contains(y));
            let m = choose|m: int| 0 <= m < first_origin.len() && first_origin[m] == y;
            if j < i {
                assert(first_origin[j] == second_origin[j]);
            }
            if m < i {
                assert(first_origin[m] == second_origin[m]);
            }
            assert(i < j && i < m);
            assert(second[i] == roster[y] && second[j] == roster[x]);
            assert(first[i] == roster[x] && first[m] == roster[y]);
            assert(lex_le(second[i].sort_key(), second[j].sort_key()));
            assert(lex_le(first[i].sort_key(), first[m].sort_key()));
            lemma_lex_le_antisymmetric(roster[x].sort_key(), roster[y].sort_key());
            assert(second_origin[i] < second_origin[j]);
            assert(first_origin[i] < first_origin[m]);
        }
    }
}

/// The sorted roster is determined by the roster: two stable sorts of the
/// same roster are the same sequence of entries.
pub proof fn lemma_stable_sort_is_unique(
    roster: Seq<UserSubmission>,
    first: Seq<UserSubmission>,
    second: Seq<UserSubmission>,
)
    requires
        is_stable_sort_of(roster, first),
        is_stable_sort_of(roster, second),
    ensures
        first == second,
{
    let first_origin = choose|origin: Seq<int>| is_stable_rearrangement(roster, first, origin);
    let second_origin = choose|origin: Seq<int>| is_stable_rearrangement(roster, second, origin);
    lemma_origins_agree(roster, first, first_origin, second, second_origin, roster.len() as int);
    assert forall|i: int| 0 <= i < first.len() implies first[i] == second[i] by {
        assert(first[i] == roster[first_origin[i]]);
        assert(second[i] == roster[second_origin[i]]);
    }
    assert(first =~= second);
}

/// A half-open range `[start, end)` of places in the sorted roster.
#[derive(Clone, Copy, Debug, PartialEq, Eq, Structural)]
pub struct Portion {
    pub start: usize,
    pub end: usize,
}

/// Where the portion `index` begins when `total` entries are divided
/// `divisions` ways: every portion before it has `total / divisions` entries.
pub open spec fn portion_start(total: int, divisions: int, index: int) -> int {
    (total / divisions) * index
}

/// How many entries the portion `index` has: `total / divisions`, and the
/// remainder of the division on top for the last portion.
pub open spec fn portion_len(total: int, divisions: int, index: int) -> int {
    if index == divisions - 1 {
        total / divisions + total % divisions
    } else {
        total / divisions
    }
}

/// Where the portion `index` ends.
pub open spec fn portion_end(total: int, divisions: int, index: int) -> int {
    portion_start(total, divisions, index) + portion_len(total, divisions, index)
}

/// The place `place` of the roster lies in the portion `index`.
pub open spec fn in_portion(total: int, divisions: int, index: int, place: int) -> bool {
    portion_start(total, divisions, index) <= place < portion_end(total, divisions, index)
}

/// Some portion holds the place `place`.
pub open spec fn is_covered(total: int, divisions: int, place: int) -> bool {
    exists|i: int| 0 <= i < divisions && in_portion(total, divisions, i, place)
}

proof fn lemma_portion_bounds(total: int, divisions: int, index: int)
    requires
        0 <= total,
        0 <= index < divisions,
    ensures
        0 <= portion_start(total, divisions, index) <= portion_end(total, divisions, index) <= total,
        index == divisions - 1 ==> portion_end(total, divisions, index) == total,
        index < divisions - 1 ==> portion_end(total, divisions, index) == portion_start(
            total,
            divisions,
            index + 1,
        ),
{
    let base = total / divisions;
    let rest = total % divisions;
    assert(total == base * divisions + rest && 0 <= rest < divisions && 0 <= base) by (nonlinear_arith)
        requires
            0 <= total,
            0 < divisions,
            base == total / divisions,
            rest == total % divisions,
    ;
    assert(0 <= base * index && base * index + base == base * (index + 1) && base * (index + 1) <= base
        * divisions) by (nonlinear_arith)
        requires
            0 <= base,
            0 <= index < divisions,
    ;
}

/// The division is a partition of the roster. The first portion begins at
/// 0, each portion ends where the next begins, the last ends at `total`, so
/// the portions are contiguous, do not overlap and cover every place once;
/// all but the last have `total / divisions` entries, and the last has the
/// remainder of the division on top.
pub proof fn lemma_portions_partition(total: int, divisions: int)
    requires
        0 <= total,
        1 <= divisions,
    ensures
        portion_start(total, divisions, 0) == 0,
        portion_end(total, divisions, divisions - 1) == total,
        forall|i: int|
            0 <= i < divisions - 1 ==> #[trigger] portion_end(total, divisions, i) == portion_start(
                total,
                divisions,
                i + 1,
            ),
        forall|i: int|
            0 <= i < divisions ==> 0 <= #[trigger] portion_start(total, divisions, i) <= portion_end(
                total,
                divisions,
                i,
            ) <= total,
        forall|i: int|
            0 <= i < divisions - 1 ==> #[trigger] portion_len(total, divisions, i) == total / divisions,
        portion_len(total, divisions, divisions - 1) == total / divisions + total % divisions,
        forall|place: int| 0 <= place < total ==> #[trigger] is_covered(total, divisions, place),
        forall|place: int, i: int, j: int|
            0 <= i < divisions && 0 <= j < divisions && #[trigger] in_portion(total, divisions, i, place)
                && #[trigger] in_portion(total, divisions, j, place) ==> i == j,
{
    let base = total / divisions;
    assert(base * 0 == 0) by (nonlinear_arith);
    lemma_portion_bounds(total, divisions, divisions - 1);
    assert forall|i: int| 0 <= i < divisions implies 0 <= #[trigger] portion_start(total, divisions, i)
        <= portion_end(total, divisions, i) <= total && (i < divisions - 1 ==> portion_end(
        total,
        divisions,
        i,
    ) == portion_start(total, divisions, i + 1)) by {
        lemma_portion_bounds(total, divisions, i);
    }
    assert forall|place: int| 0 <= place < total implies #[trigger] is_covered(
        total,
        divisions,
        place,
    ) by {
        let owner = if base > 0 && place / base < divisions - 1 {
            place / base
        } else {
            divisions - 1
        };
        lemma_portion_bounds(total, divisions, owner);
        if base > 0 {
            let q = place / base;
            assert(base * q <= place < base * q + base && 0 <= q) by (nonlinear_arith)
                requires
                    0 <= place,
                    0 < base,
                    q == place / base,
            ;
            if q >= divisions - 1 {
                assert(base * (divisions - 1) <= base * q) by (nonlinear_arith)
                    requires
                        0 < base,
                        divisions - 1 <= q,
                ;
            }
        } else {
            assert(base * (divisions - 1) == 0) by (nonlinear_arith)
                requires
                    base == 0,
            ;
        }
        assert(in_portion(total, divisions, owner, place));
    }
    assert forall|place: int, i: int, j: int|
        0 <= i < divisions && 0 <= j < divisions && #[trigger] in_portion(total, divisions, i, place)
            && #[trigger] in_portion(total, divisions, j, place) implies i == j by {
        lemma_portion_bounds(total, divisions, i);
        lemma_portion_bounds(total, divisions, j);
        if i < j {
            assert(base * (i + 1) <= base * j) by (nonlinear_arith)
                requires
                    0 <= base,
                    i + 1 <= j,
            ;
        } else if j < i {
            assert(base * (j + 1) <= base * i) by (nonlinear_arith)
                requires
                    0 <= base,
                    j + 1 <= i,
            ;
        }
    }
}

/// The bounds of the portion `index`, which is one of the `divisions`.
fn bounds_of(total: usize, divisions: usize, index: usize) -> (portion: Portion)
    requires
        index < divisions,
    ensures
        portion.start == portion_start(total as int, divisions as int, index as int),
        portion.end == portion_end(total as int, divisions as int, index as int),
        portion.start <= portion.end <= total,
{
    proof {
        lemma_portion_bounds(total as int, divisions as int, index as int);
    }
    let base: usize = total / divisions;
    let start: usize = base * index;
    let end: usize = if index < divisions - 1 {
        start + base
    } else {
        start + base + total % divisions
    };
    Portion { start, end }
}

/// Computes the bounds of one portion of a roster of `total` entries divided
/// `divisions` ways. An `index` outside `[0, divisions)`, which is every index
/// when `divisions` is 0, is an invalid selection.
pub fn portion_bounds(total: usize, divisions: usize, index: usize) -> (result: Result<Portion, GraderError>)
    ensures
        result is Ok <==> index < divisions,
        result matches Err(e) ==> e == GraderError::InvalidSelection,
        result matches Ok(portion) ==> {
            &&& portion.start == portion_start(total as int, divisions as int, index as int)
            &&& portion.end == portion_end(total as int, divisions as int, index as int)
            &&& portion.start <= portion.end <= total
        },
{
    if index < divisions {
        Ok(bounds_of(total, divisions, index))
    } else {
        Err(GraderError::InvalidSelection)
    }
}

/// Computes all the portions of a roster of `total` entries divided
/// `divisions` ways, in order. No division gives no portion.
pub fn partition(total: usize, divisions: usize) -> (portions: Vec<Portion>)
    ensures
        portions@.len() == divisions,
        forall|i: int|
            0 <= i < divisions ==> {
                &&& (#[trigger] portions@[i]).start == portion_start(total as int, divisions as int, i)
                &&& portions@[i].end == portion_end(total as int, divisions as int, i)
            },
{
    let mut portions: Vec<Portion> = Vec::new();
    let mut index: usize = 0;
    while index < divisions
        invariant
            index <= divisions,
            portions@.len() == index,
            forall|i: int|
                0 <= i < index ==> {
                    &&& (#[trigger] portions@[i]).start == portion_start(total as int, divisions as int, i)
                    &&& portions@[i].end == portion_end(total as int, divisions as int, i)
                },
        decreases divisions - index,
    {
        portions.push(bounds_of(total, divisions, index));
        index = index + 1;
    }
    portions
}

/// Cuts one portion out of the sorted roster: the entries at the places
/// `[start, end)` of the portion `index`, in order. The same roster, division
/// count and index give the same entries. An `index` outside `[0, divisions)`
/// is an invalid selection.
pub fn take_portion(roster: Vec<UserSubmission>, divisions: usize, index: usize) -> (result: Result<
    Vec<UserSubmission>,
    GraderError,
>)
    ensures
        result is Ok <==> index < divisions,
        result matches Err(e) ==> e == GraderError::InvalidSelection,
        result matches Ok(entries) ==> entries@ == roster@.subrange(
            portion_start(roster@.len() as int, divisions as int, index as int),
            portion_end(roster@.len() as int, divisions as int, index as int),
        ),
{
    let mut roster = roster;
    match portion_bounds(roster.len(), divisions, index) {
        Ok(portion) => {
            let ghost whole = roster@;
            roster.truncate(portion.end);
            let entries = roster.split_off(portion.start);
            assert(entries@ =~= whole.subrange(portion.start as int, portion.end as int));
            Ok(entries)
        },
        Err(e) => Err(e),
    }
}

} // verus!
