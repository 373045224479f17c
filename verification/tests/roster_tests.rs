use canvas_grader::error::GraderError;
use canvas_grader::model::{Submission, UserProfile, UserSubmission};
use canvas_grader::roster::{partition, portion_bounds, sort_roster, take_portion, Portion};

fn entry(name: &str, user_id: usize) -> UserSubmission {
    UserSubmission {
        user_profile: UserProfile { sortable_name: name.to_string() },
        submission: Submission { user_id: Some(user_id), attachments: None },
    }
}

fn names(roster: &[UserSubmission]) -> Vec<&str> {
    roster.iter().map(|e| e.user_profile.sortable_name.as_str()).collect()
}

fn ids(roster: &[UserSubmission]) -> Vec<usize> {
    roster.iter().map(|e| e.submission.user_id.unwrap()).collect()
}

#[test]
fn the_roster_is_sorted_by_name() {
    let roster = vec![
        entry("Moss, M", 1),
        entry("Adams, A", 2),
        entry("Zed, Z", 3),
        entry("Baker, B", 4),
    ];
    let sorted = sort_roster(roster);
    assert_eq!(names(&sorted), vec!["Adams, A", "Baker, B", "Moss, M", "Zed, Z"]);
    assert_eq!(ids(&sorted), vec![2, 4, 1, 3]);
}

#[test]
fn equal_names_keep_their_order() {
    let roster = vec![
        entry("Lee, K", 1),
        entry("Adams, A", 2),
        entry("Lee, K", 3),
        entry("Adams, A", 4),
        entry("Lee, K", 5),
    ];
    let sorted = sort_roster(roster);
    assert_eq!(names(&sorted), vec!["Adams, A", "Adams, A", "Lee, K", "Lee, K", "Lee, K"]);
    assert_eq!(ids(&sorted), vec![2, 4, 1, 3, 5]);
}

#[test]
fn sorting_agrees_with_the_order_of_strings() {
    let given = ["b", "", "Ab", "ab", "a", "é", "B", "abc", "Z", "a"];
    let roster: Vec<UserSubmission> =
        given.iter().enumerate().map(|(i, n)| entry(n, i)).collect();
    let mut expected = roster.clone();
    expected.sort_by(|a, b| a.user_profile.sortable_name.cmp(&b.user_profile.sortable_name));
    assert_eq!(sort_roster(roster), expected);
}

#[test]
fn sorting_nothing_gives_nothing() {
    assert!(sort_roster(vec![]).is_empty());
    assert_eq!(sort_roster(vec![entry("Solo, H", 1)]), vec![entry("Solo, H", 1)]);
}

#[test]
fn ten_entries_three_ways() {
    assert_eq!(portion_bounds(10, 3, 0), Ok(Portion { start: 0, end: 3 }));
    assert_eq!(portion_bounds(10, 3, 1), Ok(Portion { start: 3, end: 6 }));
    assert_eq!(portion_bounds(10, 3, 2), Ok(Portion { start: 6, end: 10 }));
    let sizes: Vec<usize> = partition(10, 3).iter().map(|p| p.end - p.start).collect();
    assert_eq!(sizes, vec![3, 3, 4]);
}

#[test]
fn one_division_covers_everything() {
    assert_eq!(portion_bounds(7, 1, 0), Ok(Portion { start: 0, end: 7 }));
    assert_eq!(partition(7, 1), vec![Portion { start: 0, end: 7 }]);
    assert_eq!(portion_bounds(0, 1, 0), Ok(Portion { start: 0, end: 0 }));
}

#[test]
fn an_even_division_has_no_remainder() {
    assert_eq!(
        partition(12, 4),
        vec![
            Portion { start: 0, end: 3 },
            Portion { start: 3, end: 6 },
            Portion { start: 6, end: 9 },
            Portion { start: 9, end: 12 },
        ]
    );
}

#[test]
fn fewer_entries_than_divisions_gives_empty_portions() {
    assert_eq!(
        partition(2, 5),
        vec![
            Portion { start: 0, end: 0 },
            Portion { start: 0, end: 0 },
            Portion { start: 0, end: 0 },
            Portion { start: 0, end: 0 },
            Portion { start: 0, end: 2 },
        ]
    );
    assert_eq!(portion_bounds(2, 5, 1), Ok(Portion { start: 0, end: 0 }));
}

#[test]
fn the_portions_partition_the_roster() {
    for total in 0..40usize {
        for divisions in 1..12usize {
            let portions = partition(total, divisions);
            assert_eq!(portions.len(), divisions);
            assert_eq!(portions[0].start, 0);
            assert_eq!(portions[divisions - 1].end, total);
            for i in 0..divisions {
                let size = portions[i].end - portions[i].start;
                if i + 1 < divisions {
                    assert_eq!(portions[i].end, portions[i + 1].start);
                    assert_eq!(size, total / divisions);
                } else {
                    assert_eq!(size, total / divisions + total % divisions);
                }
                assert_eq!(portion_bounds(total, divisions, i), Ok(portions[i]));
            }
        }
    }
}

#[test]
fn an_index_outside_the_divisions_is_invalid() {
    assert_eq!(portion_bounds(10, 3, 3), Err(GraderError::InvalidSelection));
    assert_eq!(portion_bounds(10, 3, usize::MAX), Err(GraderError::InvalidSelection));
    assert_eq!(portion_bounds(10, 0, 0), Err(GraderError::InvalidSelection));
    assert!(partition(10, 0).is_empty());
    assert_eq!(take_portion(vec![entry("A", 1)], 2, 2), Err(GraderError::InvalidSelection));
}

#[test]
fn large_rosters_do_not_overflow() {
    assert_eq!(
        portion_bounds(usize::MAX, 2, 1),
        Ok(Portion { start: usize::MAX / 2, end: usize::MAX })
    );
    assert_eq!(
        portion_bounds(usize::MAX, usize::MAX, usize::MAX - 1),
        Ok(Portion { start: usize::MAX - 1, end: usize::MAX })
    );
}

#[test]
fn the_last_portion_holds_the_highest_names() {
    let given = ["h", "c", "j", "a", "e", "g", "b", "i", "d", "f"];
    let roster: Vec<UserSubmission> =
        given.iter().enumerate().map(|(i, n)| entry(n, i)).collect();
    let sorted = sort_roster(roster);
    let last = take_portion(sorted.clone(), 3, 2).unwrap();
    assert_eq!(names(&last), vec!["g", "h", "i", "j"]);
    let first = take_portion(sorted.clone(), 3, 0).unwrap();
    assert_eq!(names(&first), vec!["a", "b", "c"]);
    let middle = take_portion(sorted, 3, 1).unwrap();
    assert_eq!(names(&middle), vec!["d", "e", "f"]);
}

#[test]
fn the_same_selection_gives_the_same_entries() {
    let given = ["h", "c", "j", "a", "e", "g", "b", "i", "d", "f"];
    let roster: Vec<UserSubmission> =
        given.iter().enumerate().map(|(i, n)| entry(n, i)).collect();
    let once = take_portion(sort_roster(roster.clone()), 4, 3).unwrap();
    let again = take_portion(sort_roster(roster), 4, 3).unwrap();
    assert_eq!(once, again);
    assert_eq!(names(&once), vec!["g", "h", "i", "j"]);
}

#[test]
fn an_empty_portion_is_an_empty_slice() {
    let roster = vec![entry("a", 1), entry("b", 2)];
    assert_eq!(take_portion(roster.clone(), 5, 0), Ok(vec![]));
    assert_eq!(take_portion(roster.clone(), 5, 4), Ok(roster));
}
