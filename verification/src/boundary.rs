//! Finding the boundaries of the grid: a gradient matrix is reduced to one
//! number per column, and the runs of nonzero numbers are the sections.
use vstd::prelude::*;
use crate::grid::Grid;
use crate::matrix::Matrix;

verus! {

/// A half-open interval `[start, end)` of indices along one axis.
pub type Section = (usize, usize);

/// The sum of a column.
pub open spec fn total(column: Seq<int>) -> int
    decreases column.len(),
{
    if column.len() == 0 {
        0
    } else {
        total(column.drop_last()) + column.last()
    }
}

/// The profile of a grid: for each column the sum of its numerators. The
/// column's average is that sum over `height * unit`, so it is zero exactly
/// when the sum is.
pub open spec fn profile_of(grid: Grid) -> Seq<int> {
    Seq::new(grid.width, |x: int| total(grid.cells[x]))
}

/// A sequence of machine integers as mathematical integers.
pub open spec fn ints(values: Seq<i128>) -> Seq<int> {
    Seq::new(values.len(), |i: int| values[i] as int)
}

/// A sequence of machine intervals as mathematical intervals.
pub open spec fn spans(sections: Seq<Section>) -> Seq<(int, int)> {
    Seq::new(sections.len(), |k: int| (sections[k].0 as int, sections[k].1 as int))
}

/// `[start, end)` is a section of the profile: a run of nonzero entries that
/// a zero entry at `end` closes, and that begins at index 1 or right after a
/// zero entry. Index 0 is never part of a section.
pub open spec fn is_section(profile: Seq<int>, start: int, end: int) -> bool {
    &&& 1 <= start < end < profile.len()
    &&& forall|i: int| start <= i < end ==> profile[i] != 0
    &&& profile[end] == 0
    &&& (start == 1 || profile[start - 1] == 0)
}

/// What a scan of the profile has found: the sections it has closed, and
/// where the run that is still open began, if one is.
pub struct Scan {
    pub closed: Seq<(int, int)>,
    pub open: Option<int>,
}

/// The state of the scan after the entries `1 .. n` of the profile. A nonzero
/// entry opens a run when none is open; a zero entry closes the open run and
/// emits it.
pub open spec fn scan(profile: Seq<int>, n: int) -> Scan
    decreases n,
{
    if n <= 1 {
        Scan { closed: Seq::empty(), open: None }
    } else {
        let before = scan(profile, n - 1);
        let i = n - 1;
        match before.open {
            Some(start) => if profile[i] == 0 {
                Scan { closed: before.closed.push((start, i)), open: None }
            } else {
                before
            },
            None => if profile[i] != 0 {
                Scan { closed: before.closed, open: Some(i) }
            } else {
                before
            },
        }
    }
}

/// The sections of a profile, in order. A run that is still open at the end
/// of the profile is not among them.
pub open spec fn sections_of(profile: Seq<int>) -> Seq<(int, int)> {
    scan(profile, profile.len() as int).closed
}

/// What holds of a scan that has read the entries before `n`.
spec fn scanned(profile: Seq<int>, n: int, state: Scan) -> bool {
    &&& forall|k: int|
        0 <= k < state.closed.len() ==> is_section(
            profile,
            (#[trigger] state.closed[k]).0,
            state.closed[k].1,
        ) && state.closed[k].1 < n
    &&& forall|j: int, k: int|
        0 <= j < k < state.closed.len() ==> (#[trigger] state.closed[j]).1 < (
        #[trigger] state.closed[k]).0
    &&& forall|start: int, end: int|
        end < n && #[trigger] is_section(profile, start, end) ==> state.closed.contains(
            (start, end),
        )
    &&& match state.open {
        Some(start) => {
            &&& 1 <= start < n
            &&& forall|i: int| start <= i < n ==> profile[i] != 0
            &&& (start == 1 || profile[start - 1] == 0)
            &&& forall|k: int|
                0 <= k < state.closed.len() ==> (#[trigger] state.closed[k]).1 < start
        },
        None => n <= 1 || profile[n - 1] == 0,
    }
}

/// The scan keeps `scanned` from entry to entry.
proof fn lemma_scanned(profile: Seq<int>, n: int)
    requires
        n <= profile.len(),
    ensures
        scanned(profile, n, scan(profile, n)),
    decreases n,
{
    if n <= 1 {
    } else {
        lemma_scanned(profile, n - 1);
        let before = scan(profile, n - 1);
        let after = scan(profile, n);
        let i = n - 1;
        assert forall|start: int, end: int|
            end < n && #[trigger] is_section(profile, start, end) implies after.closed.contains(
            (start, end),
        ) by {
            if end < n - 1 {
                let k = choose|k: int|
                    0 <= k < before.closed.len() && before.closed[k] == (start, end);
                assert(after.closed[k] == (start, end));
            } else {
                assert(profile[i] == 0);
                assert(profile[i - 1] != 0);
                match before.open {
                    Some(first) => {
                        if start < first {
                            assert(profile[first - 1] != 0);
                        } else if first < start {
                            assert(profile[start - 1] != 0);
                        }
                        assert(after.closed[before.closed.len() as int] == (start, end));
                    },
                    None => {},
                }
            }
        }
    }
}

/// The scan finds exactly the sections of the profile, each once and in
/// order: every interval it returns is a section, every section is
/// returned, and each one ends before the next begins.
pub proof fn lemma_sections(profile: Seq<int>)
    ensures
        forall|k: int|
            0 <= k < sections_of(profile).len() ==> is_section(
                profile,
                (#[trigger] sections_of(profile)[k]).0,
                sections_of(profile)[k].1,
            ),
        forall|j: int, k: int|
            0 <= j < k < sections_of(profile).len() ==> (#[trigger] sections_of(profile)[j]).1 < (
            #[trigger] sections_of(profile)[k]).0,
        forall|start: int, end: int| #[trigger]
            is_section(profile, start, end) ==> sections_of(profile).contains((start, end)),
{
    lemma_scanned(profile, profile.len() as int);
}

/// Reduces a matrix to its profile: one sum per column. The sums are exact:
/// a column of any height fits an `i128`.
pub fn gradient_profile(matrix: &Matrix) -> (profile: Vec<i128>)
    ensures
        ints(profile@) == profile_of(matrix@),
{
    let width: usize = matrix.width();
    let height: usize = matrix.height();
    let mut profile: Vec<i128> = Vec::new();
    let mut x: usize = 0;
    while x < width
        invariant
            x <= width,
            width == matrix@.width,
            height == matrix@.height,
            matrix@.wf(),
            profile@.len() == x,
            forall|a: int| 0 <= a < x ==> (#[trigger] profile@[a]) == total(matrix@.cells[a]),
        decreases width - x,
    {
        let mut sum: i128 = 0;
        let mut y: usize = 0;
        while y < height
            invariant
                y <= height,
                x < width,
                width == matrix@.width,
                height == matrix@.height,
                matrix@.wf(),
                sum == total(matrix@.cells[x as int].subrange(0, y as int)),
                -(y * 0x8000_0000_0000_0000) <= sum <= y * 0x8000_0000_0000_0000,
            decreases height - y,
        {
            let cell: i64 = matrix.get(x, y);
            proof {
                let column = matrix@.cells[x as int];
                assert(column.subrange(0, y + 1).drop_last() =~= column.subrange(0, y as int));
            }
            sum = sum + cell as i128;
            y += 1;
        }
        proof {
            let column = matrix@.cells[x as int];
            assert(column.subrange(0, height as int) =~= column);
        }
        profile.push(sum);
        x += 1;
    }
    proof {
        assert(ints(profile@) =~= profile_of(matrix@));
    }
    profile
}

/// Finds the sections of a profile: the half-open intervals `[start, end)`
/// of nonzero entries, from index 1 on, each closed by a zero entry at `end`.
/// A run that reaches the end of the profile is dropped.
pub fn find_sections(profile: &Vec<i128>) -> (sections: Vec<Section>)
    ensures
        spans(sections@) == sections_of(ints(profile@)),
        forall|k: int|
            0 <= k < sections@.len() ==> is_section(
                ints(profile@),
                (#[trigger] sections@[k]).0 as int,
                sections@[k].1 as int,
            ),
        forall|j: int, k: int|
            0 <= j < k < sections@.len() ==> (#[trigger] sections@[j]).1 < (
            #[trigger] sections@[k]).0,
        forall|start: int, end: int| #[trigger]
            is_section(ints(profile@), start, end) ==> spans(sections@).contains((start, end)),
{
    let mut sections: Vec<Section> = Vec::new();
    let mut start: Option<usize> = None;
    let mut i: usize = 1;
    while i < profile.len()
        invariant
            1 <= i,
            i == 1 || i <= profile@.len(),
            spans(sections@) == scan(ints(profile@), i as int).closed,
            match start {
                Some(first) => scan(ints(profile@), i as int).open == Some(first as int),
                None => scan(ints(profile@), i as int).open.is_none(),
            },
        decreases profile@.len() - i,
    {
        let ghost values = ints(profile@);
        let ghost before = scan(values, i as int);
        assert(values[i as int] == profile@[i as int]);
        match start {
            Some(first) => {
                if profile[i] == 0 {
                    sections.push((first, i));
                    start = None;
                    proof {
                        assert(spans(sections@) =~= before.closed.push((first as int, i as int)));
                    }
                }
            },
            None => {
                if profile[i] != 0 {
                    start = Some(i);
                }
            },
        }
        i += 1;
    }
    proof {
        if profile@.len() == 0 {
            assert(scan(ints(profile@), 0).closed =~= scan(ints(profile@), 1).closed);
        }
        lemma_sections(ints(profile@));
        let found = spans(sections@);
        assert(found == sections_of(ints(profile@)));
        assert forall|k: int| 0 <= k < sections@.len() implies is_section(
            ints(profile@),
            (#[trigger] sections@[k]).0 as int,
            sections@[k].1 as int,
        ) by {
            assert(found[k] == (sections@[k].0 as int, sections@[k].1 as int));
            assert(is_section(ints(profile@), found[k].0, found[k].1));
        }
        assert forall|j: int, k: int| 0 <= j < k < sections@.len() implies (
        #[trigger] sections@[j]).1 < (#[trigger] sections@[k]).0 by {
            assert(found[j].1 < found[k].0);
        }
    }
    sections
}

} // verus!
