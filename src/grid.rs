use std::collections::HashMap;

use itertools::Itertools;
use vstd::prelude::*;

use crate::models::{
    Cell, CellData, Clue, ClueId, Clues, CrosswordDto, Direction, GuardianCrossword,
    GuardianDirection, GuardianEntry,
};

verus! {

/// What a grid index holds before cells are formed: the clue that passes
/// through it and, on an entry's first square, the entry's number.
pub type Candidate = (ClueId, Option<i64>);

pub open spec fn dto_direction(d: GuardianDirection) -> Direction {
    match d {
        GuardianDirection::Across => Direction::Across,
        GuardianDirection::Down => Direction::Down,
    }
}

pub open spec fn clue_id_of(e: GuardianEntry) -> ClueId {
    ClueId { number: e.number, direction: dto_direction(e.direction) }
}

/// The grid index of an entry's first square.
pub open spec fn entry_start(e: GuardianEntry, cols: int) -> int {
    e.position.x + e.position.y * cols
}

/// The distance in grid indices between two successive squares of an entry.
pub open spec fn entry_step(e: GuardianEntry, cols: int) -> int {
    match e.direction {
        GuardianDirection::Across => 1,
        GuardianDirection::Down => cols,
    }
}

/// The grid index of square `i` of an entry.
pub open spec fn entry_index(e: GuardianEntry, cols: int, i: int) -> int {
    entry_start(e, cols) + i * entry_step(e, cols)
}

/// The number of squares an entry occupies.
pub open spec fn entry_len(e: GuardianEntry) -> nat {
    if e.length > 0 { e.length as nat } else { 0 }
}

/// Every index of the entry's squares fits the 64-bit index arithmetic.
pub open spec fn entry_fits(e: GuardianEntry, cols: int) -> bool {
    &&& i64::MIN <= e.position.y * cols <= i64::MAX
    &&& i64::MIN <= entry_start(e, cols) <= i64::MAX
    &&& e.length > 0 ==> i64::MIN <= entry_index(e, cols, e.length - 1) <= i64::MAX
}

/// Dimensions of at least one square each, a square count and entry indices
/// that fit 64 bits.
pub open spec fn crossword_fits(c: GuardianCrossword) -> bool {
    let cols = c.dimensions.cols as int;
    &&& c.dimensions.cols >= 1
    &&& c.dimensions.rows >= 1
    &&& cols * c.dimensions.rows <= i64::MAX
    &&& forall|j: int| 0 <= j < c.entries@.len() ==> entry_fits(#[trigger] c.entries@[j], cols)
}

/// The (index, candidate) pairs of one entry, one per square in order.
pub open spec fn entry_candidates(e: GuardianEntry, cols: int) -> Seq<(i64, Candidate)> {
    Seq::new(
        entry_len(e),
        |i: int| (entry_index(e, cols, i) as i64, (clue_id_of(e), if i == 0 { Some(e.number) } else { None })),
    )
}

/// The pairs of all entries, entry after entry.
pub open spec fn all_candidates(entries: Seq<GuardianEntry>, cols: int) -> Seq<(i64, Candidate)>
    decreases entries.len(),
{
    if entries.len() == 0 {
        seq![]
    } else {
        all_candidates(entries.drop_last(), cols) + entry_candidates(entries.last(), cols)
    }
}

/// The candidates paired with index `k`, in order.
pub open spec fn group_of(pairs: Seq<(i64, Candidate)>, k: i64) -> Seq<Candidate>
    decreases pairs.len(),
{
    if pairs.len() == 0 {
        seq![]
    } else if pairs.last().0 == k {
        group_of(pairs.drop_last(), k).push(pairs.last().1)
    } else {
        group_of(pairs.drop_last(), k)
    }
}

/// The candidates of grid index `k`.
pub open spec fn candidates_at(entries: Seq<GuardianEntry>, cols: int, k: int) -> Seq<Candidate> {
    group_of(all_candidates(entries, cols), k as i64)
}

/// The first number among the candidates.
pub open spec fn first_number(c: Seq<Candidate>) -> Option<i64>
    decreases c.len(),
{
    if c.len() == 0 {
        None
    } else if c[0].1 is Some {
        c[0].1
    } else {
        first_number(c.drop_first())
    }
}

/// The first two candidates, or all of them where there are fewer.
pub open spec fn first_two(c: Seq<Candidate>) -> Seq<Candidate> {
    if c.len() <= 2 {
        c
    } else {
        c.take(2)
    }
}

/// The cell formed from an index's candidates: black without any; white
/// otherwise, built from the first two candidates alone: the first one's
/// clue, the second one's clue where it differs, and the first number among
/// the two.
pub open spec fn cell_of(c: Seq<Candidate>) -> Cell {
    if c.len() == 0 {
        Cell::Black
    } else {
        Cell::White {
            cell_data: CellData {
                number: first_number(first_two(c)),
                clue_id: c[0].0,
                clue_id_2: if c.len() > 1 && c[1].0 != c[0].0 { Some(c[1].0) } else { None },
            },
        }
    }
}

pub open spec fn clue_of(e: GuardianEntry) -> Clue {
    Clue { number: e.number, value: e.clue }
}

/// The clues of the entries in direction `d`, in entry order.
pub open spec fn clues_of(entries: Seq<GuardianEntry>, d: Direction) -> Seq<Clue>
    decreases entries.len(),
{
    if entries.len() == 0 {
        seq![]
    } else if dto_direction(entries.last().direction) == d {
        clues_of(entries.drop_last(), d).push(clue_of(entries.last()))
    } else {
        clues_of(entries.drop_last(), d)
    }
}

/// Relies on `itertools::Itertools::into_group_map`: every key that occurs
/// maps to its values in input order, and no other key is present.
#[verifier::external_body]
fn group_by_index(pairs: Vec<(i64, Candidate)>) -> (r: HashMap<i64, Vec<Candidate>>)
    ensures
        forall|k: i64| #[trigger] r@.contains_key(k) <==> group_of(pairs@, k).len() > 0,
        forall|k: i64| r@.contains_key(k) ==> (#[trigger] r@[k])@ == group_of(pairs@, k),
{
    pairs.into_iter().into_group_map()
}

pub fn guardian_to_dto_direction(direction: GuardianDirection) -> (r: Direction)
    ensures
        r == dto_direction(direction),
{
    match direction {
        GuardianDirection::Across => Direction::Across,
        GuardianDirection::Down => Direction::Down,
    }
}

/// The (index, candidate) pairs of one entry's squares: the first square
/// carries the entry's number.
pub fn to_interim_clue(entry: &GuardianEntry, columns: i64) -> (r: Vec<(i64, Candidate)>)
    requires
        columns >= 1,
        entry_fits(*entry, columns as int),
    ensures
        r@ == entry_candidates(*entry, columns as int),
{
    let clue_id = ClueId { number: entry.number, direction: guardian_to_dto_direction(entry.direction) };
    let mut r: Vec<(i64, Candidate)> = Vec::new();
    if entry.length <= 0 {
        assert(r@ =~= entry_candidates(*entry, columns as int));
        return r;
    }
    let increment: i64 = match entry.direction {
        GuardianDirection::Across => 1,
        GuardianDirection::Down => columns,
    };
    let mut index: i64 = entry.position.x + entry.position.y * columns;
    let mut i: i64 = 0;
    let ghost cols = columns as int;
    while i < entry.length
        invariant
            0 <= i <= entry.length,
            columns >= 1,
            entry.length > 0,
            entry_fits(*entry, cols),
            cols == columns as int,
            increment == entry_step(*entry, cols),
            clue_id == clue_id_of(*entry),
            i < entry.length ==> index == entry_index(*entry, cols, i as int),
            r@ =~= entry_candidates(*entry, cols).take(i as int),
        decreases entry.length - i,
    {
        let number = if i == 0 { Some(entry.number) } else { None };
        r.push((index, (clue_id, number)));
        proof {
            assert(entry_candidates(*entry, cols).take(i + 1) =~= entry_candidates(*entry, cols).take(
                i as int,
            ).push((index, (clue_id, number))));
        }
        if i + 1 < entry.length {
            proof {
                let s = entry_start(*entry, cols);
                let st = increment as int;
                let last = entry.length - 1;
                assert(st >= 1);
                assert((i + 1) * st <= last * st) by (nonlinear_arith)
                    requires i + 1 <= last, st >= 1;
                assert(0 <= (i + 1) * st) by (nonlinear_arith)
                    requires i + 1 >= 0, st >= 1;
                assert((i + 1) * st == i * st + st) by (nonlinear_arith);
            }
            index = index + increment;
        }
        i = i + 1;
    }
    assert(entry_candidates(*entry, cols).take(i as int) =~= entry_candidates(*entry, cols));
    r
}

/// The cell of one grid index, from the candidates grouped under it.
pub fn get_cell(clue_items: Option<&Vec<Candidate>>) -> (r: Cell)
    ensures
        clue_items is None ==> r == Cell::Black,
        clue_items is Some ==> r == cell_of(clue_items.unwrap()@),
{
    match clue_items {
        None => Cell::Black,
        Some(clues) => {
            if clues.len() == 0 {
                return Cell::Black;
            }
            let primary = clues[0].0;
            proof {
                let two = first_two(clues@);
                reveal_with_fuel(first_number, 3);
                assert(two[0] == clues@[0]);
                if clues@.len() > 1 {
                    assert(two.drop_first().len() == 1 && two.drop_first()[0] == clues@[1]);
                    assert(two.drop_first().drop_first().len() == 0);
                } else {
                    assert(two.drop_first().len() == 0);
                }
            }
            let number = if clues[0].1.is_some() {
                clues[0].1
            } else if clues.len() > 1 {
                clues[1].1
            } else {
                None
            };
            let clue_id_2 = if clues.len() > 1 && clues[1].0 != primary { Some(clues[1].0) } else { None };
            Cell::White { cell_data: CellData { number, clue_id: primary, clue_id_2 } }
        },
    }
}

/// The clue of each entry in direction `d`, in entry order.
fn to_clues(entries: &Vec<GuardianEntry>, d: Direction) -> (r: Vec<Clue>)
    ensures
        r@ == clues_of(entries@, d),
{
    let mut r: Vec<Clue> = Vec::new();
    let mut j: usize = 0;
    while j < entries.len()
        invariant
            0 <= j <= entries@.len(),
            r@ == clues_of(entries@.take(j as int), d),
        decreases entries@.len() - j,
    {
        assert(entries@.take(j + 1).drop_last() =~= entries@.take(j as int));
        let e = &entries[j];
        if guardian_to_dto_direction(e.direction) == d {
            r.push(Clue { number: e.number, value: e.clue.clone() });
        }
        j = j + 1;
    }
    assert(entries@.take(j as int) =~= entries@);
    r
}

/// Whether an entry's squares have indices that fit 64 bits.
fn entry_fits_check(e: &GuardianEntry, cols: i64) -> (r: bool)
    requires
        cols >= 1,
    ensures
        r == entry_fits(*e, cols as int),
{
    let y: i128 = e.position.y as i128;
    let c: i128 = cols as i128;
    assert(-0x8000_0000_0000_0000 * 0x7fff_ffff_ffff_ffff <= y * c <= 0x7fff_ffff_ffff_ffff * 0x7fff_ffff_ffff_ffff)
        by (nonlinear_arith)
        requires i64::MIN <= y <= i64::MAX, 1 <= c <= i64::MAX;
    let y_part: i128 = y * c;
    if y_part < i64::MIN as i128 || y_part > i64::MAX as i128 {
        return false;
    }
    let start: i128 = e.position.x as i128 + y_part;
    if start < i64::MIN as i128 || start > i64::MAX as i128 {
        return false;
    }
    if e.length <= 0 {
        return true;
    }
    let step: i128 = match e.direction {
        GuardianDirection::Across => 1,
        GuardianDirection::Down => cols as i128,
    };
    let before_last: i128 = e.length as i128 - 1;
    assert(0 <= before_last * step <= 0x7fff_ffff_ffff_ffff * 0x7fff_ffff_ffff_ffff) by (nonlinear_arith)
        requires 0 <= before_last < i64::MAX, 1 <= step <= i64::MAX;
    let span: i128 = before_last * step;
    let last: i128 = start + span;
    last >= i64::MIN as i128 && last <= i64::MAX as i128
}

/// Whether a crossword meets what `guardian_to_crossword_dto` needs:
/// dimensions of at least one square each, and a square count and entry
/// indices that fit 64 bits.
pub fn fits_grid(c: &GuardianCrossword) -> (r: bool)
    ensures
        r == crossword_fits(*c),
{
    let cols = c.dimensions.cols;
    let rows = c.dimensions.rows;
    if cols < 1 || rows < 1 {
        return false;
    }
    assert(cols * rows <= 0x7fff_ffff_ffff_ffff * 0x7fff_ffff_ffff_ffff) by (nonlinear_arith)
        requires 1 <= cols <= i64::MAX, 1 <= rows <= i64::MAX;
    let size: i128 = cols as i128 * rows as i128;
    if size > i64::MAX as i128 {
        return false;
    }
    let mut j: usize = 0;
    while j < c.entries.len()
        invariant
            0 <= j <= c.entries@.len(),
            cols == c.dimensions.cols,
            cols >= 1,
            forall|k: int| 0 <= k < j ==> entry_fits(#[trigger] c.entries@[k], cols as int),
        decreases c.entries@.len() - j,
    {
        if !entry_fits_check(&c.entries[j], cols) {
            return false;
        }
        j = j + 1;
    }
    true
}

/// Builds the renderable grid of a crossword: one cell per square in
/// row-major order, each formed from the entries that pass through it, and
/// the across and down clue lists in entry order.
pub fn guardian_to_crossword_dto(guardian_crossword: GuardianCrossword) -> (r: CrosswordDto)
    requires
        crossword_fits(guardian_crossword),
    ensures
        r.number_of_columns == guardian_crossword.dimensions.cols,
        r.number_of_rows == guardian_crossword.dimensions.rows,
        r.grid@.len() == guardian_crossword.dimensions.cols * guardian_crossword.dimensions.rows,
        forall|i: int|
            0 <= i < r.grid@.len() ==> #[trigger] r.grid@[i] == cell_of(
                candidates_at(guardian_crossword.entries@, guardian_crossword.dimensions.cols as int, i),
            ),
        r.clues.across@ == clues_of(guardian_crossword.entries@, Direction::Across),
        r.clues.down@ == clues_of(guardian_crossword.entries@, Direction::Down),
{
    let cols = guardian_crossword.dimensions.cols;
    let rows = guardian_crossword.dimensions.rows;
    let entries = &guardian_crossword.entries;
    let ghost es = entries@;
    let mut pairs: Vec<(i64, Candidate)> = Vec::new();
    let mut j: usize = 0;
    while j < entries.len()
        invariant
            0 <= j <= es.len(),
            es == entries@,
            es == guardian_crossword.entries@,
            cols == guardian_crossword.dimensions.cols,
            crossword_fits(guardian_crossword),
            pairs@ == all_candidates(es.take(j as int), cols as int),
        decreases es.len() - j,
    {
        assert(es.take(j + 1).drop_last() =~= es.take(j as int));
        assert(entry_fits(es[j as int], cols as int));
        let mut part = to_interim_clue(&entries[j], cols);
        pairs.append(&mut part);
        j = j + 1;
    }
    assert(es.take(j as int) =~= es);
    let ghost all = pairs@;
    let index_to_clue_items = group_by_index(pairs);
    let n: i64 = cols * rows;
    let mut grid: Vec<Cell> = Vec::new();
    let mut idx: i64 = 0;
    while idx < n
        invariant
            0 <= idx <= n,
            grid@.len() == idx,
            all == all_candidates(es, cols as int),
            forall|k: i64| #[trigger] index_to_clue_items@.contains_key(k) <==> group_of(all, k).len() > 0,
            forall|k: i64| index_to_clue_items@.contains_key(k) ==> (#[trigger] index_to_clue_items@[k])@ == group_of(all, k),
            forall|i: int| 0 <= i < idx ==> #[trigger] grid@[i] == cell_of(candidates_at(es, cols as int, i)),
        decreases n - idx,
    {
        let cell = get_cell(index_to_clue_items.get(&idx));
        proof {
            if !index_to_clue_items@.contains_key(idx) {
                assert(group_of(all, idx).len() == 0);
            }
            assert(candidates_at(es, cols as int, idx as int) == group_of(all, idx));
        }
        grid.push(cell);
        idx = idx + 1;
    }
    let across = to_clues(entries, Direction::Across);
    let down = to_clues(entries, Direction::Down);
    CrosswordDto { number_of_columns: cols, number_of_rows: rows, grid, clues: Clues { across, down } }
}

proof fn lemma_entry_index_fits(e: GuardianEntry, cols: int, i: int)
    requires
        cols >= 1,
        entry_fits(e, cols),
        0 <= i < entry_len(e),
    ensures
        i64::MIN <= entry_index(e, cols, i) <= i64::MAX,
{
    let st = entry_step(e, cols);
    let last = e.length - 1;
    assert(0 <= i * st <= last * st) by (nonlinear_arith)
        requires 0 <= i <= last, st >= 1;
}

proof fn lemma_group_exists(pairs: Seq<(i64, Candidate)>, k: i64, p: spec_fn(Candidate) -> bool)
    ensures
        (exists|m: int| 0 <= m < group_of(pairs, k).len() && p(#[trigger] group_of(pairs, k)[m])) <==> (exists|t: int|
            0 <= t < pairs.len() && (#[trigger] pairs[t]).0 == k && p(pairs[t].1)),
    decreases pairs.len(),
{
    if pairs.len() > 0 {
        let rest = pairs.drop_last();
        lemma_group_exists(rest, k, p);
        let g = group_of(rest, k);
        let last = pairs.len() - 1;
        if exists|m: int| 0 <= m < group_of(pairs, k).len() && p(#[trigger] group_of(pairs, k)[m]) {
            let m = choose|m: int| 0 <= m < group_of(pairs, k).len() && p(#[trigger] group_of(pairs, k)[m]);
            if m < g.len() {
                assert(group_of(pairs, k)[m] == g[m]);
                let t = choose|t: int| 0 <= t < rest.len() && (#[trigger] rest[t]).0 == k && p(rest[t].1);
                assert(pairs[t] == rest[t]);
            } else {
                assert(pairs[last] == pairs.last());
            }
        }
        if exists|t: int| 0 <= t < pairs.len() && (#[trigger] pairs[t]).0 == k && p(pairs[t].1) {
            let t = choose|t: int| 0 <= t < pairs.len() && (#[trigger] pairs[t]).0 == k && p(pairs[t].1);
            if t < last {
                assert(rest[t] == pairs[t]);
                let m = choose|m: int| 0 <= m < g.len() && p(#[trigger] g[m]);
                if pairs.last().0 == k {
                    assert(group_of(pairs, k)[m] == g[m]);
                }
            } else {
                assert(group_of(pairs, k)[g.len() as int] == pairs.last().1);
            }
        }
    }
}

proof fn lemma_all_candidates_exists(
    entries: Seq<GuardianEntry>,
    cols: int,
    k: i64,
    p: spec_fn(Candidate) -> bool,
)
    ensures
        (exists|t: int|
            0 <= t < all_candidates(entries, cols).len() && (#[trigger] all_candidates(entries, cols)[t]).0 == k
                && p(all_candidates(entries, cols)[t].1)) <==> (exists|j: int, i: int|
            0 <= j < entries.len() && 0 <= i < entry_len(entries[j]) && (#[trigger] entry_candidates(
                entries[j],
                cols,
            )[i]).0 == k && p(entry_candidates(entries[j], cols)[i].1)),
    decreases entries.len(),
{
    if entries.len() > 0 {
        let rest = entries.drop_last();
        let a = all_candidates(rest, cols);
        let b = entry_candidates(entries.last(), cols);
        let whole = all_candidates(entries, cols);
        lemma_all_candidates_exists(rest, cols, k, p);
        let last = entries.len() - 1;
        assert(whole == a + b);
        if exists|t: int| 0 <= t < whole.len() && (#[trigger] whole[t]).0 == k && p(whole[t].1) {
            let t = choose|t: int| 0 <= t < whole.len() && (#[trigger] whole[t]).0 == k && p(whole[t].1);
            if t < a.len() {
                assert(whole[t] == a[t]);
                let (j, i) = choose|j: int, i: int|
                    0 <= j < rest.len() && 0 <= i < entry_len(rest[j]) && (#[trigger] entry_candidates(
                        rest[j],
                        cols,
                    )[i]).0 == k && p(entry_candidates(rest[j], cols)[i].1);
                assert(entries[j] == rest[j]);
            } else {
                assert(whole[t] == b[t - a.len()]);
                assert(entries[last] == entries.last());
                assert(entry_candidates(entries[last], cols)[t - a.len()].0 == k);
            }
        }
        if exists|j: int, i: int|
            0 <= j < entries.len() && 0 <= i < entry_len(entries[j]) && (#[trigger] entry_candidates(
                entries[j],
                cols,
            )[i]).0 == k && p(entry_candidates(entries[j], cols)[i].1) {
            let (j, i) = choose|j: int, i: int|
                0 <= j < entries.len() && 0 <= i < entry_len(entries[j]) && (#[trigger] entry_candidates(
                    entries[j],
                    cols,
                )[i]).0 == k && p(entry_candidates(entries[j], cols)[i].1);
            if j < last {
                assert(rest[j] == entries[j]);
                let t = choose|t: int| 0 <= t < a.len() && (#[trigger] a[t]).0 == k && p(a[t].1);
                assert(whole[t] == a[t]);
            } else {
                assert(entries[j] == entries.last());
                assert(whole[a.len() + i] == b[i]);
            }
        }
    }
}

proof fn lemma_first_number_some(c: Seq<Candidate>)
    ensures
        first_number(c) is Some <==> exists|m: int| 0 <= m < c.len() && (#[trigger] c[m]).1 is Some,
    decreases c.len(),
{
    if c.len() > 0 {
        lemma_first_number_some(c.drop_first());
        if c[0].1 is None {
            if exists|m: int| 0 <= m < c.len() && (#[trigger] c[m]).1 is Some {
                let m = choose|m: int| 0 <= m < c.len() && (#[trigger] c[m]).1 is Some;
                assert(c.drop_first()[m - 1] == c[m]);
            }
            if first_number(c) is Some {
                let m = choose|m: int| 0 <= m < c.drop_first().len() && (#[trigger] c.drop_first()[m]).1 is Some;
                assert(c[m + 1] == c.drop_first()[m]);
            }
        }
    }
}

/// A square of the grid is white exactly when some entry passes through it.
/// Where at most two entries pass through it, as in any well-formed
/// crossword, it carries a number exactly when some entry starts on it.
pub proof fn lemma_cell_white_iff_occupied(entries: Seq<GuardianEntry>, cols: int, k: int)
    requires
        cols >= 1,
        forall|j: int| 0 <= j < entries.len() ==> entry_fits(#[trigger] entries[j], cols),
        i64::MIN <= k <= i64::MAX,
    ensures
        cell_of(candidates_at(entries, cols, k)) is White <==> exists|j: int, i: int|
            0 <= j < entries.len() && 0 <= i < entry_len(entries[j]) && #[trigger] entry_index(entries[j], cols, i)
                == k,
        candidates_at(entries, cols, k).len() <= 2 ==> ((cell_of(candidates_at(entries, cols, k)) matches Cell::White {
            cell_data,
        } && cell_data.number is Some) <==> exists|j: int|
            0 <= j < entries.len() && entry_len(#[trigger] entries[j]) > 0 && entry_start(entries[j], cols) == k),
{
    let g = candidates_at(entries, cols, k);
    let all = all_candidates(entries, cols);
    let any = |c: Candidate| true;
    let numbered = |c: Candidate| c.1 is Some;
    lemma_group_exists(all, k as i64, any);
    lemma_group_exists(all, k as i64, numbered);
    lemma_all_candidates_exists(entries, cols, k as i64, any);
    lemma_all_candidates_exists(entries, cols, k as i64, numbered);
    lemma_first_number_some(g);
    assert forall|j: int, i: int| 0 <= j < entries.len() && 0 <= i < entry_len(entries[j]) implies ((
    #[trigger] entry_candidates(entries[j], cols)[i]).0 == k as i64 <==> entry_index(entries[j], cols, i) == k)
        && (entry_candidates(entries[j], cols)[i].1.1 is Some <==> i == 0) by {
        lemma_entry_index_fits(entries[j], cols, i);
    }
    if exists|j: int, i: int|
        0 <= j < entries.len() && 0 <= i < entry_len(entries[j]) && #[trigger] entry_index(entries[j], cols, i) == k {
        let (j, i) = choose|j: int, i: int|
            0 <= j < entries.len() && 0 <= i < entry_len(entries[j]) && #[trigger] entry_index(entries[j], cols, i) == k;
        assert(any(entry_candidates(entries[j], cols)[i].1));
    }
    if exists|j: int| 0 <= j < entries.len() && entry_len(#[trigger] entries[j]) > 0 && entry_start(entries[j], cols) == k {
        let j = choose|j: int| 0 <= j < entries.len() && entry_len(#[trigger] entries[j]) > 0 && entry_start(entries[j], cols) == k;
        assert(entry_index(entries[j], cols, 0) == k);
        assert(numbered(entry_candidates(entries[j], cols)[0].1));
    }
    if g.len() > 0 {
        assert(any(g[0]));
    }
    if g.len() <= 2 && (cell_of(g) matches Cell::White { cell_data } && cell_data.number is Some) {
        let m = choose|m: int| 0 <= m < g.len() && (#[trigger] g[m]).1 is Some;
        assert(numbered(g[m]));
        let (j, i) = choose|j: int, i: int|
            0 <= j < entries.len() && 0 <= i < entry_len(entries[j]) && (#[trigger] entry_candidates(
                entries[j],
                cols,
            )[i]).0 == k as i64 && numbered(entry_candidates(entries[j], cols)[i].1);
        assert(i == 0);
    }
}

/// A square's cell depends on its first two candidates alone; any further
/// candidate is ignored.
pub proof fn lemma_cell_uses_first_two(c: Seq<Candidate>)
    ensures
        cell_of(c) == cell_of(first_two(c)),
{
    if c.len() > 2 {
        assert(first_two(first_two(c)) =~= first_two(c));
    }
}

/// The number of the first entry, in entry order, that starts on square `k`.
pub open spec fn first_start_number(entries: Seq<GuardianEntry>, cols: int, k: int) -> Option<i64>
    decreases entries.len(),
{
    if entries.len() == 0 {
        None
    } else {
        let prev = first_start_number(entries.drop_last(), cols, k);
        if prev is Some {
            prev
        } else if entry_len(entries.last()) > 0 && entry_start(entries.last(), cols) == k {
            Some(entries.last().number)
        } else {
            None
        }
    }
}

proof fn lemma_group_concat(a: Seq<(i64, Candidate)>, b: Seq<(i64, Candidate)>, k: i64)
    ensures
        group_of(a + b, k) == group_of(a, k) + group_of(b, k),
    decreases b.len(),
{
    if b.len() == 0 {
        assert(a + b =~= a);
        assert(group_of(a, k) + group_of(b, k) =~= group_of(a, k));
    } else {
        assert((a + b).drop_last() =~= a + b.drop_last());
        lemma_group_concat(a, b.drop_last(), k);
        if b.last().0 == k {
            assert(group_of(a, k) + group_of(b.drop_last(), k).push(b.last().1) =~= (group_of(a, k) + group_of(
                b.drop_last(),
                k,
            )).push(b.last().1));
        }
    }
}

proof fn lemma_first_number_concat(a: Seq<Candidate>, b: Seq<Candidate>)
    ensures
        first_number(a + b) == if first_number(a) is Some { first_number(a) } else { first_number(b) },
    decreases a.len(),
{
    if a.len() == 0 {
        assert(a + b =~= b);
    } else {
        assert((a + b).drop_first() =~= a.drop_first() + b);
        assert((a + b)[0] == a[0]);
        lemma_first_number_concat(a.drop_first(), b);
    }
}

proof fn lemma_entry_first_number(e: GuardianEntry, cols: int, k: int)
    requires
        cols >= 1,
        entry_fits(e, cols),
        i64::MIN <= k <= i64::MAX,
    ensures
        first_number(group_of(entry_candidates(e, cols), k as i64)) == if entry_len(e) > 0 && entry_start(e, cols) == k {
            Some(e.number)
        } else {
            None
        },
{
    let s = entry_candidates(e, cols);
    if entry_len(e) == 0 {
        assert(s.len() == 0);
    } else {
        let head = seq![s[0]];
        let rest = s.drop_first();
        assert(s =~= head + rest);
        lemma_group_concat(head, rest, k as i64);
        assert(head.drop_last() =~= Seq::<(i64, Candidate)>::empty());
        lemma_entry_index_fits(e, cols, 0);
        assert(entry_index(e, cols, 0) == entry_start(e, cols));
        let numbered = |c: Candidate| c.1 is Some;
        lemma_group_exists(rest, k as i64, numbered);
        assert forall|t: int| 0 <= t < rest.len() implies !numbered((#[trigger] rest[t]).1) by {
            assert(rest[t] == s[t + 1]);
        }
        let g = group_of(rest, k as i64);
        lemma_first_number_some(g);
        if first_number(g) is Some {
            let m = choose|m: int| 0 <= m < g.len() && (#[trigger] g[m]).1 is Some;
            assert(numbered(g[m]));
        }
        lemma_first_number_concat(group_of(head, k as i64), g);
        let gh = group_of(head, k as i64);
        assert(head.last() == s[0]);
        assert(group_of(head.drop_last(), k as i64) =~= Seq::<Candidate>::empty());
        assert(s[0].0 == entry_start(e, cols) as i64);
        if entry_start(e, cols) == k {
            assert(gh =~= seq![s[0].1]);
            assert(gh.drop_first().len() == 0);
            assert(s[0].1.1 == Some(e.number));
        } else {
            assert(gh =~= Seq::<Candidate>::empty());
            assert(gh + g =~= g);
        }
    }
}

proof fn lemma_first_number_is_first_start(entries: Seq<GuardianEntry>, cols: int, k: int)
    requires
        cols >= 1,
        forall|j: int| 0 <= j < entries.len() ==> entry_fits(#[trigger] entries[j], cols),
        i64::MIN <= k <= i64::MAX,
    ensures
        first_number(candidates_at(entries, cols, k)) == first_start_number(entries, cols, k),
    decreases entries.len(),
{
    if entries.len() > 0 {
        let rest = entries.drop_last();
        assert forall|j: int| 0 <= j < rest.len() implies entry_fits(#[trigger] rest[j], cols) by {
            assert(rest[j] == entries[j]);
        }
        lemma_first_number_is_first_start(rest, cols, k);
        assert(entries[entries.len() - 1] == entries.last());
        lemma_group_concat(all_candidates(rest, cols), entry_candidates(entries.last(), cols), k as i64);
        lemma_first_number_concat(
            candidates_at(rest, cols, k),
            group_of(entry_candidates(entries.last(), cols), k as i64),
        );
        lemma_entry_first_number(entries.last(), cols, k);
    }
}

/// Where at most two entries pass through a square, its number is that of
/// the first entry, in entry order, that starts on it.
pub proof fn lemma_cell_number_is_first_start(entries: Seq<GuardianEntry>, cols: int, k: int)
    requires
        cols >= 1,
        forall|j: int| 0 <= j < entries.len() ==> entry_fits(#[trigger] entries[j], cols),
        i64::MIN <= k <= i64::MAX,
        candidates_at(entries, cols, k).len() <= 2,
    ensures
        cell_of(candidates_at(entries, cols, k)) matches Cell::White { cell_data } ==> cell_data.number
            == first_start_number(entries, cols, k),
{
    lemma_first_number_is_first_start(entries, cols, k);
}

/// Cells are laid out row by row: square (`x`, `y`) of the grid is cell
/// `x + y * cols`, inside the grid, and no two squares share a cell.
pub proof fn lemma_row_major(cols: int, rows: int, x: int, y: int, x2: int, y2: int)
    requires
        0 <= x < cols,
        0 <= y < rows,
        0 <= x2 < cols,
        0 <= y2 < rows,
    ensures
        0 <= x + y * cols < cols * rows,
        x + y * cols == x2 + y2 * cols ==> x == x2 && y == y2,
{
    assert(0 <= y * cols <= (rows - 1) * cols) by (nonlinear_arith)
        requires 0 <= y < rows, cols > 0;
    assert((rows - 1) * cols + cols == rows * cols) by (nonlinear_arith);
    if y < y2 {
        assert((y + 1) * cols <= y2 * cols) by (nonlinear_arith)
            requires y + 1 <= y2, cols > 0;
        assert((y + 1) * cols == y * cols + cols) by (nonlinear_arith);
    } else if y2 < y {
        assert((y2 + 1) * cols <= y * cols) by (nonlinear_arith)
            requires y2 + 1 <= y, cols > 0;
        assert((y2 + 1) * cols == y2 * cols + cols) by (nonlinear_arith);
    }
}

} // verus!
