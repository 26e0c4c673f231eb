use vstd::prelude::*;

use crate::models::{SolutionItem, SolutionItemDto};

verus! {

/// The square a stored item belongs to.
pub open spec fn pos_of(item: SolutionItem) -> (i64, i64) {
    (item.x, item.y)
}

/// A solution as a map from square to item; where two items share a square,
/// the later one counts.
pub open spec fn solution_map(s: Seq<SolutionItem>) -> Map<(i64, i64), SolutionItem>
    decreases s.len(),
{
    if s.len() == 0 {
        Map::empty()
    } else {
        solution_map(s.drop_last()).insert(pos_of(s.last()), s.last())
    }
}

/// No two items of the solution share a square.
pub open spec fn positions_unique(s: Seq<SolutionItem>) -> bool {
    forall|i: int, j: int| 0 <= i < j < s.len() ==> pos_of(#[trigger] s[i]) != pos_of(#[trigger] s[j])
}

/// The stored item that an edit by `user` becomes.
pub open spec fn stamped(e: SolutionItemDto, user: String) -> SolutionItem {
    SolutionItem { x: e.x, y: e.y, value: e.value, modified_by: user }
}

/// An edit changes the solution unless its square already holds its value.
pub open spec fn edit_changes(m: Map<(i64, i64), SolutionItem>, e: SolutionItemDto) -> bool {
    !(m.contains_key((e.x, e.y)) && m[(e.x, e.y)].value@ == e.value@)
}

/// The solution after a batch of edits to the stored solution `m`: every edit
/// that changes `m` is stamped and stored, in batch order, so that of two
/// such edits to one square the later stays; the others are dropped.
pub open spec fn merged(
    m: Map<(i64, i64), SolutionItem>,
    batch: Seq<SolutionItemDto>,
    user: String,
) -> Map<(i64, i64), SolutionItem>
    decreases batch.len(),
{
    if batch.len() == 0 {
        m
    } else if edit_changes(m, batch.last()) {
        merged(m, batch.drop_last(), user).insert((batch.last().x, batch.last().y), stamped(batch.last(), user))
    } else {
        merged(m, batch.drop_last(), user)
    }
}

/// The edits of a batch that change the stored solution `m`, in batch order.
pub open spec fn changed_edits(m: Map<(i64, i64), SolutionItem>, batch: Seq<SolutionItemDto>) -> Seq<
    SolutionItemDto,
> {
    batch.filter(|e: SolutionItemDto| edit_changes(m, e))
}

proof fn lemma_map_lookup(s: Seq<SolutionItem>, i: int)
    requires
        positions_unique(s),
        0 <= i < s.len(),
    ensures
        solution_map(s).contains_key(pos_of(s[i])),
        solution_map(s)[pos_of(s[i])] == s[i],
    decreases s.len(),
{
    if i < s.len() - 1 {
        assert(s.drop_last()[i] == s[i]);
        assert(pos_of(s[i]) != pos_of(s[s.len() - 1]));
        lemma_map_lookup(s.drop_last(), i);
    }
}

proof fn lemma_map_absent(s: Seq<SolutionItem>, k: (i64, i64))
    requires
        forall|i: int| 0 <= i < s.len() ==> pos_of(#[trigger] s[i]) != k,
    ensures
        !solution_map(s).contains_key(k),
    decreases s.len(),
{
    if s.len() > 0 {
        assert(pos_of(s[s.len() - 1]) != k);
        assert forall|i: int| 0 <= i < s.drop_last().len() implies pos_of(#[trigger] s.drop_last()[i]) != k by {
            assert(s.drop_last()[i] == s[i]);
        }
        lemma_map_absent(s.drop_last(), k);
    }
}

proof fn lemma_map_update(s: Seq<SolutionItem>, i: int, item: SolutionItem)
    requires
        positions_unique(s),
        0 <= i < s.len(),
        pos_of(item) == pos_of(s[i]),
    ensures
        solution_map(s.update(i, item)) == solution_map(s).insert(pos_of(item), item),
    decreases s.len(),
{
    let t = s.update(i, item);
    if i == s.len() - 1 {
        assert(t.drop_last() =~= s.drop_last());
        assert(solution_map(t) =~= solution_map(s).insert(pos_of(item), item));
    } else {
        assert(t.drop_last() =~= s.drop_last().update(i, item));
        assert(s.drop_last()[i] == s[i]);
        lemma_map_update(s.drop_last(), i, item);
        assert(pos_of(s[i]) != pos_of(s[s.len() - 1]));
        assert(solution_map(t) =~= solution_map(s).insert(pos_of(item), item));
    }
}

/// Where an item of square (`x`, `y`) stands.
fn find_position(items: &Vec<SolutionItem>, x: i64, y: i64) -> (r: Option<usize>)
    ensures
        r matches Some(i) ==> i < items@.len() && pos_of(items@[i as int]) == (x, y),
        r is None ==> forall|i: int| 0 <= i < items@.len() ==> pos_of(#[trigger] items@[i]) != (x, y),
{
    let mut i: usize = 0;
    while i < items.len()
        invariant
            0 <= i <= items@.len(),
            forall|j: int| 0 <= j < i ==> pos_of(#[trigger] items@[j]) != (x, y),
        decreases items@.len() - i,
    {
        if items[i].x == x && items[i].y == y {
            return Some(i);
        }
        i = i + 1;
    }
    None
}

/// Stores `item` in its square, replacing what stood there.
fn put_item(items: &mut Vec<SolutionItem>, item: SolutionItem)
    requires
        positions_unique(old(items)@),
    ensures
        positions_unique(final(items)@),
        solution_map(final(items)@) == solution_map(old(items)@).insert(pos_of(item), item),
{
    match find_position(items, item.x, item.y) {
        Some(i) => {
            proof {
                lemma_map_update(items@, i as int, item);
            }
            items.set(i, item);
        },
        None => {
            items.push(item);
            proof {
                assert(items@.drop_last() =~= old(items)@);
            }
        },
    }
}

fn copy_item(item: &SolutionItem) -> (r: SolutionItem)
    ensures
        r == *item,
{
    SolutionItem { x: item.x, y: item.y, value: item.value.clone(), modified_by: item.modified_by.clone() }
}

/// Merges a batch of edits by `modifier` into a team's stored solution.
///
/// Each edit is compared with the stored solution: one that finds its square
/// empty or holding another value is stamped with `modifier` and stored,
/// the later of two such edits to one square staying. Returns the updated
/// solution, one item per square, and the edits that changed something, in
/// batch order.
pub fn merge_solution(
    current: &Vec<SolutionItem>,
    incoming: &Vec<SolutionItemDto>,
    modifier: &String,
) -> (r: (Vec<SolutionItem>, Vec<SolutionItemDto>))
    ensures
        positions_unique(r.0@),
        solution_map(r.0@) == merged(solution_map(current@), incoming@, *modifier),
        r.1@ == changed_edits(solution_map(current@), incoming@),
{
    let mut stored: Vec<SolutionItem> = Vec::new();
    let mut items: Vec<SolutionItem> = Vec::new();
    let mut i: usize = 0;
    while i < current.len()
        invariant
            0 <= i <= current@.len(),
            positions_unique(stored@),
            positions_unique(items@),
            solution_map(stored@) == solution_map(current@.take(i as int)),
            solution_map(items@) == solution_map(current@.take(i as int)),
        decreases current@.len() - i,
    {
        assert(current@.take(i + 1).drop_last() =~= current@.take(i as int));
        put_item(&mut stored, copy_item(&current[i]));
        put_item(&mut items, copy_item(&current[i]));
        i = i + 1;
    }
    assert(current@.take(i as int) =~= current@);
    let ghost start = solution_map(current@);
    let mut changed: Vec<SolutionItemDto> = Vec::new();
    let mut j: usize = 0;
    while j < incoming.len()
        invariant
            0 <= j <= incoming@.len(),
            start == solution_map(current@),
            positions_unique(stored@),
            solution_map(stored@) == start,
            positions_unique(items@),
            solution_map(items@) == merged(start, incoming@.take(j as int), *modifier),
            changed@ == changed_edits(start, incoming@.take(j as int)),
        decreases incoming@.len() - j,
    {
        let ghost before = incoming@.take(j as int);
        assert(incoming@.take(j + 1).drop_last() =~= before);
        assert(incoming@.take(j + 1).last() == incoming@[j as int]);
        proof {
            reveal_with_fuel(Seq::filter, 1);
        }
        let e = &incoming[j];
        let same = match find_position(&stored, e.x, e.y) {
            Some(p) => {
                proof {
                    lemma_map_lookup(stored@, p as int);
                }
                stored[p].value == e.value
            },
            None => {
                proof {
                    lemma_map_absent(stored@, (e.x, e.y));
                }
                false
            },
        };
        if !same {
            put_item(
                &mut items,
                SolutionItem { x: e.x, y: e.y, value: e.value.clone(), modified_by: modifier.clone() },
            );
            changed.push(SolutionItemDto { x: e.x, y: e.y, value: e.value.clone() });
        }
        j = j + 1;
    }
    assert(incoming@.take(j as int) =~= incoming@);
    (items, changed)
}

/// No two edits of the batch put different values in one square.
pub open spec fn batch_consistent(batch: Seq<SolutionItemDto>) -> bool {
    forall|i: int, j: int|
        0 <= i < batch.len() && 0 <= j < batch.len() && (#[trigger] batch[i]).x == (#[trigger] batch[j]).x
            && batch[i].y == batch[j].y ==> batch[i].value@ == batch[j].value@
}

/// Every edit of the batch is already in place in `m`.
pub open spec fn batch_in_place(m: Map<(i64, i64), SolutionItem>, batch: Seq<SolutionItemDto>) -> bool {
    forall|i: int| 0 <= i < batch.len() ==> !edit_changes(m, #[trigger] batch[i])
}

/// No edit of the batch touches square `k`.
pub open spec fn untouched(batch: Seq<SolutionItemDto>, k: (i64, i64)) -> bool {
    forall|i: int| 0 <= i < batch.len() ==> ((#[trigger] batch[i]).x, batch[i].y) != k
}

/// No edit of the batch to square `k` changes `m`.
pub open spec fn keeps_square(m: Map<(i64, i64), SolutionItem>, batch: Seq<SolutionItemDto>, k: (i64, i64)) -> bool {
    forall|i: int| 0 <= i < batch.len() && ((#[trigger] batch[i]).x, batch[i].y) == k ==> !edit_changes(m, batch[i])
}

proof fn lemma_merged_keeps(m: Map<(i64, i64), SolutionItem>, batch: Seq<SolutionItemDto>, user: String, k: (i64, i64))
    requires
        keeps_square(m, batch, k),
    ensures
        merged(m, batch, user).contains_key(k) == m.contains_key(k),
        m.contains_key(k) ==> merged(m, batch, user)[k] == m[k],
    decreases batch.len(),
{
    if batch.len() > 0 {
        let prefix = batch.drop_last();
        assert forall|i: int| 0 <= i < prefix.len() && ((#[trigger] prefix[i]).x, prefix[i].y) == k implies !edit_changes(
            m,
            prefix[i],
        ) by {
            assert(prefix[i] == batch[i]);
        }
        lemma_merged_keeps(m, prefix, user, k);
        assert(batch[batch.len() - 1] == batch.last());
    }
}

proof fn lemma_merged_in_place(m: Map<(i64, i64), SolutionItem>, batch: Seq<SolutionItemDto>, user: String)
    requires
        batch_consistent(batch),
    ensures
        batch_in_place(merged(m, batch, user), batch),
    decreases batch.len(),
{
    if batch.len() > 0 {
        let prefix = batch.drop_last();
        let last = batch.len() - 1;
        let l = batch.last();
        assert(batch[last] == l);
        assert(batch_consistent(prefix)) by {
            assert forall|i: int, j: int|
                0 <= i < prefix.len() && 0 <= j < prefix.len() && (#[trigger] prefix[i]).x == (
                #[trigger] prefix[j]).x && prefix[i].y == prefix[j].y implies prefix[i].value@
                == prefix[j].value@ by {
                assert(prefix[i] == batch[i] && prefix[j] == batch[j]);
            }
        }
        lemma_merged_in_place(m, prefix, user);
        if !edit_changes(m, l) {
            assert forall|i: int| 0 <= i < prefix.len() && ((#[trigger] prefix[i]).x, prefix[i].y) == (l.x, l.y) implies !edit_changes(
                m,
                prefix[i],
            ) by {
                assert(prefix[i] == batch[i]);
            }
            lemma_merged_keeps(m, prefix, user, (l.x, l.y));
        }
        assert forall|i: int| 0 <= i < batch.len() implies !edit_changes(merged(m, batch, user), #[trigger] batch[i]) by {
            if i < last {
                assert(prefix[i] == batch[i]);
                assert(!edit_changes(merged(m, prefix, user), prefix[i]));
            }
        }
    }
}

/// A batch whose every edit puts in its square the value that square already
/// holds changes nothing and reports no changed edit, so it leads to no store
/// write and no broadcast.
pub proof fn lemma_unchanged_batch_is_silent(m: Map<(i64, i64), SolutionItem>, batch: Seq<SolutionItemDto>, user: String)
    requires
        batch_in_place(m, batch),
    ensures
        merged(m, batch, user) == m,
        changed_edits(m, batch) == Seq::<SolutionItemDto>::empty(),
    decreases batch.len(),
{
    reveal_with_fuel(Seq::filter, 1);
    if batch.len() > 0 {
        let prefix = batch.drop_last();
        assert forall|i: int| 0 <= i < prefix.len() implies !edit_changes(m, #[trigger] prefix[i]) by {
            assert(prefix[i] == batch[i]);
        }
        lemma_unchanged_batch_is_silent(m, prefix, user);
        assert(!edit_changes(m, batch[batch.len() - 1]));
    }
}

/// Merging a batch a second time, against the solution its first merge
/// produced, changes nothing and reports no changed edit, provided no two
/// edits of the batch put different values in one square.
pub proof fn lemma_merge_idempotent(current: Seq<SolutionItem>, batch: Seq<SolutionItemDto>, user: String)
    requires
        batch_consistent(batch),
    ensures
        merged(merged(solution_map(current), batch, user), batch, user) == merged(
            solution_map(current),
            batch,
            user,
        ),
        changed_edits(merged(solution_map(current), batch, user), batch).len() == 0,
{
    let once = merged(solution_map(current), batch, user);
    lemma_merged_in_place(solution_map(current), batch, user);
    lemma_unchanged_batch_is_silent(once, batch, user);
}

/// Merging batch `a` and then batch `b`, on squares that `a` does not touch,
/// keeps the edits of both: each edited square ends with its edit's value,
/// and every other square is as it was; provided neither batch puts two
/// different values in one square.
pub proof fn lemma_merge_keeps_unrelated_edits(
    current: Seq<SolutionItem>,
    a: Seq<SolutionItemDto>,
    user_a: String,
    b: Seq<SolutionItemDto>,
    user_b: String,
)
    requires
        batch_consistent(a),
        batch_consistent(b),
        forall|i: int, j: int|
            0 <= i < a.len() && 0 <= j < b.len() ==> ((#[trigger] a[i]).x, a[i].y) != ((#[trigger] b[j]).x, b[j].y),
    ensures
        batch_in_place(merged(merged(solution_map(current), a, user_a), b, user_b), a),
        batch_in_place(merged(merged(solution_map(current), a, user_a), b, user_b), b),
        forall|k: (i64, i64)|
            #[trigger] untouched(a, k) && untouched(b, k) ==> {
                let fin = merged(merged(solution_map(current), a, user_a), b, user_b);
                &&& fin.contains_key(k) == solution_map(current).contains_key(k)
                &&& solution_map(current).contains_key(k) ==> fin[k] == solution_map(current)[k]
            },
{
    let start = solution_map(current);
    let mid = merged(start, a, user_a);
    let fin = merged(mid, b, user_b);
    lemma_merged_in_place(start, a, user_a);
    lemma_merged_in_place(mid, b, user_b);
    assert forall|i: int| 0 <= i < a.len() implies !edit_changes(fin, #[trigger] a[i]) by {
        let k = (a[i].x, a[i].y);
        assert forall|j: int| 0 <= j < b.len() && ((#[trigger] b[j]).x, b[j].y) == k implies !edit_changes(mid, b[j]) by {
            assert(((a[i]).x, a[i].y) != ((b[j]).x, b[j].y));
        }
        lemma_merged_keeps(mid, b, user_b, k);
    }
    assert forall|k: (i64, i64)| #[trigger] untouched(a, k) && untouched(b, k) implies {
        &&& fin.contains_key(k) == start.contains_key(k)
        &&& start.contains_key(k) ==> fin[k] == start[k]
    } by {
        lemma_merged_keeps(start, a, user_a, k);
        lemma_merged_keeps(mid, b, user_b, k);
    }
}

/// In a stored solution with one item per square, a batch whose every edit
/// repeats the value stored at its square changes nothing and reports no
/// changed edit, so it leads to no store write and no broadcast.
pub proof fn lemma_repeated_values_are_silent(stored: Seq<SolutionItem>, batch: Seq<SolutionItemDto>, user: String)
    requires
        positions_unique(stored),
        forall|b: int|
            0 <= b < batch.len() ==> exists|i: int|
                0 <= i < stored.len() && pos_of(stored[i]) == ((#[trigger] batch[b]).x, batch[b].y)
                    && stored[i].value@ == batch[b].value@,
    ensures
        merged(solution_map(stored), batch, user) == solution_map(stored),
        changed_edits(solution_map(stored), batch).len() == 0,
{
    assert forall|b: int| 0 <= b < batch.len() implies !edit_changes(solution_map(stored), #[trigger] batch[b]) by {
        let i = choose|i: int|
            0 <= i < stored.len() && pos_of(stored[i]) == (batch[b].x, batch[b].y) && stored[i].value@ == batch[b].value@;
        lemma_map_lookup(stored, i);
    }
    lemma_unchanged_batch_is_silent(solution_map(stored), batch, user);
}

} // verus!
