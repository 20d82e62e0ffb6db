//! The laws of the store, stated over the same sequences that the operation
//! contracts use: `add` keeps display order, a completed item leaves the
//! pending display and enters the done list, `mark_undone` inverts
//! `mark_done`, `remove` deletes exactly one occurrence, and a rendered pair
//! of lists reads back unchanged.

use vstd::prelude::*;

use crate::lines::is_blank_line;
use crate::lines::join_lines;
use crate::lines::lemma_split_at_first_newline;
use crate::lines::lemma_split_no_newline;
use crate::lines::lemma_visible_lines_empty;
use crate::lines::lemma_visible_lines_push;
use crate::lines::split_lines;
use crate::lines::visible_lines;
use crate::store::remove_first;

verus! {

/// A display keeps every line that is not blank, unchanged and in order.
pub proof fn lemma_visible_lines_all_kept(ls: Seq<Seq<char>>)
    requires
        forall|i: int| 0 <= i < ls.len() ==> !is_blank_line(ls[i]),
    ensures
        visible_lines(ls) == ls,
    decreases ls.len(),
{
    if ls.len() == 0 {
        lemma_visible_lines_empty();
        assert(visible_lines(ls) =~= ls);
    } else {
        let front = ls.drop_last();
        lemma_visible_lines_all_kept(front);
        lemma_visible_lines_push(front, ls.last());
        assert(front.push(ls.last()) =~= ls);
    }
}

/// Appending items to the pending list extends its display in exactly the
/// order they were added: displaying after any sequence of `add` calls shows
/// the old display followed by the added (non-blank) items.
pub proof fn lemma_add_keeps_order(init: Seq<Seq<char>>, items: Seq<Seq<char>>)
    requires
        forall|i: int| 0 <= i < items.len() ==> !is_blank_line(items[i]),
    ensures
        visible_lines(init + items) == visible_lines(init) + items,
    decreases items.len(),
{
    if items.len() == 0 {
        assert(init + items =~= init);
        assert(visible_lines(init) + items =~= visible_lines(init));
    } else {
        let front = items.drop_last();
        lemma_add_keeps_order(init, front);
        lemma_visible_lines_push(init + front, items.last());
        assert((init + front).push(items.last()) =~= init + items);
        assert((visible_lines(init) + front).push(items.last()) =~= visible_lines(init) + items);
    }
}

/// A line absent from storage is absent from the display.
pub proof fn lemma_visible_lines_subset(ls: Seq<Seq<char>>, x: Seq<char>)
    requires
        !ls.contains(x),
    ensures
        !visible_lines(ls).contains(x),
    decreases ls.len(),
{
    if ls.len() == 0 {
        lemma_visible_lines_empty();
    } else {
        let front = ls.drop_last();
        assert(forall|i: int| 0 <= i < front.len() ==> front[i] == ls[i]);
        assert(!front.contains(x));
        lemma_visible_lines_subset(front, x);
        lemma_visible_lines_push(front, ls.last());
        assert(front.push(ls.last()) =~= ls);
        assert(ls.last() != x);
        if !is_blank_line(ls.last()) {
            let shown = visible_lines(front).push(ls.last());
            assert(forall|i: int| 0 <= i < shown.len() ==> shown[i] != x);
        }
    }
}

/// Marking an item done hides it: when the item occurs once in pending,
/// the pending list after `mark_done` no longer holds it (so the display no
/// longer shows it), and the done list now ends with it.
pub proof fn lemma_done_hides_item(pending: Seq<Seq<char>>, done: Seq<Seq<char>>, x: Seq<char>)
    requires
        pending.contains(x),
        forall|i: int, j: int| 0 <= i < j < pending.len() && pending[i] == x ==> pending[j] != x,
    ensures
        !remove_first(pending, x).contains(x),
        !visible_lines(remove_first(pending, x)).contains(x),
        done.push(x).last() == x,
        done.push(x).contains(x),
{
    pending.index_of_first_ensures(x);
    let k = pending.index_of_first(x).unwrap();
    let rest = pending.remove(k);
    assert forall|j: int| 0 <= j < rest.len() implies rest[j] != x by {
        if j < k {
            assert(rest[j] == pending[j]);
        } else {
            assert(rest[j] == pending[j + 1]);
            assert(pending[k] == x && k < j + 1 < pending.len());
        }
    }
    assert(!rest.contains(x));
    lemma_visible_lines_subset(rest, x);
}

/// `mark_undone` inverts `mark_done`: after an item moves to done and back,
/// the done list is exactly what it was, and the pending list ends with the
/// item. Holds whenever the item was pending and not yet done.
pub proof fn lemma_undone_inverts_done(pending: Seq<Seq<char>>, done: Seq<Seq<char>>, x: Seq<char>)
    requires
        pending.contains(x),
        !done.contains(x),
    ensures
        done.push(x).contains(x),
        remove_first(done.push(x), x) == done,
        remove_first(pending, x).push(x).last() == x,
{
    let moved = done.push(x);
    assert(moved.last() == x);
    moved.index_of_first_ensures(x);
    let k = moved.index_of_first(x).unwrap();
    if k < done.len() {
        assert(moved[k] == done[k]);
        assert(done.contains(x));
    }
    assert(k == done.len());
    assert(moved.remove(k) =~= done);
}

/// `remove` deletes exactly one occurrence: the removed item's multiplicity
/// drops by one and every other item keeps its multiplicity, so remaining
/// duplicates stay intact.
pub proof fn lemma_remove_first_multiset(ls: Seq<Seq<char>>, x: Seq<char>)
    requires
        ls.contains(x),
    ensures
        remove_first(ls, x).to_multiset() == ls.to_multiset().remove(x),
        remove_first(ls, x).to_multiset().count(x) == ls.to_multiset().count(x) - 1,
        forall|y: Seq<char>|
            y != x ==> remove_first(ls, x).to_multiset().count(y) == ls.to_multiset().count(y),
{
    broadcast use vstd::seq_lib::group_to_multiset_ensures;
    broadcast use vstd::multiset::group_multiset_axioms;

    ls.index_of_first_ensures(x);
    let k = ls.index_of_first(x).unwrap();
    assert(ls.remove(k).to_multiset() =~= ls.to_multiset().remove(ls[k]));
    assert(ls.to_multiset().count(x) > 0);
}

/// What is rendered is read back unchanged: splitting the joined lines gives
/// the lines themselves, for any non-empty list of newline-free lines. The
/// stored lists therefore survive a rewrite of the backing file exactly.
pub proof fn lemma_lines_round_trip(ls: Seq<Seq<char>>)
    requires
        ls.len() > 0,
        forall|i: int, j: int|
            0 <= i < ls.len() && 0 <= j < ls[i].len() ==> #[trigger] ls[i][j] != '\n',
    ensures
        split_lines(join_lines(ls)) == ls,
    decreases ls.len(),
{
    if ls.len() == 1 {
        lemma_split_no_newline(ls[0]);
        assert(seq![ls[0]] =~= ls);
    } else {
        let rest = ls.drop_first();
        let joined = ls[0] + seq!['\n'] + join_lines(rest);
        let k = ls[0].len() as int;
        assert(joined[k] == '\n');
        assert(forall|i: int| 0 <= i < k ==> joined[i] == ls[0][i]);
        lemma_split_at_first_newline(joined, k);
        assert(joined.subrange(0, k) =~= ls[0]);
        assert(joined.subrange(k + 1, joined.len() as int) =~= join_lines(rest));
        assert(forall|i: int, j: int|
            0 <= i < rest.len() && 0 <= j < rest[i].len() ==> #[trigger] rest[i][j] != '\n');
        lemma_lines_round_trip(rest);
        assert(seq![ls[0]] + rest =~= ls);
    }
}

} // verus!
