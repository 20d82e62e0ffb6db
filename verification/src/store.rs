//! The todo store: two ordered lists of single-line items, `pending` and
//! `done`. Every operation works on the lists in memory; reading the backing
//! files into the lists and writing them back is the caller's part.

use vstd::prelude::*;

use crate::lines::is_blank;
use crate::lines::lemma_visible_lines_empty;
use crate::lines::lemma_visible_lines_push;
use crate::lines::visible_lines;

verus! {

/// The one recoverable failure: the item asked for is not in the list that
/// the operation searches.
#[derive(Clone, Copy, Debug, PartialEq, Eq, Structural)]
pub enum TodoError {
    NotFound,
}

/// The list with its first occurrence of `x` taken out; the list itself when
/// `x` does not occur.
pub open spec fn remove_first(ls: Seq<Seq<char>>, x: Seq<char>) -> Seq<Seq<char>> {
    match ls.index_of_first(x) {
        Some(i) => ls.remove(i),
        None => ls,
    }
}

/// The two lists of a todo store, in display order.
pub struct TodoStore {
    /// Items not yet completed.
    pub pending: Vec<String>,
    /// Items marked completed.
    pub done: Vec<String>,
}

/// The position of the first item equal to `x`, scanning from the front.
fn find_first(items: &Vec<String>, x: &String) -> (r: Option<usize>)
    ensures
        match r {
            Some(i) => i < items@.len() && items.deep_view()[i as int] == x@ && forall|j: int|
                0 <= j < i ==> items.deep_view()[j] != x@,
            None => forall|j: int| 0 <= j < items@.len() ==> items.deep_view()[j] != x@,
        },
{
    let mut i: usize = 0;
    while i < items.len()
        invariant
            i <= items@.len(),
            forall|j: int| 0 <= j < i ==> items.deep_view()[j] != x@,
        decreases items@.len() - i,
    {
        if items[i] == *x {
            return Some(i);
        }
        i += 1;
    }
    None
}

impl TodoStore {
    /// A store with both lists empty.
    pub fn new() -> (s: Self)
        ensures
            s.pending.deep_view() == Seq::<Seq<char>>::empty(),
            s.done.deep_view() == Seq::<Seq<char>>::empty(),
    {
        let s = TodoStore { pending: Vec::new(), done: Vec::new() };
        proof {
            assert(s.pending.deep_view() =~= Seq::<Seq<char>>::empty());
            assert(s.done.deep_view() =~= Seq::<Seq<char>>::empty());
        }
        s
    }

    /// Appends `item` at the end of the pending list. Duplicates are allowed
    /// and kept as distinct entries; the done list is untouched.
    pub fn add(&mut self, item: String)
        ensures
            final(self).pending.deep_view() == old(self).pending.deep_view().push(item@),
            final(self).done == old(self).done,
    {
        let ghost prev = self.pending.deep_view();
        self.pending.push(item);
        proof {
            assert(self.pending.deep_view() =~= prev.push(item@));
        }
    }

    /// Moves the first occurrence of `item` from the pending list to the end
    /// of the done list. When `item` is not pending, returns `NotFound` and
    /// leaves both lists exactly as they were.
    pub fn mark_done(&mut self, item: &String) -> (r: Result<(), TodoError>)
        ensures
            ({
                let p0 = old(self).pending.deep_view();
                let d0 = old(self).done.deep_view();
                let p1 = final(self).pending.deep_view();
                let d1 = final(self).done.deep_view();
                match r {
                    Ok(_) => p0.contains(item@) && p1 == remove_first(p0, item@) && d1 == d0.push(
                        item@,
                    ),
                    Err(e) => e == TodoError::NotFound && !p0.contains(item@) && *final(self)
                        == *old(self),
                }
            }),
    {
        let pos = find_first(&self.pending, item);
        match pos {
            Some(i) => {
                let ghost p0 = self.pending.deep_view();
                let ghost d0 = self.done.deep_view();
                self.pending.remove(i);
                self.done.push(item.clone());
                proof {
                    lemma_first_match_is_index_of_first(p0, item@, i as int);
                    assert(self.pending.deep_view() =~= p0.remove(i as int));
                    assert(self.done.deep_view() =~= d0.push(item@));
                }
                Ok(())
            },
            None => {
                proof {
                    lemma_all_differ_means_absent(self.pending.deep_view(), item@);
                }
                Err(TodoError::NotFound)
            },
        }
    }

    /// Moves the first occurrence of `item` from the done list back to the
    /// end of the pending list. When `item` is not done, returns `NotFound`
    /// and leaves both lists exactly as they were.
    pub fn mark_undone(&mut self, item: &String) -> (r: Result<(), TodoError>)
        ensures
            ({
                let p0 = old(self).pending.deep_view();
                let d0 = old(self).done.deep_view();
                let p1 = final(self).pending.deep_view();
                let d1 = final(self).done.deep_view();
                match r {
                    Ok(_) => d0.contains(item@) && d1 == remove_first(d0, item@) && p1 == p0.push(
                        item@,
                    ),
                    Err(e) => e == TodoError::NotFound && !d0.contains(item@) && *final(self)
                        == *old(self),
                }
            }),
    {
        let pos = find_first(&self.done, item);
        match pos {
            Some(i) => {
                let ghost p0 = self.pending.deep_view();
                let ghost d0 = self.done.deep_view();
                self.done.remove(i);
                self.pending.push(item.clone());
                proof {
                    lemma_first_match_is_index_of_first(d0, item@, i as int);
                    assert(self.done.deep_view() =~= d0.remove(i as int));
                    assert(self.pending.deep_view() =~= p0.push(item@));
                }
                Ok(())
            },
            None => {
                proof {
                    lemma_all_differ_means_absent(self.done.deep_view(), item@);
                }
                Err(TodoError::NotFound)
            },
        }
    }

    /// Deletes the first occurrence of `item` from the pending list; later
    /// occurrences stay. The done list is never searched or changed. When
    /// `item` is not pending, returns `NotFound` and changes nothing.
    pub fn remove(&mut self, item: &String) -> (r: Result<(), TodoError>)
        ensures
            ({
                let p0 = old(self).pending.deep_view();
                let p1 = final(self).pending.deep_view();
                let done_kept = final(self).done == old(self).done;
                match r {
                    Ok(_) => p0.contains(item@) && p1 == remove_first(p0, item@) && done_kept,
                    Err(e) => e == TodoError::NotFound && !p0.contains(item@) && *final(self)
                        == *old(self),
                }
            }),
    {
        let pos = find_first(&self.pending, item);
        match pos {
            Some(i) => {
                let ghost p0 = self.pending.deep_view();
                self.pending.remove(i);
                proof {
                    lemma_first_match_is_index_of_first(p0, item@, i as int);
                    assert(self.pending.deep_view() =~= p0.remove(i as int));
                }
                Ok(())
            },
            None => {
                proof {
                    lemma_all_differ_means_absent(self.pending.deep_view(), item@);
                }
                Err(TodoError::NotFound)
            },
        }
    }

    /// Both lists for display: the pending list with its blank lines dropped
    /// (a display-only filter — storage keeps them), the done list whole.
    pub fn list_all(&self) -> (r: (Vec<String>, Vec<String>))
        ensures
            r.0.deep_view() == visible_lines(self.pending.deep_view()),
            r.1.deep_view() == self.done.deep_view(),
    {
        let mut shown: Vec<String> = Vec::new();
        let mut i: usize = 0;
        proof {
            lemma_visible_lines_empty();
            assert(self.pending.deep_view().subrange(0, 0) =~= Seq::<Seq<char>>::empty());
            assert(shown.deep_view() =~= Seq::<Seq<char>>::empty());
        }
        while i < self.pending.len()
            invariant
                i <= self.pending@.len(),
                shown.deep_view() == visible_lines(
                    self.pending.deep_view().subrange(0, i as int),
                ),
            decreases self.pending@.len() - i,
        {
            let ghost dv = self.pending.deep_view();
            let ghost prev = shown.deep_view();
            if !is_blank(&self.pending[i]) {
                shown.push(self.pending[i].clone());
                proof {
                    assert(shown.deep_view() =~= prev.push(dv[i as int]));
                }
            }
            proof {
                lemma_visible_lines_push(dv.subrange(0, i as int), dv[i as int]);
                assert(dv.subrange(0, i + 1) =~= dv.subrange(0, i as int).push(dv[i as int]));
            }
            i += 1;
        }
        proof {
            assert(self.pending.deep_view().subrange(0, self.pending@.len() as int)
                =~= self.pending.deep_view());
        }
        let done_copy = self.done.clone();
        proof {
            assert(done_copy.deep_view() =~= self.done.deep_view());
        }
        (shown, done_copy)
    }
}

/// When every item of the list differs from `x`, `x` is not in the list.
proof fn lemma_all_differ_means_absent(ls: Seq<Seq<char>>, x: Seq<char>)
    requires
        forall|j: int| 0 <= j < ls.len() ==> ls[j] != x,
    ensures
        !ls.contains(x),
{
}

/// An index holding `x` with only non-`x` items before it is the index that
/// `index_of_first` finds.
proof fn lemma_first_match_is_index_of_first(ls: Seq<Seq<char>>, x: Seq<char>, i: int)
    requires
        0 <= i < ls.len(),
        ls[i] == x,
        forall|j: int| 0 <= j < i ==> ls[j] != x,
    ensures
        ls.index_of_first(x) == Some(i),
{
    assert(ls.contains(x));
    ls.index_of_first_ensures(x);
    let k = ls.index_of_first(x).unwrap();
    if k < i {
        assert(ls[k] != x);
    }
    if i < k {
        assert(ls[i] != x);
    }
}

} // verus!
