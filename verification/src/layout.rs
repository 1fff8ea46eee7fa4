//! How results are laid out for the caller: lists as spans of one flat
//! column, and a table of records as chunks of a fixed size.

use vstd::prelude::*;
use crate::outcome::{Outcome, OutcomeView, ResultEntry};
use crate::protocol::text_views;

verus! {

/// The number of rows that a table hands out at a time.
pub const CHUNK_ROWS: usize = 2048;

/// Where the list of one row lies in the flat column of all list items.
#[derive(Clone, Copy, Debug, PartialEq, Eq, Structural)]
pub enum ListEntry {
    /// The row is null.
    Null,
    /// The row's list is the `length` items from `offset` on.
    Span { offset: usize, length: usize },
}

/// The layout of a column of lists.
#[derive(Debug, PartialEq, Eq)]
pub struct ListLayout {
    /// One entry for each row.
    pub entries: Vec<ListEntry>,
    /// The items of all the lists, row after row.
    pub child: Vec<String>,
}

/// The outcomes of a sequence of result entries.
pub open spec fn outcome_views(results: Seq<ResultEntry>) -> Seq<OutcomeView> {
    Seq::new(results.len(), |i: int| results[i].outcome@)
}

/// The items of the lists among `outcomes`, row after row.
pub open spec fn flattened(outcomes: Seq<OutcomeView>) -> Seq<Seq<char>>
    decreases outcomes.len(),
{
    if outcomes.len() == 0 {
        Seq::empty()
    } else {
        flattened(outcomes.drop_last()) + match outcomes.last() {
            OutcomeView::List(items) => items,
            _ => Seq::empty(),
        }
    }
}

/// The entry of row `i`: null for a row that has no list, and for a list
/// the span that begins where the items of the rows before it end.
pub open spec fn entry_at(outcomes: Seq<OutcomeView>, i: int) -> ListEntry {
    match outcomes[i] {
        OutcomeView::List(items) => ListEntry::Span {
            offset: flattened(outcomes.take(i)).len() as usize,
            length: items.len() as usize,
        },
        _ => ListEntry::Null,
    }
}

/// Lays out the lists of `results` in one flat column. A row whose outcome
/// is no list is null.
pub fn list_layout(results: &Vec<ResultEntry>) -> (layout: ListLayout)
    ensures
        layout.entries@.len() == results@.len(),
        text_views(layout.child@) == flattened(outcome_views(results@)),
        forall|i: int|
            0 <= i < results@.len() ==> #[trigger] layout.entries@[i] == entry_at(
                outcome_views(results@),
                i,
            ),
{
    let ghost outcomes = outcome_views(results@);
    let mut entries: Vec<ListEntry> = Vec::new();
    let mut child: Vec<String> = Vec::new();
    let mut i: usize = 0;
    while i < results.len()
        invariant
            i <= results.len(),
            outcomes == outcome_views(results@),
            entries@.len() == i,
            text_views(child@) == flattened(outcomes.take(i as int)),
            forall|j: int| 0 <= j < i ==> #[trigger] entries@[j] == entry_at(outcomes, j),
        decreases results.len() - i,
    {
        proof {
            assert(outcomes.take(i + 1).drop_last() =~= outcomes.take(i as int));
            assert(outcomes.take(i + 1).last() == outcomes[i as int]);
            assert(outcomes[i as int] == results@[i as int].outcome@);
            assert(text_views(child@).len() == child@.len());
        }
        match &results[i].outcome {
            Outcome::List(items) => {
                let offset = child.len();
                let ghost start = child@;
                let mut k: usize = 0;
                while k < items.len()
                    invariant
                        k <= items.len(),
                        text_views(child@) == text_views(start) + text_views(items@).take(
                            k as int,
                        ),
                    decreases items.len() - k,
                {
                    let item = items[k].clone();
                    let ghost before = child@;
                    child.push(item);
                    k += 1;
                    proof {
                        let all = text_views(items@);
                        assert(text_views(child@) =~= text_views(before).push(items@[k - 1]@));
                        assert(all.take(k as int) =~= all.take(k - 1).push(items@[k - 1]@));
                        assert(text_views(child@) =~= text_views(start) + all.take(k as int));
                    }
                }
                assert(text_views(items@).take(items.len() as int) =~= text_views(items@));
                assert(text_views(items@).len() == items@.len());
                entries.push(ListEntry::Span { offset, length: items.len() });
            },
            _ => {
                assert(text_views(child@) + Seq::<Seq<char>>::empty() =~= text_views(child@));
                entries.push(ListEntry::Null);
            },
        }
        i += 1;
    }
    assert(outcomes.take(results.len() as int) =~= outcomes);
    ListLayout { entries, child }
}

/// A table of records that is handed out in chunks.
#[derive(Debug)]
pub struct RecordTable {
    records: Vec<String>,
    position: usize,
}

impl RecordTable {
    /// The texts of all the records of the table.
    pub closed spec fn records(&self) -> Seq<Seq<char>> {
        text_views(self.records@)
    }

    /// The number of records that have been handed out.
    pub closed spec fn position(&self) -> nat {
        self.position as nat
    }

    /// No more records have been handed out than there are.
    #[verifier::type_invariant]
    pub open spec fn wf(&self) -> bool {
        self.position() <= self.records().len()
    }

    /// The end of the chunk that begins at `position`.
    pub open spec fn chunk_end(&self) -> nat {
        if self.position() + CHUNK_ROWS <= self.records().len() {
            self.position() + CHUNK_ROWS as nat
        } else {
            self.records().len()
        }
    }

    /// A table of `records`, none of them handed out yet.
    pub fn new(records: Vec<String>) -> (table: RecordTable)
        ensures
            table.records() == text_views(records@),
            table.position() == 0,
    {
        RecordTable { records, position: 0 }
    }

    /// The next chunk of the table: the records that follow those handed
    /// out so far, `CHUNK_ROWS` of them or as many as are left. It is empty
    /// once all of them have been handed out.
    pub fn next_chunk(&mut self) -> (chunk: Vec<String>)
        ensures
            final(self).records() == old(self).records(),
            final(self).position() == old(self).chunk_end(),
            text_views(chunk@) == old(self).records().subrange(
                old(self).position() as int,
                old(self).chunk_end() as int,
            ),
    {
        proof {
            use_type_invariant(&*self);
        }
        let n = self.records.len();
        let start = self.position;
        assert(text_views(self.records@).len() == n);
        let end = if n - start >= CHUNK_ROWS {
            start + CHUNK_ROWS
        } else {
            n
        };
        let mut chunk: Vec<String> = Vec::new();
        let mut i: usize = start;
        while i < end
            invariant
                start <= i <= end <= n,
                n == self.records.len(),
                text_views(chunk@) == text_views(self.records@).subrange(start as int, i as int),
            decreases end - i,
        {
            let record = self.records[i].clone();
            let ghost before = chunk@;
            chunk.push(record);
            i += 1;
            proof {
                let all = text_views(self.records@);
                assert(text_views(chunk@) =~= text_views(before).push(self.records@[i - 1]@));
                assert(all.subrange(start as int, i as int) =~= all.subrange(
                    start as int,
                    i - 1,
                ).push(self.records@[i - 1]@));
            }
        }
        self.position = end;
        chunk
    }
}

} // verus!
