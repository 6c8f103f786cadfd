//! Whole streams of rows.

use vstd::prelude::*;
use crate::common::{logged, rows_view, Logger, ProcessEvent, ProcessEventView, Row, RowView};
use crate::engine::Engine;
use crate::ledger::LedgerView;

verus! {

/// Tells the logger, if there is one, of `event`.
fn notify(logger: &mut Option<Logger>, event: &ProcessEvent)
    ensures
        logged(*old(logger), *final(logger), seq![event@]),
{
    match logger {
        Some(l) => {
            let ghost before = l@;
            l.log(event);
            assert(before.push(event@) =~= before + seq![event@]);
        },
        None => {},
    }
}

/// A stream that is one row longer runs as the shorter one and then takes the
/// step of the new row.
proof fn lemma_run_next(start: LedgerView, rows: Seq<RowView>, i: int)
    requires
        0 <= i < rows.len(),
        rows.len() <= usize::MAX,
    ensures
        ({
            let before = start.run(rows.take(i));
            let step = before.state.step(i as usize, rows[i]);
            let after = start.run(rows.take(i + 1));
            &&& after.state == step.state
            &&& after.events == match step.event {
                Some(e) => before.events.push(e),
                None => before.events,
            }
        }),
{
    assert(rows.take(i + 1).drop_last() =~= rows.take(i));
    assert(rows.take(i + 1).last() == rows[i]);
}

impl Engine {
    /// Applies the rows of `rows` in order, the first as row 0, for as long as
    /// each can be applied, and tells `logger` of every rejected row's event.
    ///
    /// The result counts the rows that were applied. It is the length of
    /// `rows` unless a row could not be applied: then the result is that row's
    /// index, and neither it nor any later row has been looked at.
    pub fn checked_process(&mut self, rows: &Vec<Row>, logger: &mut Option<Logger>) -> (done:
        usize)
        ensures
            done <= rows.len(),
            old(self)@.all_applicable(rows_view(rows@).take(done as int)),
            done < rows.len() ==> !old(self)@.run(
                rows_view(rows@).take(done as int),
            ).state.applicable(rows[done as int]@),
            final(self)@ == old(self)@.run(rows_view(rows@).take(done as int)).state,
            logged(
                *old(logger),
                *final(logger),
                old(self)@.run(rows_view(rows@).take(done as int)).events,
            ),
            old(self)@.well_formed() ==> final(self)@.well_formed(),
    {
        let ghost start = self@;
        let ghost all = rows_view(rows@);
        let mut i: usize = 0;
        assert(all.take(0) =~= Seq::<RowView>::empty());
        proof {
            if let Some(b) = *old(logger) {
                b.lemma_continued_by_itself();
                assert(b@ + Seq::<ProcessEventView>::empty() =~= b@);
            }
        }
        while i < rows.len()
            invariant
                i <= rows.len(),
                start == old(self)@,
                all == rows_view(rows@),
                start.well_formed() ==> self@.well_formed(),
                start.all_applicable(all.take(i as int)),
                self@ == start.run(all.take(i as int)).state,
                logged(*old(logger), *logger, start.run(all.take(i as int)).events),
            decreases rows.len() - i,
        {
            let ghost before = start.run(all.take(i as int));
            let ghost seen = *logger;
            proof {
                lemma_run_next(start, all, i as int);
            }
            match self.checked_apply(i, &rows[i]) {
                None => {
                    return i;
                },
                Some(None) => {},
                Some(Some(event)) => {
                    notify(logger, &event);
                    proof {
                        if let Some(b) = *old(logger) {
                            b.lemma_continued_further(&seen.unwrap(), &logger.unwrap());
                            assert(b@ + before.events.push(event@) =~= (b@ + before.events)
                                + seq![event@]);
                        }
                    }
                },
            }
            proof {
                let longer = all.take(i + 1);
                assert forall|j: int| 0 <= j < longer.len() implies #[trigger] start.run(
                    longer.take(j),
                ).state.applicable(longer[j]) by {
                    assert(longer.take(j) =~= all.take(j));
                    if j < i {
                        assert(all.take(i as int).take(j) =~= all.take(j));
                        assert(all.take(i as int)[j] == all[j]);
                    }
                }
            }
            i += 1;
        }
        assert(all.take(i as int) =~= all);
        i
    }

    /// Applies the rows of `rows` in order, the first as row 0, and tells
    /// `logger` of every rejected row's event. No row stops the pass: a
    /// rejected row is skipped and the next one is taken up.
    pub fn process_transactions(
        &mut self,
        rows: &Vec<Row>,
        logger: &mut Option<Logger>,
    ) -> (r: ProcessEvent)
        requires
            old(self)@.all_applicable(rows_view(rows@)),
        ensures
            final(self)@ == old(self)@.run(rows_view(rows@)).state,
            logged(*old(logger), *final(logger), old(self)@.run(rows_view(rows@)).events),
            r@ == ProcessEventView::ProcessComplete,
            old(self)@.well_formed() ==> final(self)@.well_formed(),
    {
        let ghost all = rows_view(rows@);
        let done = self.checked_process(rows, logger);
        proof {
            if done < rows.len() {
                assert(all[done as int] == rows[done as int]@);
                assert(old(self)@.run(all.take(done as int)).state.applicable(all[done as int]));
            }
            assert(all.take(rows@.len() as int) =~= all);
        }
        ProcessEvent::ProcessComplete
    }
}

} // verus!
