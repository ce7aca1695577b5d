//! Paginated history retrieval: an accumulator that ingests one page of
//! timeline events at a time, preserving arrival order, and decides when the
//! pagination loop must stop — on an empty page (end of timeline) or once the
//! running tally of fetched events exceeds the runaway-protection cap.

use vstd::prelude::*;
use crate::events::EventRecord;

verus! {

/// The page-size ceiling requested per timeline page.
pub const DEFAULT_PAGE_LIMIT: u16 = 1000;

/// The default runaway-protection cap on the total number of fetched events.
pub const DEFAULT_HARD_CAP: u64 = 10_000_000;

/// What a page of events means for the pagination loop.
pub enum PageOutcome {
    /// The page held events and the cap is not exceeded: request the next page.
    Continue,
    /// The page was empty: the end of the timeline is reached.
    EndOfTimeline,
    /// The running tally went past the cap; the page was discarded.
    CapExceeded,
}

/// Accumulates a room's timeline pages into one ordered event sequence.
pub struct HistoryFetcher {
    pub events: Vec<EventRecord>,
    pub total_seen: u64,
    pub hard_cap: u64,
}

impl HistoryFetcher {
    /// The accumulator may go on ingesting while the tally is within the cap.
    pub open spec fn wf(&self) -> bool {
        self.total_seen <= self.hard_cap
    }

    /// An empty accumulator with the given runaway-protection cap.
    pub fn new(hard_cap: u64) -> (r: Self)
        ensures
            r.events@.len() == 0,
            r.total_seen == 0,
            r.hard_cap == hard_cap,
            r.wf(),
    {
        HistoryFetcher { events: Vec::new(), total_seen: 0, hard_cap }
    }

    /// Ingests the next page. An empty page ends the timeline; a page that
    /// pushes the tally past the cap is discarded and ends the fetch; any
    /// other page is appended in arrival order and the loop continues.
    pub fn ingest_page(&mut self, page: Vec<EventRecord>) -> (r: PageOutcome)
        requires
            old(self).wf(),
            old(self).hard_cap + page@.len() <= u64::MAX,
        ensures
            final(self).hard_cap == old(self).hard_cap,
            final(self).total_seen == old(self).total_seen + page@.len(),
            page@.len() == 0 ==> r is EndOfTimeline && final(self).events@ == old(self).events@,
            page@.len() > 0 && old(self).total_seen + page@.len() > old(self).hard_cap
                ==> (r is CapExceeded && final(self).events@ == old(self).events@),
            page@.len() > 0 && old(self).total_seen + page@.len() <= old(self).hard_cap
                ==> (r is Continue && final(self).events@ == old(self).events@ + page@
                && final(self).wf()),
    {
        let len = page.len();
        self.total_seen = self.total_seen + (len as u64);
        if len == 0 {
            proof {
                assert(self.events@ =~= old(self).events@);
            }
            return PageOutcome::EndOfTimeline;
        }
        if self.total_seen > self.hard_cap {
            return PageOutcome::CapExceeded;
        }
        let mut page = page;
        self.events.append(&mut page);
        PageOutcome::Continue
    }
}

} // verus!
