//! Replacing the previews of a book's highlights with full passages.

use vstd::prelude::*;

use crate::amazon::Error;
use crate::models::HighlightView;
use crate::passages;
use crate::passages::CachedHighlights;
use crate::state;
use crate::state::{App, AppView};

verus! {

/// How the passages of a book are completed: not at all, after fetching the
/// highlights, or right away.
pub enum EnrichPlan {
    Nothing,
    Fetch,
    Complete(EnrichRun),
}

/// When the passages of a book are completed, if they are asked for.
pub enum EnrichTime {
    Never,
    Now,
    AfterFetch,
}

/// When the passages of a book are completed: at once where its highlights are
/// kept, even if they are about to be fetched anew, and else once they have
/// been fetched.
pub fn enrich_time(app: &App, asin: &str, enrich: bool) -> (r: EnrichTime)
    ensures
        match (enrich, state::kept_entry(app@.highlights, asin@)) {
            (false, _) => r is Never,
            (true, Some(_)) => r is Now,
            (true, None) => r is AfterFetch,
        },
{
    if !enrich {
        return EnrichTime::Never;
    }
    match app.kept_highlights().get(asin) {
        Some(_) => EnrichTime::Now,
        None => EnrichTime::AfterFetch,
    }
}

/// The passages of a book that are being fetched, and how many of them have
/// been dealt with.
pub struct EnrichRun {
    pub guid: String,
    pub revision: String,
    targets: Vec<(i64, i64)>,
    at: usize,
    fetched: bool,
}

pub struct EnrichView {
    pub guid: Seq<char>,
    pub revision: Seq<char>,
    pub targets: Seq<(i64, i64)>,
    pub at: int,
    pub fetched: bool,
}

impl View for EnrichRun {
    type V = EnrichView;

    closed spec fn view(&self) -> EnrichView {
        EnrichView {
            guid: self.guid@,
            revision: self.revision@,
            targets: self.targets@,
            at: self.at as int,
            fetched: self.fetched,
        }
    }
}

impl EnrichView {
    pub open spec fn valid(self) -> bool {
        0 <= self.at <= self.targets.len()
    }
}

/// The first passage, at or after `from`, that is not known yet.
pub open spec fn unknown_from(
    app: AppView,
    asin: Seq<char>,
    targets: Seq<(i64, i64)>,
    from: int,
) -> int
    decreases targets.len() - from,
{
    if from < 0 || from >= targets.len() {
        targets.len() as int
    } else if app.full_text(asin, targets[from].0, targets[from].1) is None {
        from
    } else {
        unknown_from(app, asin, targets, from + 1)
    }
}

impl EnrichRun {
    /// Starts with the highlights of a book, if there is an edition to copy
    /// from and a passage worth copying.
    pub fn new(entry: CachedHighlights) -> (r: Option<EnrichRun>)
        ensures
            match r {
                Some(run) => {
                    &&& entry@.copyable()
                    &&& passages::wanted_passages(entry@.items).len() > 0
                    &&& run@ == (EnrichView {
                        guid: entry@.guid,
                        revision: entry@.revision,
                        targets: passages::wanted_passages(entry@.items),
                        at: 0,
                        fetched: false,
                    })
                    &&& run@.valid()
                },
                None => !entry@.copyable() || passages::wanted_passages(entry@.items).len() == 0,
            },
    {
        if !entry.is_copyable() {
            return None;
        }
        let targets = entry.targets();
        if targets.len() == 0 {
            return None;
        }
        Some(
            EnrichRun {
                guid: entry.guid,
                revision: entry.revision,
                targets,
                at: 0,
                fetched: false,
            },
        )
    }

    /// Starts with what is kept for a book. Without an edition to copy from
    /// the highlights are fetched first.
    pub fn plan(app: &App, asin: &str) -> (r: EnrichPlan)
        ensures
            match (state::kept_entry(app@.highlights, asin@), r) {
                (None, EnrichPlan::Nothing) => true,
                (Some(entry), EnrichPlan::Fetch) => !entry.copyable(),
                (Some(entry), EnrichPlan::Nothing) => {
                    &&& entry.copyable()
                    &&& passages::wanted_passages(entry.items).len() == 0
                },
                (Some(entry), EnrichPlan::Complete(run)) => {
                    &&& entry.copyable()
                    &&& passages::wanted_passages(entry.items).len() > 0
                    &&& run@ == (EnrichView {
                        guid: entry.guid,
                        revision: entry.revision,
                        targets: passages::wanted_passages(entry.items),
                        at: 0,
                        fetched: false,
                    })
                    &&& run@.valid()
                },
                _ => false,
            },
    {
        match app.kept_highlights().get(asin) {
            Some(entry) => {
                if !entry.is_copyable() {
                    return EnrichPlan::Fetch;
                }
                match EnrichRun::new(entry.clone()) {
                    Some(run) => EnrichPlan::Complete(run),
                    None => EnrichPlan::Nothing,
                }
            },
            None => EnrichPlan::Nothing,
        }
    }

    /// The next passage to copy: passages that have become known meanwhile
    /// are passed over.
    pub fn next(&mut self, app: &App, asin: &str) -> (r: Option<(i64, i64)>)
        requires
            old(self)@.valid(),
        ensures
            final(self)@ == (EnrichView {
                at: unknown_from(app@, asin@, old(self)@.targets, old(self)@.at),
                ..old(self)@
            }),
            final(self)@.valid(),
            match r {
                Some(target) => {
                    &&& final(self)@.at < final(self)@.targets.len()
                    &&& target == final(self)@.targets[final(self)@.at]
                    &&& app@.full_text(asin@, target.0, target.1) is None
                },
                None => final(self)@.at == final(self)@.targets.len(),
            },
            old(self)@.at <= final(self)@.at,
            forall|i: int|
                old(self)@.at <= i < final(self)@.at ==> app@.full_text(
                    asin@,
                    (#[trigger] old(self)@.targets[i]).0,
                    old(self)@.targets[i].1,
                ) is Some,
    {
        let ghost start = self@;
        while self.at < self.targets.len()
            invariant
                start == old(self)@,
                self@ == (EnrichView { at: self.at as int, ..start }),
                start.at <= self.at,
                forall|i: int|
                    start.at <= i < self.at ==> app@.full_text(
                        asin@,
                        (#[trigger] start.targets[i]).0,
                        start.targets[i].1,
                    ) is Some,
                self.at <= self.targets@.len(),
                unknown_from(app@, asin@, start.targets, start.at) == unknown_from(
                    app@,
                    asin@,
                    start.targets,
                    self.at as int,
                ),
            decreases self.targets@.len() - self.at,
        {
            let target: (i64, i64) = self.targets[self.at];
            assert(start.targets == self.targets@);
            if app.cached_full_text(asin, target.0, target.1).is_none() {
                return Some(target);
            }
            self.at = self.at + 1;
        }
        None
    }

    /// Takes in the copy of the passage that was next. One that could not be
    /// copied is left as it is.
    pub fn record(&mut self, app: &mut App, asin: &str, copied: Result<String, Error>)
        requires
            old(self)@.valid(),
            old(self)@.at < old(self)@.targets.len(),
        ensures
            final(self)@ == (EnrichView {
                at: old(self)@.at + 1,
                fetched: old(self)@.fetched || copied is Ok,
                ..old(self)@
            }),
            final(self)@.valid(),
            match copied {
                Ok(text) => {
                    let target = old(self)@.targets[old(self)@.at];
                    final(app)@ == old(app)@.with_full_text(asin@, target.0, target.1, text@)
                },
                Err(_) => final(app)@ == old(app)@,
            },
    {
        let count: usize = self.targets.len();
        assert(self.at < count);
        let target: (i64, i64) = self.targets[self.at];
        self.at = self.at + 1;
        if let Ok(text) = copied {
            self.fetched = true;
            app.store_full_text(asin, target.0, target.1, text.as_str());
        }
    }

    /// A passage has been copied, so the session may have changed.
    pub fn has_fetched(&self) -> (r: bool)
        ensures
            r == self@.fetched,
    {
        self.fetched
    }
}

/// Every cut passage of a book whose edition is known is fetched: a run that
/// starts with the book's highlights has it among its targets.
pub proof fn lemma_cut_passages_are_targets(items: Seq<HighlightView>, i: int)
    requires
        0 <= i < items.len(),
        !items[i].verified,
        items[i].text.len() > 0,
        items[i].truncated || items[i].text.len() >= 80,
        items[i].start is Some,
        items[i].end is Some,
        items[i].start->0 < items[i].end->0,
    ensures
        passages::wanted_passages(items).contains((items[i].start->0, items[i].end->0)),
    decreases items.len(),
{
    let front = passages::wanted_passages(items.drop_last());
    let all = passages::wanted_passages(items);
    if i < items.len() - 1 {
        lemma_cut_passages_are_targets(items.drop_last(), i);
        let k = choose|k: int|
            0 <= k < front.len() && front[k] == (items[i].start->0, items[i].end->0);
        assert(all[k] == front[k]);
    } else {
        assert(all[front.len() as int] == (items[i].start->0, items[i].end->0));
    }
}

} // verus!
