//! The highlights that are kept for each book, and the full passages that
//! replace their previews.

use vstd::prelude::*;

use crate::keyed::Keyed;
use crate::models;
use crate::models::{Highlight, HighlightView, Highlights};

verus! {

/// For how many seconds highlights count as fresh.
pub const HIGHLIGHTS_TTL: u64 = 1800;

/// From this length on, a text may be a preview that was cut.
pub const PREVIEW_SUSPECT_LENGTH: usize = 80;

/// The highlights of a book, when they were fetched, and the edition that they
/// were made in.
pub struct CachedHighlights {
    pub fetched_at: u64,
    pub guid: String,
    pub revision: String,
    pub items: Vec<Highlight>,
}

pub struct EntryView {
    pub fetched_at: u64,
    pub guid: Seq<char>,
    pub revision: Seq<char>,
    pub items: Seq<HighlightView>,
}

impl View for CachedHighlights {
    type V = EntryView;

    open spec fn view(&self) -> EntryView {
        EntryView {
            fetched_at: self.fetched_at,
            guid: self.guid@,
            revision: self.revision@,
            items: models::highlight_views(self.items@),
        }
    }
}

impl Clone for CachedHighlights {
    fn clone(&self) -> (r: Self)
        ensures
            r@ == self@,
    {
        CachedHighlights {
            fetched_at: self.fetched_at,
            guid: self.guid.clone(),
            revision: self.revision.clone(),
            items: models::copy_highlights(&self.items),
        }
    }
}

impl EntryView {
    pub open spec fn fresh(self, now: u64) -> bool {
        now - self.fetched_at < HIGHLIGHTS_TTL
    }

    /// The edition is known, so passages can be copied from it.
    pub open spec fn copyable(self) -> bool {
        self.guid.len() > 0 && self.revision.len() > 0
    }
}

impl CachedHighlights {
    pub fn into_highlights(self, asin: &str) -> (r: Highlights)
        ensures
            r@ == models::book_highlights(asin@, self@.items),
    {
        let ghost views = self@.items;
        let mut limited = false;
        for i in 0..self.items.len()
            invariant
                views == self@.items,
                limited == models::any_truncated(views.take(i as int)),
        {
            proof {
                assert(views.take(i + 1) == views.take(i as int).push(views[i as int]));
                models::lemma_truncated_push(views.take(i as int), views[i as int]);
            }
            limited = limited || self.items[i].truncated;
        }
        assert(views.take(views.len() as int) == views);
        Highlights { asin: asin.to_owned(), count: self.items.len(), limited, items: self.items }
    }

    pub fn is_fresh(&self, now: u64) -> (r: bool)
        ensures
            r == self@.fresh(now),
            r <==> now < self@.fetched_at + 1800,
    {
        now.saturating_sub(self.fetched_at) < HIGHLIGHTS_TTL
    }

    pub fn is_copyable(&self) -> (r: bool)
        ensures
            r == self@.copyable(),
            r <==> self@.guid.len() > 0 && self@.revision.len() > 0,
    {
        !self.guid.as_str().is_empty() && !self.revision.as_str().is_empty()
    }
}

/// The highlights of every book that they were fetched for.
pub struct HighlightsCache {
    pub books: Keyed<CachedHighlights>,
}

/// The item marks the passage between two positions, and its text is the whole
/// passage where `verified` asks for that.
pub open spec fn marks(item: HighlightView, start: i64, end: i64, verified: bool) -> bool {
    item.start == Some(start) && item.end == Some(end) && (verified ==> item.verified)
}

/// The first item, at or after `from`, that marks a passage.
pub open spec fn marked_from(
    items: Seq<HighlightView>,
    start: i64,
    end: i64,
    verified: bool,
    from: int,
) -> Option<int>
    decreases items.len() - from,
{
    if from < 0 || from >= items.len() {
        None
    } else if marks(items[from], start, end, verified) {
        Some(from)
    } else {
        marked_from(items, start, end, verified, from + 1)
    }
}

proof fn lemma_marked(items: Seq<HighlightView>, start: i64, end: i64, verified: bool, from: int)
    requires
        0 <= from,
    ensures
        match marked_from(items, start, end, verified, from) {
            Some(at) => from <= at < items.len() && marks(items[at], start, end, verified),
            None => true,
        },
    decreases items.len() - from,
{
    if from < items.len() && !marks(items[from], start, end, verified) {
        lemma_marked(items, start, end, verified, from + 1);
    }
}

fn find_marked(items: &Vec<Highlight>, start: i64, end: i64, verified: bool) -> (r: Option<usize>)
    ensures
        match (r, marked_from(models::highlight_views(items@), start, end, verified, 0)) {
            (Some(at), Some(first)) => at == first && at < items@.len(),
            (None, None) => true,
            _ => false,
        },
{
    let ghost views = models::highlight_views(items@);
    let mut i: usize = 0;
    while i < items.len()
        invariant
            i <= items@.len(),
            views == models::highlight_views(items@),
            marked_from(views, start, end, verified, 0) == marked_from(
                views,
                start,
                end,
                verified,
                i as int,
            ),
        decreases items@.len() - i,
    {
        assert(views[i as int] == items@[i as int].deep_view());
        let item = &items[i];
        let here = match (item.start, item.end) {
            (Some(item_start), Some(item_end)) => item_start == start && item_end == end,
            _ => false,
        };
        if here && (!verified || item.verified) {
            return Some(i);
        }
        i = i + 1;
    }
    None
}

/// The item with the text of an earlier full passage between the same
/// positions, unless its own is longer.
pub open spec fn merged_item(known: Seq<HighlightView>, item: HighlightView) -> HighlightView {
    match (item.start, item.end) {
        (Some(start), Some(end)) => match marked_from(known, start, end, true, 0) {
            Some(at) if known[at].text.len() >= item.text.len() => HighlightView {
                text: known[at].text,
                truncated: false,
                verified: true,
                ..item
            },
            _ => item,
        },
        _ => item,
    }
}

/// The items with the full passages that an earlier entry holds.
pub open spec fn merged(previous: Option<EntryView>, items: Seq<HighlightView>) -> Seq<HighlightView> {
    match previous {
        Some(entry) => Seq::new(items.len(), |i: int| merged_item(entry.items, items[i])),
        None => items,
    }
}

/// Keeps the full texts fetched earlier when a refresh brings back previews.
pub fn merge_full_texts(previous: Option<&CachedHighlights>, items: Vec<Highlight>) -> (r: Vec<
    Highlight,
>)
    ensures
        models::highlight_views(r@) == merged(
            match previous {
                Some(entry) => Some(entry@),
                None => None,
            },
            models::highlight_views(items@),
        ),
{
    let previous = match previous {
        Some(previous) => previous,
        None => {
            return items;
        },
    };
    let ghost known = previous@.items;
    let ghost views = models::highlight_views(items@);
    let ghost wanted = merged(Some(previous@), views);
    let mut out: Vec<Highlight> = Vec::new();
    let mut i: usize = 0;
    while i < items.len()
        invariant
            i <= items@.len(),
            known == models::highlight_views(previous.items@),
            views == models::highlight_views(items@),
            wanted == Seq::new(views.len(), |k: int| merged_item(known, views[k])),
            models::highlight_views(out@) == wanted.take(i as int),
        decreases items@.len() - i,
    {
        let ghost before = models::highlight_views(out@);
        let mut item = items[i].clone();
        assert(views[i as int] == item.deep_view());
        match (item.start, item.end) {
            (Some(start), Some(end)) => {
                match find_marked(&previous.items, start, end, true) {
                    Some(at) => {
                        assert(known[at as int] == previous.items@[at as int].deep_view());
                        if previous.items[at].text.as_str().unicode_len()
                            >= item.text.as_str().unicode_len() {
                            item.text = previous.items[at].text.clone();
                            item.truncated = false;
                            item.verified = true;
                        }
                    },
                    None => {},
                }
            },
            _ => {},
        }
        let ghost view = item.deep_view();
        assert(view == wanted[i as int]);
        out.push(item);
        assert(models::highlight_views(out@) == before.push(view));
        assert(wanted.take(i + 1) == wanted.take(i as int).push(wanted[i as int]));
        i = i + 1;
    }
    assert(models::highlight_views(out@) == wanted);
    out
}

/// A refresh keeps every highlight, in its place, and changes nothing of it
/// but the text and what is said of the text.
pub proof fn lemma_merge_keeps_items(previous: EntryView, items: Seq<HighlightView>, i: int)
    requires
        0 <= i < items.len(),
    ensures
        merged(Some(previous), items).len() == items.len(),
        merged(Some(previous), items)[i] == (HighlightView {
            text: merged(Some(previous), items)[i].text,
            truncated: merged(Some(previous), items)[i].truncated,
            verified: merged(Some(previous), items)[i].verified,
            ..items[i]
        }),
{
}

/// A refresh never loses a full passage that was fetched earlier to a shorter
/// text: the passage stays, whole, unless what came back is longer.
pub proof fn lemma_merge_keeps_passages(
    previous: EntryView,
    items: Seq<HighlightView>,
    i: int,
    start: i64,
    end: i64,
)
    requires
        0 <= i < items.len(),
        items[i].start == Some(start),
        items[i].end == Some(end),
        marked_from(previous.items, start, end, true, 0) is Some,
    ensures
        ({
            let old = previous.items[marked_from(previous.items, start, end, true, 0)->0];
            let new = merged(Some(previous), items)[i];
            &&& old.verified
            &&& new.text.len() >= old.text.len()
            &&& old.text.len() >= items[i].text.len() ==> new.text == old.text && new.verified
                && !new.truncated
            &&& old.text.len() < items[i].text.len() ==> new == items[i]
        }),
{
    lemma_marked(previous.items, start, end, true, 0);
}

/// A refresh marks no text as a full passage that was not one before.
pub proof fn lemma_merge_invents_nothing(previous: EntryView, items: Seq<HighlightView>, i: int)
    requires
        0 <= i < items.len(),
        !items[i].verified,
        merged(Some(previous), items)[i].verified,
    ensures
        exists|k: int|
            0 <= k < previous.items.len() && (#[trigger] previous.items[k]).verified
                && previous.items[k].text == merged(Some(previous), items)[i].text,
{
    let start = items[i].start->0;
    let end = items[i].end->0;
    lemma_marked(previous.items, start, end, true, 0);
    let at = marked_from(previous.items, start, end, true, 0)->0;
    assert(previous.items[at].verified);
}

/// A refresh that brings back what the last one did changes nothing. What
/// Amazon lists is never marked as a full passage.
pub proof fn lemma_merge_again(previous: EntryView, items: Seq<HighlightView>, again: EntryView)
    requires
        forall|i: int| 0 <= i < items.len() ==> !(#[trigger] items[i]).verified,
        again.items == merged(Some(previous), items),
    ensures
        merged(Some(again), items) == again.items,
{
    let known = previous.items;
    assert forall|i: int| 0 <= i < items.len() implies merged_item(again.items, items[i])
        == #[trigger] again.items[i] by {
        let item = items[i];
        assert(again.items[i] == merged_item(known, item));
        if item.start is Some && item.end is Some {
            let start = item.start->0;
            let end = item.end->0;
            lemma_marked(again.items, start, end, true, 0);
            lemma_marked_first(again.items, start, end, true, 0);
            match marked_from(again.items, start, end, true, 0) {
                Some(at) => {
                    assert(again.items[at] == merged_item(known, items[at]));
                    assert(!items[at].verified);
                    assert(items[at].start == Some(start) && items[at].end == Some(end));
                    assert(again.items[at].text == known[marked_from(
                        known,
                        start,
                        end,
                        true,
                        0,
                    )->0].text);
                },
                None => {
                    assert(!marks(again.items[i], start, end, true));
                },
            }
        }
    }
    assert(merged(Some(again), items) == again.items);
}

proof fn lemma_marked_first(
    items: Seq<HighlightView>,
    start: i64,
    end: i64,
    verified: bool,
    from: int,
)
    requires
        0 <= from,
    ensures
        marked_from(items, start, end, verified, from) is None ==> forall|i: int|
            from <= i < items.len() ==> !marks(#[trigger] items[i], start, end, verified),
    decreases items.len() - from,
{
    if from < items.len() && !marks(items[from], start, end, verified) {
        lemma_marked_first(items, start, end, verified, from + 1);
    }
}

/// The full passage between two positions, if it is known.
pub open spec fn full_text(entry: EntryView, start: i64, end: i64) -> Option<Seq<char>> {
    match marked_from(entry.items, start, end, false, 0) {
        Some(at) if entry.items[at].verified && entry.items[at].text.len() > 0 => Some(
            entry.items[at].text,
        ),
        _ => None,
    }
}

/// An item after its full passage has been fetched: the longer text is kept.
pub open spec fn completed(item: HighlightView, text: Seq<char>) -> HighlightView {
    HighlightView {
        text: if text.len() > item.text.len() {
            text
        } else {
            item.text
        },
        truncated: false,
        verified: true,
        ..item
    }
}

/// The entry after the full passage between two positions has been fetched.
pub open spec fn with_full_text(entry: EntryView, start: i64, end: i64, text: Seq<char>) -> EntryView {
    match marked_from(entry.items, start, end, false, 0) {
        Some(at) => EntryView {
            items: entry.items.update(at, completed(entry.items[at], text)),
            ..entry
        },
        None => entry,
    }
}

impl CachedHighlights {
    /// The full passage between two positions, if it is known.
    pub fn full_text(&self, start: i64, end: i64) -> (r: Option<String>)
        ensures
            match (r, full_text(self@, start, end)) {
                (Some(text), Some(view)) => text@ == view,
                (None, None) => true,
                _ => false,
            },
    {
        match find_marked(&self.items, start, end, false) {
            Some(at) => {
                let item = &self.items[at];
                assert(self@.items[at as int] == item.deep_view());
                if item.verified && !item.text.as_str().is_empty() {
                    Some(item.text.clone())
                } else {
                    None
                }
            },
            None => None,
        }
    }

    /// Takes in the full passage between two positions, and says whether it
    /// belongs to one of the items.
    pub fn store_full_text(&mut self, start: i64, end: i64, text: &str) -> (r: bool)
        ensures
            r == (marked_from(old(self)@.items, start, end, false, 0) is Some),
            r <==> exists|i: int|
                0 <= i < old(self)@.items.len() && (#[trigger] old(self)@.items[i]).start == Some(
                    start,
                ) && old(self)@.items[i].end == Some(end),
            final(self)@ == with_full_text(old(self)@, start, end, text@),
    {
        proof {
            lemma_marked(self@.items, start, end, false, 0);
            lemma_marked_first(self@.items, start, end, false, 0);
        }
        match find_marked(&self.items, start, end, false) {
            Some(at) => {
                let ghost before = self@;
                let mut item = self.items[at].clone();
                assert(before.items[at as int] == item.deep_view());
                if text.unicode_len() > item.text.as_str().unicode_len() {
                    item.text = text.to_owned();
                }
                item.truncated = false;
                item.verified = true;
                let ghost view = item.deep_view();
                self.items.set(at, item);
                assert(models::highlight_views(self.items@) == before.items.update(at as int, view));
                true
            },
            None => false,
        }
    }
}

proof fn lemma_marked_after_update(
    items: Seq<HighlightView>,
    start: i64,
    end: i64,
    at: int,
    item: HighlightView,
    from: int,
)
    requires
        0 <= from <= at,
        marked_from(items, start, end, false, from) == Some(at),
        0 <= at < items.len(),
        marks(item, start, end, false),
    ensures
        marked_from(items.update(at, item), start, end, false, from) == Some(at),
    decreases at - from,
{
    if from < at && !marks(items[from], start, end, false) {
        lemma_marked_after_update(items, start, end, at, item, from + 1);
    }
}

/// A passage that was fetched is served from then on, and never shorter than
/// it was fetched.
pub proof fn lemma_stored_text_is_served(entry: EntryView, start: i64, end: i64, text: Seq<char>)
    requires
        text.len() > 0,
        marked_from(entry.items, start, end, false, 0) is Some,
    ensures
        full_text(with_full_text(entry, start, end, text), start, end) matches Some(served)
            && served.len() >= text.len(),
        entry.items[marked_from(entry.items, start, end, false, 0)->0].text.len() < text.len()
            ==> full_text(with_full_text(entry, start, end, text), start, end) == Some(text),
{
    lemma_marked(entry.items, start, end, false, 0);
    let at = marked_from(entry.items, start, end, false, 0)->0;
    lemma_marked_after_update(
        entry.items,
        start,
        end,
        at,
        completed(entry.items[at], text),
        0,
    );
}

/// Fetching a passage leaves every other highlight as it was.
pub proof fn lemma_stored_text_keeps_others(
    entry: EntryView,
    start: i64,
    end: i64,
    text: Seq<char>,
    i: int,
)
    requires
        0 <= i < entry.items.len(),
        marked_from(entry.items, start, end, false, 0) != Some(i),
    ensures
        with_full_text(entry, start, end, text).items.len() == entry.items.len(),
        with_full_text(entry, start, end, text).items[i] == entry.items[i],
        with_full_text(entry, start, end, text).guid == entry.guid,
        with_full_text(entry, start, end, text).revision == entry.revision,
        with_full_text(entry, start, end, text).fetched_at == entry.fetched_at,
{
    lemma_marked(entry.items, start, end, false, 0);
}

/// A highlight whose text may be a preview, with the positions of the whole.
pub open spec fn wants_passage(item: HighlightView) -> bool {
    &&& !item.verified
    &&& item.text.len() > 0
    &&& item.truncated || item.text.len() >= PREVIEW_SUSPECT_LENGTH
    &&& item.start matches Some(start) && item.end matches Some(end) && end > start
}

/// The passages that are worth fetching, in the order of the items.
pub open spec fn wanted_passages(items: Seq<HighlightView>) -> Seq<(i64, i64)>
    decreases items.len(),
{
    if items.len() == 0 {
        Seq::empty()
    } else {
        let front = wanted_passages(items.drop_last());
        let item = items.last();
        if wants_passage(item) {
            front.push((item.start->0, item.end->0))
        } else {
            front
        }
    }
}

impl CachedHighlights {
    /// The passages that are worth fetching.
    pub fn targets(&self) -> (r: Vec<(i64, i64)>)
        ensures
            r@ == wanted_passages(self@.items),
            forall|start: i64, end: i64| #[trigger]
                r@.contains((start, end)) <==> exists|k: int|
                    {
                        &&& 0 <= k < self@.items.len()
                        &&& (#[trigger] self@.items[k]).start == Some(start)
                        &&& self@.items[k].end == Some(end)
                        &&& start < end
                        &&& !self@.items[k].verified
                        &&& self@.items[k].text.len() > 0
                        &&& self@.items[k].truncated || self@.items[k].text.len() >= 80
                    },
    {
        let ghost views = self@.items;
        let mut out: Vec<(i64, i64)> = Vec::new();
        for i in 0..self.items.len()
            invariant
                views == self@.items,
                out@ == wanted_passages(views.take(i as int)),
        {
            let item = &self.items[i];
            proof {
                assert(views.take(i + 1).drop_last() == views.take(i as int));
                assert(views.take(i + 1).last() == item.deep_view());
            }
            let length: usize = item.text.as_str().unicode_len();
            if !item.verified && length > 0 && (item.truncated || length
                >= PREVIEW_SUSPECT_LENGTH) {
                match (item.start, item.end) {
                    (Some(start), Some(end)) => {
                        if end > start {
                            out.push((start, end));
                        }
                    },
                    _ => {},
                }
            }
        }
        proof {
            assert(views.take(views.len() as int) == views);
            assert forall|start: i64, end: i64| #[trigger]
                out@.contains((start, end)) <==> exists|k: int|
                    {
                        &&& 0 <= k < views.len()
                        &&& (#[trigger] views[k]).start == Some(start)
                        &&& views[k].end == Some(end)
                        &&& start < end
                        &&& !views[k].verified
                        &&& views[k].text.len() > 0
                        &&& views[k].truncated || views[k].text.len() >= 80
                    } by {
                lemma_every_cut_text_is_wanted(views, start, end);
            }
        }
        out
    }
}

/// The passages that are worth fetching are those of the items, in their order:
/// one for each item whose text is not known to be whole, is not empty, and is
/// cut or so long that it may be, and whose positions lie apart; and no other.
pub proof fn lemma_passages_follow_items(items: Seq<HighlightView>) -> (order: Seq<int>)
    ensures
        order.len() == wanted_passages(items).len(),
        forall|i: int, j: int| 0 <= i < j < order.len() ==> order[i] < order[j],
        forall|i: int|
            0 <= i < order.len() ==> {
                &&& 0 <= #[trigger] order[i] < items.len()
                &&& items[order[i]].start == Some(wanted_passages(items)[i].0)
                &&& items[order[i]].end == Some(wanted_passages(items)[i].1)
            },
        forall|k: int|
            0 <= k < items.len() ==> (order.contains(k) <==> !(#[trigger] items[k]).verified
                && items[k].text.len() > 0 && (items[k].truncated || items[k].text.len() >= 80)
                && items[k].start is Some && items[k].end is Some && items[k].start->0
                < items[k].end->0),
    decreases items.len(),
{
    if items.len() == 0 {
        Seq::empty()
    } else {
        let front = items.drop_last();
        let before = lemma_passages_follow_items(front);
        let last = items.len() - 1;
        let order = if wants_passage(items[last]) {
            before.push(last)
        } else {
            before
        };
        assert forall|i: int| 0 <= i < order.len() implies {
            &&& 0 <= #[trigger] order[i] < items.len()
            &&& items[order[i]].start == Some(wanted_passages(items)[i].0)
            &&& items[order[i]].end == Some(wanted_passages(items)[i].1)
        } by {
            if i < before.len() {
                assert(order[i] == before[i]);
                assert(front[before[i]] == items[before[i]]);
            }
        }
        assert forall|k: int| 0 <= k < items.len() implies (order.contains(k) <==> !(
        #[trigger] items[k]).verified && items[k].text.len() > 0 && (items[k].truncated
            || items[k].text.len() >= 80) && items[k].start is Some && items[k].end is Some
            && items[k].start->0 < items[k].end->0) by {
            if k < last {
                assert(front[k] == items[k]);
                if before.contains(k) {
                    let at = choose|at: int| 0 <= at < before.len() && before[at] == k;
                    assert(order[at] == k);
                }
                if order.contains(k) {
                    let at = choose|at: int| 0 <= at < order.len() && order[at] == k;
                    assert(before[at] == k);
                }
            } else if wants_passage(items[last]) {
                assert(order[before.len() as int] == last);
            } else if order.contains(k) {
                let at = choose|at: int| 0 <= at < order.len() && order[at] == k;
                assert(before[at] == last);
            }
        }
        order
    }
}

/// Every item that is not known to be whole, has a text that is cut or so long
/// that it may be, and has its positions apart, is worth fetching; and nothing
/// else is.
pub proof fn lemma_every_cut_text_is_wanted(items: Seq<HighlightView>, start: i64, end: i64)
    ensures
        wanted_passages(items).contains((start, end)) <==> exists|k: int|
            {
                &&& 0 <= k < items.len()
                &&& (#[trigger] items[k]).start == Some(start)
                &&& items[k].end == Some(end)
                &&& start < end
                &&& !items[k].verified
                &&& items[k].text.len() > 0
                &&& items[k].truncated || items[k].text.len() >= 80
            },
{
    let order = lemma_passages_follow_items(items);
    let wanted = wanted_passages(items);
    if wanted.contains((start, end)) {
        let i = choose|i: int| 0 <= i < wanted.len() && wanted[i] == (start, end);
        assert(order.contains(order[i]));
        assert(items[order[i]].start == Some(start));
    }
    if exists|k: int|
        {
            &&& 0 <= k < items.len()
            &&& (#[trigger] items[k]).start == Some(start)
            &&& items[k].end == Some(end)
            &&& start < end
            &&& !items[k].verified
            &&& items[k].text.len() > 0
            &&& items[k].truncated || items[k].text.len() >= 80
        } {
        let k = choose|k: int|
            {
                &&& 0 <= k < items.len()
                &&& (#[trigger] items[k]).start == Some(start)
                &&& items[k].end == Some(end)
                &&& start < end
                &&& !items[k].verified
                &&& items[k].text.len() > 0
                &&& items[k].truncated || items[k].text.len() >= 80
            };
        assert(order.contains(k));
        let i = choose|i: int| 0 <= i < order.len() && order[i] == k;
        assert(wanted[i] == (start, end));
    }
}

proof fn lemma_marked_is_first(
    items: Seq<HighlightView>,
    start: i64,
    end: i64,
    verified: bool,
    from: int,
    at: int,
)
    requires
        0 <= from <= at < items.len(),
        marks(items[at], start, end, verified),
        forall|i: int| from <= i < at ==> !marks(#[trigger] items[i], start, end, verified),
    ensures
        marked_from(items, start, end, verified, from) == Some(at),
    decreases at - from,
{
    if from < at {
        lemma_marked_is_first(items, start, end, verified, from + 1, at);
    }
}

proof fn lemma_not_marked(
    items: Seq<HighlightView>,
    start: i64,
    end: i64,
    verified: bool,
    from: int,
)
    requires
        0 <= from,
        forall|i: int|
            from <= i < items.len() ==> !marks(#[trigger] items[i], start, end, verified),
    ensures
        marked_from(items, start, end, verified, from) is None,
    decreases items.len() - from,
{
    if from < items.len() {
        lemma_not_marked(items, start, end, verified, from + 1);
    }
}

/// What came back takes the text of the first whole passage between the same
/// positions, where that is no shorter; a longer text stays.
pub proof fn lemma_merge_takes_the_first_passage(
    previous: EntryView,
    items: Seq<HighlightView>,
    i: int,
    start: i64,
    end: i64,
    at: int,
)
    requires
        0 <= i < items.len(),
        items[i].start == Some(start),
        items[i].end == Some(end),
        0 <= at < previous.items.len(),
        previous.items[at].verified,
        previous.items[at].start == Some(start),
        previous.items[at].end == Some(end),
        forall|k: int|
            0 <= k < at && (#[trigger] previous.items[k]).start == Some(start)
                && previous.items[k].end == Some(end) ==> !previous.items[k].verified,
    ensures
        previous.items[at].text.len() >= items[i].text.len() ==> merged(Some(previous), items)[i]
            == (HighlightView {
            text: previous.items[at].text,
            truncated: false,
            verified: true,
            ..items[i]
        }),
        previous.items[at].text.len() < items[i].text.len() ==> merged(Some(previous), items)[i]
            == items[i],
{
    lemma_marked_is_first(previous.items, start, end, true, 0, at);
}

/// What came back stays as it is where no whole passage between the same
/// positions was known.
pub proof fn lemma_merge_leaves_the_rest(
    previous: EntryView,
    items: Seq<HighlightView>,
    i: int,
)
    requires
        0 <= i < items.len(),
        forall|k: int|
            0 <= k < previous.items.len() && (#[trigger] previous.items[k]).verified ==> !(
            items[i].start is Some && items[i].end is Some && previous.items[k].start
                == items[i].start && previous.items[k].end == items[i].end),
    ensures
        merged(Some(previous), items)[i] == items[i],
        merged(None, items) == items,
{
    if items[i].start is Some && items[i].end is Some {
        lemma_not_marked(previous.items, items[i].start->0, items[i].end->0, true, 0);
    }
}

/// The passage between two positions is known where the first item between
/// them is whole and not empty, and it is that item's text.
pub proof fn lemma_whole_text_is_known(entry: EntryView, start: i64, end: i64, at: int)
    requires
        0 <= at < entry.items.len(),
        entry.items[at].start == Some(start),
        entry.items[at].end == Some(end),
        forall|k: int|
            0 <= k < at ==> !((#[trigger] entry.items[k]).start == Some(start)
                && entry.items[k].end == Some(end)),
    ensures
        full_text(entry, start, end) == if entry.items[at].verified && entry.items[at].text.len()
            > 0 {
            Some(entry.items[at].text)
        } else {
            None
        },
{
    lemma_marked_is_first(entry.items, start, end, false, 0, at);
}

/// Nothing is known of positions that no item has, and what is fetched of them
/// changes nothing.
pub proof fn lemma_other_positions_are_not_known(
    entry: EntryView,
    start: i64,
    end: i64,
    text: Seq<char>,
)
    requires
        forall|k: int|
            0 <= k < entry.items.len() ==> !((#[trigger] entry.items[k]).start == Some(start)
                && entry.items[k].end == Some(end)),
    ensures
        full_text(entry, start, end) is None,
        with_full_text(entry, start, end, text) == entry,
{
    lemma_not_marked(entry.items, start, end, false, 0);
}

/// A fetched passage goes to the first item between its positions: the item is
/// whole from then on, and has the longer of the two texts.
pub proof fn lemma_fetched_text_is_kept(
    entry: EntryView,
    start: i64,
    end: i64,
    text: Seq<char>,
    at: int,
)
    requires
        0 <= at < entry.items.len(),
        entry.items[at].start == Some(start),
        entry.items[at].end == Some(end),
        forall|k: int|
            0 <= k < at ==> !((#[trigger] entry.items[k]).start == Some(start)
                && entry.items[k].end == Some(end)),
    ensures
        ({
            let after = with_full_text(entry, start, end, text);
            &&& after.items.len() == entry.items.len()
            &&& after.items[at].verified
            &&& !after.items[at].truncated
            &&& text.len() > entry.items[at].text.len() ==> after.items[at].text == text
            &&& text.len() <= entry.items[at].text.len() ==> after.items[at].text
                == entry.items[at].text
            &&& after.items[at].id == entry.items[at].id
            &&& after.items[at].note == entry.items[at].note
            &&& after.items[at].color == entry.items[at].color
            &&& after.items[at].location == entry.items[at].location
            &&& after.items[at].page == entry.items[at].page
            &&& after.items[at].position_type == entry.items[at].position_type
            &&& after.items[at].start == entry.items[at].start
            &&& after.items[at].end == entry.items[at].end
            &&& after.items[at].modified_at == entry.items[at].modified_at
            &&& forall|i: int|
                0 <= i < entry.items.len() && i != at ==> #[trigger] after.items[i]
                    == entry.items[i]
            &&& after.guid == entry.guid
            &&& after.revision == entry.revision
            &&& after.fetched_at == entry.fetched_at
        }),
{
    lemma_marked_is_first(entry.items, start, end, false, 0, at);
}

/// Highlights are fresh for half an hour, and copyable where both the book's
/// guid and its revision are known.
pub proof fn lemma_fresh_for_half_an_hour(entry: EntryView, now: u64)
    ensures
        entry.fresh(now) <==> now < entry.fetched_at + 30 * 60,
        entry.copyable() <==> entry.guid.len() != 0 && entry.revision.len() != 0,
{
}

/// An item is found for two positions if and only if one has them.
pub proof fn lemma_when_an_item_is_marked(items: Seq<HighlightView>, start: i64, end: i64)
    ensures
        marked_from(items, start, end, false, 0) is Some <==> exists|k: int|
            0 <= k < items.len() && (#[trigger] items[k]).start == Some(start) && items[k].end
                == Some(end),
{
    lemma_marked(items, start, end, false, 0);
    lemma_marked_first(items, start, end, false, 0);
}

/// What contracts say of what is kept for a book is all that is kept.
pub proof fn lemma_entries_seen_whole(entry: CachedHighlights, i: int)
    ensures
        entry@.fetched_at == entry.fetched_at,
        entry@.guid == entry.guid@,
        entry@.revision == entry.revision@,
        entry@.items.len() == entry.items@.len(),
        0 <= i < entry.items@.len() ==> entry@.items[i] == entry.items@[i].deep_view(),
{
}

} // verus!
