//! The newest highlights, over the books that were read last.

use vstd::prelude::*;

use crate::models;
use crate::models::{Book, BookView, Highlight, HighlightView, Highlights};
use crate::reading;
use crate::reading::ReadingBook;
use crate::state::{Snapshot, SnapshotView};
use crate::text;

verus! {

/// How many books are looked through at most.
pub const RECENT_SCAN_CAP: usize = 12;

/// A book whose highlights may be shown.
pub struct Candidate {
    pub asin: String,
    pub title: String,
    pub authors: String,
}

pub struct CandidateView {
    pub asin: Seq<char>,
    pub title: Seq<char>,
    pub authors: Seq<char>,
}

impl View for Candidate {
    type V = CandidateView;

    open spec fn view(&self) -> CandidateView {
        CandidateView { asin: self.asin@, title: self.title@, authors: self.authors@ }
    }
}

impl Clone for Candidate {
    fn clone(&self) -> (r: Self)
        ensures
            r@ == self@,
    {
        Candidate {
            asin: self.asin.clone(),
            title: self.title.clone(),
            authors: self.authors.clone(),
        }
    }
}

/// A highlight, with the book that it is from.
pub struct RecentItem {
    pub highlight: Highlight,
    pub book: Candidate,
}

pub struct RecentItemView {
    pub highlight: HighlightView,
    pub book: CandidateView,
}

impl View for RecentItem {
    type V = RecentItemView;

    open spec fn view(&self) -> RecentItemView {
        RecentItemView { highlight: self.highlight.deep_view(), book: self.book@ }
    }
}

pub open spec fn candidate_views(candidates: Seq<Candidate>) -> Seq<CandidateView> {
    Seq::new(candidates.len(), |i: int| candidates[i]@)
}

pub open spec fn item_views(items: Seq<RecentItem>) -> Seq<RecentItemView> {
    Seq::new(items.len(), |i: int| items[i]@)
}

pub open spec fn candidate_of(book: BookView) -> CandidateView {
    CandidateView {
        asin: book.asin,
        title: book.title,
        authors: text::joined(book.authors, ", "@),
    }
}

pub open spec fn listed(candidates: Seq<CandidateView>, asin: Seq<char>) -> bool {
    exists|i: int| 0 <= i < candidates.len() && (#[trigger] candidates[i]).asin == asin
}

/// The books, each once, where it first stands.
pub open spec fn candidates_of(books: Seq<BookView>) -> Seq<CandidateView>
    decreases books.len(),
{
    if books.len() == 0 {
        Seq::empty()
    } else {
        let front = candidates_of(books.drop_last());
        if listed(front, books.last().asin) {
            front
        } else {
            front.push(candidate_of(books.last()))
        }
    }
}

/// The books that are being read, and then the rest of the library.
pub open spec fn recent_books(state: SnapshotView) -> Seq<BookView> {
    Seq::new(state.reading.len(), |i: int| state.reading[i].book) + state.books
}

pub open spec fn clamped(n: usize, low: usize, high: usize) -> usize {
    if n < low {
        low
    } else if n > high {
        high
    } else {
        n
    }
}

fn clamp(n: usize, low: usize, high: usize) -> (r: usize)
    ensures
        r == clamped(n, low, high),
{
    if n < low {
        low
    } else if n > high {
        high
    } else {
        n
    }
}

pub struct RecentView {
    pub candidates: Seq<CandidateView>,
    pub limit: usize,
    pub per_book: usize,
    pub scanned: int,
    pub items: Seq<RecentItemView>,
}

impl RecentView {
    /// A search that begins, within the bounds on what can be asked for.
    pub open spec fn started(state: SnapshotView, limit: usize, per_book: usize) -> RecentView {
        RecentView {
            candidates: candidates_of(recent_books(state)),
            limit: clamped(limit, 1, 50),
            per_book: clamped(per_book, 1, 20),
            scanned: 0,
            items: Seq::empty(),
        }
    }

    /// Another book is looked through: there is one, there is room for more
    /// highlights, and not too many books have been looked through.
    pub open spec fn pending(self) -> bool {
        &&& self.items.len() < self.limit
        &&& self.scanned < RECENT_SCAN_CAP
        &&& self.scanned < self.candidates.len()
    }

    pub open spec fn valid(self) -> bool {
        &&& 1 <= self.limit <= 50
        &&& 1 <= self.per_book <= 20
        &&& 0 <= self.scanned <= RECENT_SCAN_CAP
        &&& self.scanned <= self.candidates.len()
        &&& self.items.len() <= self.limit
    }

    /// How many of a book's highlights are taken.
    pub open spec fn share(self, available: nat) -> nat {
        let room = (self.limit - self.items.len()) as nat;
        let most = if self.per_book < room {
            self.per_book as nat
        } else {
            room
        };
        if available < most {
            available
        } else {
            most
        }
    }

    /// After a book has been looked through.
    pub open spec fn with_book(self, highlights: Seq<HighlightView>) -> RecentView {
        let book = self.candidates[self.scanned];
        RecentView {
            scanned: self.scanned + 1,
            items: self.items + Seq::new(
                self.share(highlights.len()),
                |i: int| RecentItemView { highlight: highlights[i], book },
            ),
            ..self
        }
    }
}

/// A search for the newest highlights.
pub struct RecentRun {
    candidates: Vec<Candidate>,
    limit: usize,
    per_book: usize,
    scanned: usize,
    items: Vec<RecentItem>,
}

impl View for RecentRun {
    type V = RecentView;

    closed spec fn view(&self) -> RecentView {
        RecentView {
            candidates: candidate_views(self.candidates@),
            limit: self.limit,
            per_book: self.per_book,
            scanned: self.scanned as int,
            items: item_views(self.items@),
        }
    }
}

fn is_listed(candidates: &Vec<Candidate>, asin: &str) -> (r: bool)
    ensures
        r == listed(candidate_views(candidates@), asin@),
{
    let ghost views = candidate_views(candidates@);
    for i in 0..candidates.len()
        invariant
            views == candidate_views(candidates@),
            forall|j: int| 0 <= j < i ==> (#[trigger] views[j]).asin != asin@,
    {
        assert(views[i as int] == candidates@[i as int]@);
        if text::same(candidates[i].asin.as_str(), asin) {
            assert(views[i as int].asin == asin@);
            return true;
        }
    }
    false
}

fn add_candidate(candidates: &mut Vec<Candidate>, asin: &str, title: &str, authors: &Vec<String>)
    ensures
        candidate_views(final(candidates)@) == if listed(candidate_views(old(candidates)@), asin@) {
            candidate_views(old(candidates)@)
        } else {
            candidate_views(old(candidates)@).push(
                CandidateView {
                    asin: asin@,
                    title: title@,
                    authors: text::joined(text::views(authors@), ", "@),
                },
            )
        },
{
    if is_listed(candidates, asin) {
        return ;
    }
    let candidate = Candidate {
        asin: asin.to_owned(),
        title: title.to_owned(),
        authors: text::join(authors, ", "),
    };
    let ghost before = candidate_views(candidates@);
    let ghost view = candidate@;
    candidates.push(candidate);
    assert(candidate_views(candidates@) == before.push(view));
}

fn candidates(reading: &Vec<ReadingBook>, books: &Vec<Book>) -> (r: Vec<Candidate>)
    ensures
        candidate_views(r@) == candidates_of(
            Seq::new(
                reading::reading_views(reading@).len(),
                |i: int| reading::reading_views(reading@)[i].book,
            ) + models::book_views(books@),
        ),
{
    let ghost begun = Seq::new(
        reading::reading_views(reading@).len(),
        |i: int| reading::reading_views(reading@)[i].book,
    );
    let ghost library = models::book_views(books@);
    let ghost all = begun + library;
    let mut out: Vec<Candidate> = Vec::new();
    assert(candidate_views(out@) == candidates_of(all.take(0)));
    for i in 0..reading.len()
        invariant
            begun.len() == reading@.len(),
            forall|j: int| 0 <= j < begun.len() ==> #[trigger] begun[j] == reading@[j]@.book,
            all == begun + library,
            candidate_views(out@) == candidates_of(all.take(i as int)),
    {
        let book = &reading[i];
        proof {
            assert(all.take(i + 1).drop_last() == all.take(i as int));
            assert(all.take(i + 1).last() == begun[i as int]);
        }
        add_candidate(&mut out, book.asin.as_str(), book.title.as_str(), &book.authors);
    }
    let begun_count: usize = reading.len();
    for i in 0..books.len()
        invariant
            begun_count == begun.len(),
            library == models::book_views(books@),
            all == begun + library,
            candidate_views(out@) == candidates_of(all.take(begun_count + i)),
    {
        let book = &books[i];
        proof {
            assert(all.take(begun_count + i + 1).drop_last() == all.take(begun_count + i));
            assert(all.take(begun_count + i + 1).last() == library[i as int]);
        }
        add_candidate(&mut out, book.asin.as_str(), book.title.as_str(), &book.authors);
    }
    assert(all.take(all.len() as int) == all);
    out
}

impl RecentRun {
    /// Starts a search for at most `limit` highlights, and `per_book` of each
    /// book.
    pub fn new(state: &Snapshot, limit: usize, per_book: usize) -> (r: Self)
        ensures
            r@ == RecentView::started(state@, limit, per_book),
            r@.valid(),
            1 <= limit <= 50 ==> r@.limit == limit,
            1 <= per_book <= 20 ==> r@.per_book == per_book,
            r@.items.len() == 0,
    {
        let run = RecentRun {
            candidates: candidates(&state.reading, &state.books),
            limit: clamp(limit, 1, 50),
            per_book: clamp(per_book, 1, 20),
            scanned: 0,
            items: Vec::new(),
        };
        assert(run@.items == Seq::<RecentItemView>::empty());
        run
    }

    /// The book whose highlights are wanted next.
    pub fn next(&self) -> (r: Option<&str>)
        requires
            self@.valid(),
        ensures
            match r {
                Some(asin) => self@.pending() && asin@ == self@.candidates[self@.scanned].asin,
                None => !self@.pending(),
            },
            r is Some <==> self@.items.len() < self@.limit && self@.scanned < 12 && self@.scanned
                < self@.candidates.len(),
    {
        if self.items.len() < self.limit && self.scanned < RECENT_SCAN_CAP && self.scanned
            < self.candidates.len() {
            assert(self@.candidates[self.scanned as int] == self.candidates@[self.scanned as int]@);
            Some(self.candidates[self.scanned].asin.as_str())
        } else {
            None
        }
    }

    /// Takes in the highlights of the book that was next, or nothing where they
    /// could not be had.
    pub fn record(&mut self, highlights: Option<Highlights>)
        requires
            old(self)@.valid(),
            old(self)@.pending(),
        ensures
            final(self)@ == old(self)@.with_book(
                match highlights {
                    Some(highlights) => highlights@.items,
                    None => Seq::empty(),
                },
            ),
            final(self)@.valid(),
            final(self)@.limit == old(self)@.limit,
            final(self)@.per_book == old(self)@.per_book,
            final(self)@.items.len() <= old(self)@.limit,
            final(self)@.items.len() <= old(self)@.items.len() + old(self)@.per_book,
    {
        let ghost start = self@;
        let book = self.candidates[self.scanned].clone();
        assert(start.candidates[start.scanned] == book@);
        self.scanned = self.scanned + 1;
        if let Some(highlights) = highlights {
            let ghost views = highlights@.items;
            let ghost share = start.share(views.len());
            let ghost added = Seq::new(
                share,
                |i: int| RecentItemView { highlight: views[i], book: book@ },
            );
            let before: usize = self.items.len();
            let mut i: usize = 0;
            assert(start.items + added.take(0) == start.items);
            while i < highlights.items.len() && i < self.per_book && self.items.len() < self.limit
                invariant
                    i <= share <= views.len(),
                    share == start.share(views.len()),
                    views == models::highlight_views(highlights.items@),
                    start.items.len() == before <= self.limit,
                    self.items@.len() == before + i,
                    start.limit == self.limit,
                    start.per_book == self.per_book,
                    added == Seq::new(
                        share,
                        |k: int| RecentItemView { highlight: views[k], book: book@ },
                    ),
                    self@ == (RecentView {
                        scanned: start.scanned + 1,
                        items: start.items + added.take(i as int),
                        ..start
                    }),
                decreases highlights.items@.len() - i,
            {
                let ghost items_before = item_views(self.items@);
                let item = RecentItem { highlight: highlights.items[i].clone(), book: book.clone() };
                let ghost view = item@;
                assert(views[i as int] == highlights.items@[i as int].deep_view());
                assert(view == added[i as int]);
                self.items.push(item);
                assert(item_views(self.items@) == items_before.push(view));
                assert(start.items + added.take(i + 1) == (start.items + added.take(i as int)).push(
                    view,
                ));
                i = i + 1;
            }
            assert(i == share);
            assert(added.take(i as int) == added);
        } else {
            assert(start.with_book(Seq::empty()).items == start.items);
        }
    }

    /// How many books have been looked through.
    pub fn scanned(&self) -> (r: usize)
        ensures
            r == self@.scanned,
    {
        self.scanned
    }

    /// The highlights that were found.
    pub fn into_items(self) -> (r: Vec<RecentItem>)
        ensures
            item_views(r@) == self@.items,
    {
        self.items
    }
}

/// A book adds its first highlights, in order: no more than are asked for of
/// each book, and no more than there is room for.
pub proof fn lemma_share_of_a_book(run: RecentView, highlights: Seq<HighlightView>)
    requires
        run.valid(),
        run.pending(),
    ensures
        ({
            let after = run.with_book(highlights);
            let added = after.items.len() - run.items.len();
            &&& after.valid()
            &&& 0 <= added <= run.per_book
            &&& after.items.take(run.items.len() as int) == run.items
            &&& forall|i: int|
                0 <= i < added ==> (#[trigger] after.items[run.items.len() + i]).highlight
                    == highlights[i] && after.items[run.items.len() + i].book
                    == run.candidates[run.scanned]
            &&& added == highlights.len() || added == run.per_book || after.items.len()
                == run.limit
        }),
{
    let after = run.with_book(highlights);
    assert(after.items.take(run.items.len() as int) == run.items);
}

/// No book is looked through twice.
pub proof fn lemma_candidates_distinct(books: Seq<BookView>)
    ensures
        forall|i: int, j: int|
            0 <= i < j < candidates_of(books).len() ==> (#[trigger] candidates_of(books)[i]).asin
                != (#[trigger] candidates_of(books)[j]).asin,
    decreases books.len(),
{
    if books.len() > 0 {
        lemma_candidates_distinct(books.drop_last());
        let front = candidates_of(books.drop_last());
        let all = candidates_of(books);
        if !listed(front, books.last().asin) {
            assert forall|i: int, j: int| 0 <= i < j < all.len() implies (#[trigger] all[i]).asin
                != (#[trigger] all[j]).asin by {
                assert(all[i] == front[i]);
                if j < front.len() {
                    assert(all[j] == front[j]);
                }
            }
        }
    }
}

/// A search looks for as many highlights as are asked for, and as many of each
/// book: what is asked within the bounds is taken as it is, and what is not is
/// brought to the nearer bound. It starts with nothing found.
pub proof fn lemma_search_is_for_what_is_asked(state: SnapshotView, limit: usize, per_book: usize)
    ensures
        ({
            let run = RecentView::started(state, limit, per_book);
            &&& 1 <= limit <= 50 ==> run.limit == limit
            &&& limit == 0 ==> run.limit == 1
            &&& limit > 50 ==> run.limit == 50
            &&& 1 <= per_book <= 20 ==> run.per_book == per_book
            &&& per_book == 0 ==> run.per_book == 1
            &&& per_book > 20 ==> run.per_book == 20
            &&& run.scanned == 0
            &&& run.items.len() == 0
        }),
{
}

/// A search keeps to what was asked for, book after book: it never finds more
/// than its limit, and takes of a book no more than its share.
pub proof fn lemma_search_keeps_its_bounds(run: RecentView, highlights: Seq<HighlightView>)
    requires
        run.items.len() <= run.limit,
    ensures
        ({
            let after = run.with_book(highlights);
            &&& after.limit == run.limit
            &&& after.per_book == run.per_book
            &&& after.candidates == run.candidates
            &&& after.scanned == run.scanned + 1
            &&& run.items.len() <= after.items.len() <= run.limit
            &&& after.items.len() <= run.items.len() + run.per_book
            &&& after.items.len() <= run.items.len() + highlights.len()
            &&& after.items.len() == run.items.len() + highlights.len() || after.items.len()
                == run.items.len() + run.per_book || after.items.len() == run.limit
        }),
{
}

/// A search that was started within the bounds finds, over any books, no more
/// highlights than were asked for.
pub proof fn lemma_search_never_exceeds_the_limit(
    state: SnapshotView,
    limit: usize,
    per_book: usize,
    highlights: Seq<Seq<HighlightView>>,
)
    requires
        1 <= limit <= 50,
        1 <= per_book <= 20,
    ensures
        ({
            let run = after_books(RecentView::started(state, limit, per_book), highlights);
            &&& run.items.len() <= limit
            &&& run.items.len() <= per_book * highlights.len()
            &&& run.limit == limit
            &&& run.per_book == per_book
        }),
    decreases highlights.len(),
{
    if highlights.len() > 0 {
        lemma_search_never_exceeds_the_limit(state, limit, per_book, highlights.drop_last());
        let before = after_books(
            RecentView::started(state, limit, per_book),
            highlights.drop_last(),
        );
        lemma_search_keeps_its_bounds(before, highlights.last());
        assert(per_book * highlights.len() == per_book * (highlights.len() - 1) + per_book)
            by (nonlinear_arith)
            requires
                highlights.len() > 0,
        ;
    }
}

/// A search after it has looked through books, one after the other.
pub open spec fn after_books(run: RecentView, highlights: Seq<Seq<HighlightView>>) -> RecentView
    decreases highlights.len(),
{
    if highlights.len() == 0 {
        run
    } else {
        after_books(run, highlights.drop_last()).with_book(highlights.last())
    }
}

/// The candidates are the books in their order, each where it first stands,
/// with its title and the names of its authors.
pub proof fn lemma_candidates_follow_books(books: Seq<BookView>) -> (order: Seq<int>)
    ensures
        order.len() == candidates_of(books).len(),
        forall|i: int, j: int| 0 <= i < j < order.len() ==> order[i] < order[j],
        forall|i: int|
            0 <= i < order.len() ==> {
                &&& 0 <= #[trigger] order[i] < books.len()
                &&& candidates_of(books)[i].asin == books[order[i]].asin
                &&& candidates_of(books)[i].title == books[order[i]].title
                &&& candidates_of(books)[i].authors == text::joined(
                    books[order[i]].authors,
                    ", "@,
                )
            },
        forall|k: int|
            0 <= k < books.len() ==> (#[trigger] order.contains(k) <==> forall|j: int|
                0 <= j < k ==> (#[trigger] books[j]).asin != books[k].asin),
    decreases books.len(),
{
    if books.len() == 0 {
        Seq::empty()
    } else {
        let front = books.drop_last();
        let before = lemma_candidates_follow_books(front);
        let known = candidates_of(front);
        let last = books.len() - 1;
        let order = if listed(known, books[last].asin) {
            before
        } else {
            before.push(last)
        };
        if listed(known, books[last].asin) {
            let i = choose|i: int|
                0 <= i < known.len() && (#[trigger] known[i]).asin == books[last].asin;
            assert(front[before[i]] == books[before[i]]);
            assert(books[before[i]].asin == books[last].asin);
        } else {
            assert forall|j: int| 0 <= j < last implies (#[trigger] books[j]).asin
                != books[last].asin by {
                lemma_book_is_listed(front, j);
                assert(front[j] == books[j]);
            }
        }
        assert forall|i: int| 0 <= i < order.len() implies {
            &&& 0 <= #[trigger] order[i] < books.len()
            &&& candidates_of(books)[i].asin == books[order[i]].asin
            &&& candidates_of(books)[i].title == books[order[i]].title
            &&& candidates_of(books)[i].authors == text::joined(books[order[i]].authors, ", "@)
        } by {
            if i < before.len() {
                assert(order[i] == before[i]);
                assert(front[before[i]] == books[before[i]]);
            }
        }
        assert forall|k: int| 0 <= k < books.len() implies (#[trigger] order.contains(k)
            <==> forall|j: int| 0 <= j < k ==> (#[trigger] books[j]).asin != books[k].asin) by {
            if k < last {
                assert(front[k] == books[k]);
                assert(before.contains(k) <==> forall|j: int|
                    0 <= j < k ==> (#[trigger] front[j]).asin != front[k].asin);
                if before.contains(k) {
                    let at = choose|at: int| 0 <= at < before.len() && before[at] == k;
                    assert(order[at] == k);
                    assert forall|j: int| 0 <= j < k implies (#[trigger] books[j]).asin
                        != books[k].asin by {
                        assert(front[j] == books[j]);
                    }
                } else {
                    let j = choose|j: int|
                        0 <= j < k && (#[trigger] front[j]).asin == front[k].asin;
                    assert(books[j] == front[j]);
                    if order.contains(k) {
                        let at = choose|at: int| 0 <= at < order.len() && order[at] == k;
                        assert(before[at] == k);
                    }
                }
            } else if !listed(known, books[last].asin) {
                assert(order[before.len() as int] == last);
            } else if order.contains(k) {
                let at = choose|at: int| 0 <= at < order.len() && order[at] == k;
                assert(before[at] == last);
            }
        }
        order
    }
}

/// Every book is among the candidates.
pub proof fn lemma_book_is_listed(books: Seq<BookView>, k: int)
    requires
        0 <= k < books.len(),
    ensures
        exists|i: int|
            0 <= i < candidates_of(books).len() && (#[trigger] candidates_of(books)[i]).asin
                == books[k].asin,
    decreases books.len(),
{
    let front = candidates_of(books.drop_last());
    let all = candidates_of(books);
    if k < books.len() - 1 {
        lemma_book_is_listed(books.drop_last(), k);
        let i = choose|i: int| 0 <= i < front.len() && (#[trigger] front[i]).asin == books[k].asin;
        assert(all[i] == front[i]);
    } else if listed(front, books[k].asin) {
        let i = choose|i: int| 0 <= i < front.len() && (#[trigger] front[i]).asin == books[k].asin;
        assert(all[i] == front[i]);
    } else {
        assert(all[front.len() as int].asin == books[k].asin);
    }
}

/// The books that are being read come first, and then the whole library.
pub proof fn lemma_read_books_come_first(state: SnapshotView, i: int)
    ensures
        recent_books(state).len() == state.reading.len() + state.books.len(),
        0 <= i < state.reading.len() ==> recent_books(state)[i] == state.reading[i].book,
        0 <= i < state.books.len() ==> recent_books(state)[state.reading.len() + i]
            == state.books[i],
        RecentView::started(state, 1, 1).candidates == candidates_of(recent_books(state)),
{
}

/// What contracts say of the books and highlights of a search is all that they
/// hold.
pub proof fn lemma_search_seen_whole(
    candidates: Seq<Candidate>,
    items: Seq<RecentItem>,
    i: int,
)
    ensures
        candidate_views(candidates).len() == candidates.len(),
        0 <= i < candidates.len() ==> {
            let seen = candidate_views(candidates)[i];
            &&& seen.asin == candidates[i].asin@
            &&& seen.title == candidates[i].title@
            &&& seen.authors == candidates[i].authors@
        },
        item_views(items).len() == items.len(),
        0 <= i < items.len() ==> {
            let seen = item_views(items)[i];
            &&& seen.highlight == items[i].highlight.deep_view()
            &&& seen.book == items[i].book@
        },
{
}

} // verus!
