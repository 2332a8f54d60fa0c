//! Which books are being read, and how far they have been read.

use vstd::prelude::*;

use crate::amazon::{Amazon, Error};
use crate::keyed::Keyed;
use crate::models;
use crate::models::{Book, BookMetadata, BookView, Progress, StartReading};
use crate::text;

verus! {

/// A book that is being read. The percentage is in tenths: 425 is 42.5 %.
pub struct ReadingBook {
    pub asin: String,
    pub title: String,
    pub authors: Vec<String>,
    pub cover_url: String,
    pub web_reader_url: String,
    pub resource_type: String,
    pub origin_type: String,
    pub percentage_read: i64,
    pub device_name: String,
    pub sync_time: i64,
}

pub struct ReadingView {
    pub book: BookView,
    pub percentage_read: i64,
    pub device_name: Seq<char>,
    pub sync_time: i64,
}

impl View for ReadingBook {
    type V = ReadingView;

    open spec fn view(&self) -> ReadingView {
        ReadingView {
            book: BookView {
                asin: self.asin@,
                title: self.title@,
                authors: text::views(self.authors@),
                cover_url: self.cover_url@,
                web_reader_url: self.web_reader_url@,
                resource_type: self.resource_type@,
                origin_type: self.origin_type@,
            },
            percentage_read: self.percentage_read,
            device_name: self.device_name@,
            sync_time: self.sync_time,
        }
    }
}

impl Clone for ReadingBook {
    fn clone(&self) -> (r: Self)
        ensures
            r@ == self@,
    {
        ReadingBook {
            asin: self.asin.clone(),
            title: self.title.clone(),
            authors: models::copy_texts(&self.authors),
            cover_url: self.cover_url.clone(),
            web_reader_url: self.web_reader_url.clone(),
            resource_type: self.resource_type.clone(),
            origin_type: self.origin_type.clone(),
            percentage_read: self.percentage_read,
            device_name: self.device_name.clone(),
            sync_time: self.sync_time,
        }
    }
}

/// What each of `books` says.
pub open spec fn reading_views(books: Seq<ReadingBook>) -> Seq<ReadingView> {
    Seq::new(books.len(), |i: int| books[i]@)
}

pub fn copy_reading(books: &Vec<ReadingBook>) -> (r: Vec<ReadingBook>)
    ensures
        reading_views(r@) == reading_views(books@),
{
    let mut out: Vec<ReadingBook> = Vec::new();
    for i in 0..books.len()
        invariant
            reading_views(out@) == reading_views(books@).take(i as int),
    {
        let ghost before = reading_views(out@);
        let book = books[i].clone();
        assert(book@ == reading_views(books@)[i as int]);
        out.push(book);
        assert(reading_views(out@) == before.push(book@));
    }
    assert(reading_views(out@) == reading_views(books@));
    out
}

/// What is known of the progress in a book: where it was left, and the
/// percentage in tenths.
pub struct CachedPoint {
    pub progress: Option<Progress>,
    pub percentage: Option<i64>,
}

impl View for CachedPoint {
    type V = CachedPoint;

    open spec fn view(&self) -> CachedPoint {
        *self
    }
}

impl Clone for CachedPoint {
    fn clone(&self) -> (r: Self)
        ensures
            r == *self,
    {
        CachedPoint { progress: self.progress.clone(), percentage: self.percentage }
    }
}

pub type Points = Map<Seq<char>, CachedPoint>;

/// What is kept from one run to the next.
pub struct Cache {
    pub region: String,
    pub books: Vec<Book>,
    pub points: Keyed<CachedPoint>,
    pub updated_at: Option<u64>,
}

/// What is known of the progress in a book that has just been opened.
pub fn progress_for(start: &StartReading, percentage: i64) -> (r: CachedPoint)
    ensures
        r.percentage == Some(percentage),
        r.progress matches Some(progress) && {
            &&& progress.position == Some(start.last_page_read_data.position)
            &&& progress.device_name == Some(start.last_page_read_data.device_name)
            &&& progress.sync_time == Some(start.last_page_read_data.sync_time)
        },
{
    CachedPoint { progress: Some(Amazon::progress(start)), percentage: Some(percentage) }
}

/// How far an opened book has been read, as `ratio_read` has it, and nothing
/// where its metadata could not be had: the progress counts without it.
pub fn ratio_for(start: &StartReading, meta: Result<BookMetadata, Error>) -> (r: Option<
    (i128, i128),
>)
    ensures
        match meta {
            Ok(meta) => match (
                r,
                crate::amazon::ratio_read(start.last_page_read_data.position, meta),
            ) {
                (Some(ratio), Some((part, whole))) => ratio.0 == part && ratio.1 == whole,
                (None, None) => true,
                _ => false,
            },
            Err(_) => r is None,
        },
{
    match meta {
        Ok(meta) => Amazon::percentage_read(start, &meta),
        Err(_) => None,
    }
}

pub open spec fn position_of(point: CachedPoint) -> i64 {
    match point.progress {
        Some(progress) => match progress.position {
            Some(position) => position,
            None => 0,
        },
        None => 0,
    }
}

pub open spec fn percentage_of(point: CachedPoint) -> i64 {
    match point.percentage {
        Some(percentage) => percentage,
        None => 0,
    }
}

pub open spec fn device_of(point: CachedPoint) -> Seq<char> {
    match point.progress {
        Some(progress) => match progress.device_name {
            Some(name) => name@,
            None => Seq::empty(),
        },
        None => Seq::empty(),
    }
}

pub open spec fn sync_time_of(point: CachedPoint) -> i64 {
    match point.progress {
        Some(progress) => match progress.sync_time {
            Some(time) => time,
            None => 0,
        },
        None => 0,
    }
}

/// A book has been begun: some of it has been read, or a position past its
/// start is known.
pub open spec fn begun(point: CachedPoint) -> bool {
    percentage_of(point) > 0 || position_of(point) > 0
}

/// The book and its progress, side by side.
pub open spec fn reading_book(book: BookView, point: CachedPoint) -> ReadingView {
    ReadingView {
        book,
        percentage_read: percentage_of(point),
        device_name: device_of(point),
        sync_time: sync_time_of(point),
    }
}

/// The books that have been begun, in the order of the library.
pub open spec fn begun_books(books: Seq<BookView>, points: Points) -> Seq<ReadingView>
    decreases books.len(),
{
    if books.len() == 0 {
        Seq::empty()
    } else {
        let front = begun_books(books.drop_last(), points);
        let book = books.last();
        if points.contains_key(book.asin) && begun(points[book.asin]) {
            front.push(reading_book(book, points[book.asin]))
        } else {
            front
        }
    }
}

/// How many books from `from` on were synced at `time` or later, up to the
/// first that was not.
pub open spec fn place_from(books: Seq<ReadingView>, time: i64, from: int) -> int
    decreases books.len() - from,
{
    if from < 0 || from >= books.len() || books[from].sync_time < time {
        from
    } else {
        place_from(books, time, from + 1)
    }
}

/// The books, the one synced last in front; books synced at the same time stay
/// in their order.
pub open spec fn newest_first(books: Seq<ReadingView>) -> Seq<ReadingView>
    decreases books.len(),
{
    if books.len() == 0 {
        Seq::empty()
    } else {
        let front = newest_first(books.drop_last());
        front.insert(place_from(front, books.last().sync_time, 0), books.last())
    }
}

/// The books that are being read, of a library and what is known of the
/// progress in it.
pub open spec fn reading_of(books: Seq<BookView>, points: Points) -> Seq<ReadingView> {
    newest_first(begun_books(books, points))
}

proof fn lemma_place(books: Seq<ReadingView>, time: i64, from: int)
    requires
        0 <= from <= books.len(),
    ensures
        from <= place_from(books, time, from) <= books.len(),
        forall|i: int|
            from <= i < place_from(books, time, from) ==> (#[trigger] books[i]).sync_time >= time,
        place_from(books, time, from) < books.len() ==> books[place_from(
            books,
            time,
            from,
        )].sync_time < time,
    decreases books.len() - from,
{
    if from < books.len() && books[from].sync_time >= time {
        lemma_place(books, time, from + 1);
    }
}

pub open spec fn sorted_by_sync(books: Seq<ReadingView>) -> bool {
    forall|i: int, j: int|
        0 <= i <= j < books.len() ==> (#[trigger] books[i]).sync_time >= (
        #[trigger] books[j]).sync_time
}

/// The order is by the time of the last sync, newest first.
pub proof fn lemma_newest_first_sorted(books: Seq<ReadingView>)
    ensures
        sorted_by_sync(newest_first(books)),
        newest_first(books).len() == books.len(),
    decreases books.len(),
{
    if books.len() > 0 {
        let front = newest_first(books.drop_last());
        let last = books.last();
        lemma_newest_first_sorted(books.drop_last());
        lemma_place(front, last.sync_time, 0);
        let at = place_from(front, last.sync_time, 0);
        let all = front.insert(at, last);
        assert forall|i: int, j: int| 0 <= i <= j < all.len() implies (
        #[trigger] all[i]).sync_time >= (#[trigger] all[j]).sync_time by {
            if i < at && j > at {
                assert(front[i].sync_time >= front[j - 1].sync_time);
            } else if i == at && j > at {
                assert(front[at].sync_time < last.sync_time);
                assert(front[at].sync_time >= front[j - 1].sync_time);
            } else if i > at {
                assert(front[i - 1].sync_time >= front[j - 1].sync_time);
            }
        }
    }
}

/// The books that were synced at one time, in their order.
pub open spec fn synced_at(books: Seq<ReadingView>, time: i64) -> Seq<ReadingView> {
    books.filter(|book: ReadingView| book.sync_time == time)
}

/// Books synced at the same time keep their order, and none is lost, added or
/// changed: at every time there are the same books as before.
pub proof fn lemma_newest_first_stable(books: Seq<ReadingView>, time: i64)
    ensures
        synced_at(newest_first(books), time) == synced_at(books, time),
    decreases books.len(),
{
    let at_time = |book: ReadingView| book.sync_time == time;
    reveal(Seq::filter);
    if books.len() > 0 {
        let front = newest_first(books.drop_last());
        let last = books.last();
        lemma_newest_first_stable(books.drop_last(), time);
        lemma_newest_first_sorted(books.drop_last());
        lemma_place(front, last.sync_time, 0);
        let at = place_from(front, last.sync_time, 0);
        let before = front.take(at);
        let after = front.skip(at);
        assert(front == before + after);
        assert(front.insert(at, last) == before + seq![last] + after);
        Seq::filter_distributes_over_add(before, after, at_time);
        Seq::filter_distributes_over_add(before + seq![last], after, at_time);
        Seq::filter_distributes_over_add(before, seq![last], at_time);
        let one = seq![last];
        assert(one.drop_last() == Seq::<ReadingView>::empty());
        assert(one.drop_last().filter(at_time) == Seq::<ReadingView>::empty());
        if last.sync_time == time {
            assert(one.filter(at_time) == one);
            assert forall|i: int| 0 <= i < after.len() implies !at_time(#[trigger] after[i]) by {
                assert(front[at].sync_time < time);
                assert(after[i] == front[at + i]);
            }
            lemma_none_kept(after, at_time);
            assert(before.filter(at_time) + one == before.filter(at_time).push(last));
        } else {
            assert(one.filter(at_time) == Seq::<ReadingView>::empty());
        }
        assert(synced_at(newest_first(books), time) == (before.filter(at_time) + one.filter(at_time))
            + after.filter(at_time));
        assert(synced_at(front, time) == before.filter(at_time) + after.filter(at_time));
    }
}

proof fn lemma_none_kept(books: Seq<ReadingView>, keep: spec_fn(ReadingView) -> bool)
    requires
        forall|i: int| 0 <= i < books.len() ==> !keep(#[trigger] books[i]),
    ensures
        books.filter(keep) == Seq::<ReadingView>::empty(),
    decreases books.len(),
{
    reveal(Seq::filter);
    if books.len() > 0 {
        assert forall|i: int| 0 <= i < books.drop_last().len() implies !keep(
            #[trigger] books.drop_last()[i],
        ) by {
            assert(books.drop_last()[i] == books[i]);
        }
        lemma_none_kept(books.drop_last(), keep);
        assert(!keep(books[books.len() - 1]));
    }
}

proof fn lemma_begun_books(books: Seq<BookView>, points: Points, i: int)
    requires
        0 <= i < begun_books(books, points).len(),
    ensures
        books.contains(begun_books(books, points)[i].book),
        points.contains_key(begun_books(books, points)[i].book.asin),
        begun(points[begun_books(books, points)[i].book.asin]),
        begun_books(books, points)[i] == reading_book(
            begun_books(books, points)[i].book,
            points[begun_books(books, points)[i].book.asin],
        ),
    decreases books.len(),
{
    let front = begun_books(books.drop_last(), points);
    if i < front.len() {
        lemma_begun_books(books.drop_last(), points, i);
        let book = front[i].book;
        let at = choose|k: int| 0 <= k < books.drop_last().len() && books.drop_last()[k] == book;
        assert(books[at] == book);
    } else {
        assert(books[books.len() - 1] == begun_books(books, points)[i].book);
    }
}

proof fn lemma_newest_first_members(books: Seq<ReadingView>, i: int)
    requires
        0 <= i < newest_first(books).len(),
    ensures
        books.contains(newest_first(books)[i]),
    decreases books.len(),
{
    if books.len() > 0 {
        let front = newest_first(books.drop_last());
        let last = books.last();
        lemma_place(front, last.sync_time, 0);
        let at = place_from(front, last.sync_time, 0);
        if i == at {
            assert(books[books.len() - 1] == newest_first(books)[i]);
        } else {
            let before = if i < at {
                i
            } else {
                i - 1
            };
            lemma_newest_first_members(books.drop_last(), before);
            let k = choose|k: int|
                0 <= k < books.drop_last().len() && books.drop_last()[k] == front[before];
            assert(books[k] == newest_first(books)[i]);
        }
    }
}

/// What is being read is part of the library, with the progress that is known,
/// and has been begun.
pub proof fn lemma_reading_of_library(books: Seq<BookView>, points: Points, i: int)
    requires
        0 <= i < reading_of(books, points).len(),
    ensures
        ({
            let shown = reading_of(books, points)[i];
            &&& books.contains(shown.book)
            &&& points.contains_key(shown.book.asin)
            &&& begun(points[shown.book.asin])
            &&& shown == reading_book(shown.book, points[shown.book.asin])
        }),
{
    let listed = begun_books(books, points);
    lemma_newest_first_members(listed, i);
    let k = choose|k: int| 0 <= k < listed.len() && listed[k] == reading_of(books, points)[i];
    lemma_begun_books(books, points, k);
}

/// A book of the library that has been begun is shown, wherever it stands.
pub proof fn lemma_begun_is_shown(books: Seq<BookView>, points: Points, i: int)
    requires
        0 <= i < books.len(),
        points.contains_key(books[i].asin),
        begun(points[books[i].asin]),
    ensures
        reading_of(books, points).contains(reading_book(books[i], points[books[i].asin])),
{
    let shown = reading_book(books[i], points[books[i].asin]);
    lemma_begun_is_listed(books, points, i);
    let listed = begun_books(books, points);
    let time = shown.sync_time;
    let at_time = |book: ReadingView| book.sync_time == time;
    let k = choose|k: int| 0 <= k < listed.len() && listed[k] == shown;
    listed.lemma_filter_contains(at_time, k);
    lemma_newest_first_stable(listed, time);
    let sorted = newest_first(listed);
    assert(sorted.filter(at_time).contains(shown));
    lemma_filtered_members(sorted, at_time, shown);
}

proof fn lemma_begun_is_listed(books: Seq<BookView>, points: Points, i: int)
    requires
        0 <= i < books.len(),
        points.contains_key(books[i].asin),
        begun(points[books[i].asin]),
    ensures
        begun_books(books, points).contains(reading_book(books[i], points[books[i].asin])),
    decreases books.len(),
{
    let all = begun_books(books, points);
    let front = begun_books(books.drop_last(), points);
    if i < books.len() - 1 {
        lemma_begun_is_listed(books.drop_last(), points, i);
        let shown = reading_book(books[i], points[books[i].asin]);
        let k = choose|k: int| 0 <= k < front.len() && front[k] == shown;
        assert(all[k] == shown);
    } else {
        assert(all[front.len() as int] == reading_book(books[i], points[books[i].asin]));
    }
}

proof fn lemma_filtered_members(
    books: Seq<ReadingView>,
    keep: spec_fn(ReadingView) -> bool,
    book: ReadingView,
)
    requires
        books.filter(keep).contains(book),
    ensures
        books.contains(book),
    decreases books.len(),
{
    reveal(Seq::filter);
    if books.len() > 0 {
        let front = books.drop_last();
        if keep(books.last()) && book == books.last() {
            assert(books[books.len() - 1] == book);
        } else {
            let kept = books.filter(keep);
            let k = choose|k: int| 0 <= k < kept.len() && kept[k] == book;
            assert(front.filter(keep)[k] == book);
            lemma_filtered_members(front, keep, book);
            let j = choose|j: int| 0 <= j < front.len() && front[j] == book;
            assert(books[j] == book);
        }
    }
}

fn reading_entry(book: &Book, point: &CachedPoint) -> (r: Option<ReadingBook>)
    ensures
        match r {
            Some(reading) => begun(*point) && reading@ == reading_book(book.deep_view(), *point),
            None => !begun(*point),
        },
{
    let percentage: i64 = match point.percentage {
        Some(percentage) => percentage,
        None => 0,
    };
    let progress = match &point.progress {
        Some(progress) => progress.clone(),
        None => Progress { position: None, device_name: None, sync_time: None },
    };
    let position: i64 = match progress.position {
        Some(position) => position,
        None => 0,
    };
    if percentage <= 0 && position <= 0 {
        return None;
    }
    let device_name = match progress.device_name {
        Some(name) => name,
        None => String::new(),
    };
    let sync_time: i64 = match progress.sync_time {
        Some(time) => time,
        None => 0,
    };
    let book = book.clone();
    Some(
        ReadingBook {
            asin: book.asin,
            title: book.title,
            authors: book.authors,
            cover_url: book.cover_url,
            web_reader_url: book.web_reader_url,
            resource_type: book.resource_type,
            origin_type: book.origin_type,
            percentage_read: percentage,
            device_name,
            sync_time,
        },
    )
}

/// The books of the cache that have been begun, newest sync first.
pub fn reading_from_cache(cache: &Cache) -> (r: Vec<ReadingBook>)
    ensures
        reading_views(r@) == reading_of(models::book_views(cache.books@), cache.points@),
{
    let ghost books = models::book_views(cache.books@);
    let mut reading: Vec<ReadingBook> = Vec::new();
    assert(reading_views(reading@) == newest_first(begun_books(books.take(0), cache.points@)));
    for i in 0..cache.books.len()
        invariant
            books == models::book_views(cache.books@),
            reading_views(reading@) == newest_first(
                begun_books(books.take(i as int), cache.points@),
            ),
    {
        let ghost begun_before = begun_books(books.take(i as int), cache.points@);
        let ghost before = reading_views(reading@);
        proof {
            assert(books.take(i + 1).drop_last() == books.take(i as int));
            assert(books.take(i + 1).last() == cache.books@[i as int].deep_view());
        }
        let entry = match cache.points.get(cache.books[i].asin.as_str()) {
            Some(point) => reading_entry(&cache.books[i], point),
            None => None,
        };
        match entry {
            Some(book) => {
                let ghost view = book@;
                let mut at: usize = 0;
                while at < reading.len() && reading[at].sync_time >= book.sync_time
                    invariant
                        at <= reading@.len(),
                        before == reading_views(reading@),
                        place_from(before, book.sync_time, 0) == place_from(
                            before,
                            book.sync_time,
                            at as int,
                        ),
                    decreases reading@.len() - at,
                {
                    assert(before[at as int] == reading@[at as int]@);
                    at = at + 1;
                }
                assert(at < reading@.len() ==> before[at as int] == reading@[at as int]@);
                assert(place_from(before, book.sync_time, 0) == at);
                reading.insert(at, book);
                assert(reading_views(reading@) == before.insert(at as int, view));
                assert(begun_books(books.take(i + 1), cache.points@) == begun_before.push(view));
                assert(begun_before.push(view).drop_last() == begun_before);
            },
            None => {
                assert(begun_books(books.take(i + 1), cache.points@) == begun_before);
            },
        }
    }
    assert(books.take(books.len() as int) == books);
    reading
}

/// What is shown of a point is what it holds, and nothing where it holds
/// nothing. A book counts as begun where any of it has been read, or a position
/// past its start is known.
pub proof fn lemma_what_a_point_shows(point: CachedPoint, book: BookView)
    ensures
        ({
            let shown = reading_book(book, point);
            &&& shown.book == book
            &&& point.percentage matches Some(percentage) ==> shown.percentage_read == percentage
            &&& point.percentage is None ==> shown.percentage_read == 0
            &&& point.progress is Some && point.progress->0.device_name is Some
                ==> shown.device_name == point.progress->0.device_name->0@
            &&& point.progress is None || point.progress->0.device_name is None
                ==> shown.device_name.len() == 0
            &&& point.progress is Some && point.progress->0.sync_time is Some ==> shown.sync_time
                == point.progress->0.sync_time->0
            &&& point.progress is None || point.progress->0.sync_time is None ==> shown.sync_time
                == 0
        }),
        begun(point) <==> (point.percentage is Some && point.percentage->0 > 0) || (
        point.progress is Some && point.progress->0.position is Some
            && point.progress->0.position->0 > 0),
{
}

/// The books that have been begun keep the order of the library: there is one
/// for each book of which any has been read, and no other.
pub proof fn lemma_begun_follow_library(books: Seq<BookView>, points: Points) -> (order: Seq<int>)
    ensures
        order.len() == begun_books(books, points).len(),
        forall|i: int, j: int| 0 <= i < j < order.len() ==> order[i] < order[j],
        forall|i: int|
            0 <= i < order.len() ==> {
                &&& 0 <= #[trigger] order[i] < books.len()
                &&& begun_books(books, points)[i] == reading_book(
                    books[order[i]],
                    points[books[order[i]].asin],
                )
            },
        forall|k: int|
            0 <= k < books.len() ==> (order.contains(k) <==> points.contains_key(
                (#[trigger] books[k]).asin,
            ) && begun(points[books[k].asin])),
    decreases books.len(),
{
    if books.len() == 0 {
        Seq::empty()
    } else {
        let front = books.drop_last();
        let before = lemma_begun_follow_library(front, points);
        let last = books.len() - 1;
        let shown = points.contains_key(books[last].asin) && begun(points[books[last].asin]);
        let order = if shown {
            before.push(last)
        } else {
            before
        };
        assert forall|i: int| 0 <= i < order.len() implies {
            &&& 0 <= #[trigger] order[i] < books.len()
            &&& begun_books(books, points)[i] == reading_book(
                books[order[i]],
                points[books[order[i]].asin],
            )
        } by {
            if i < before.len() {
                assert(order[i] == before[i]);
                assert(front[before[i]] == books[before[i]]);
            }
        }
        assert forall|k: int| 0 <= k < books.len() implies (order.contains(k)
            <==> points.contains_key((#[trigger] books[k]).asin) && begun(points[books[k].asin])) by {
            if k < last {
                assert(front[k] == books[k]);
                if before.contains(k) {
                    let at = choose|at: int| 0 <= at < before.len() && before[at] == k;
                    assert(order[at] == k);
                }
                if order.contains(k) {
                    let at = choose|at: int| 0 <= at < order.len() && order[at] == k;
                    assert(before[at] == k);
                }
            } else if shown {
                assert(order[before.len() as int] == last);
            } else if order.contains(k) {
                let at = choose|at: int| 0 <= at < order.len() && order[at] == k;
                assert(before[at] == last);
            }
        }
        order
    }
}

/// Putting the newest first only reorders the books: each stands there once. Of
/// two, the one synced later comes first, and of two synced at the same time
/// the one that came first before.
pub proof fn lemma_newest_first_reorders(books: Seq<ReadingView>) -> (order: Seq<int>)
    ensures
        order.len() == books.len(),
        newest_first(books).len() == books.len(),
        order.no_duplicates(),
        forall|i: int|
            0 <= i < order.len() ==> 0 <= #[trigger] order[i] < books.len() && newest_first(books)[i]
                == books[order[i]],
        forall|i: int, j: int|
            0 <= i < j < order.len() ==> {
                ||| books[#[trigger] order[i]].sync_time > books[#[trigger] order[j]].sync_time
                ||| books[order[i]].sync_time == books[order[j]].sync_time && order[i] < order[j]
            },
    decreases books.len(),
{
    if books.len() == 0 {
        Seq::empty()
    } else {
        let less = books.drop_last();
        let before = lemma_newest_first_reorders(less);
        let front = newest_first(less);
        let last = books.len() - 1;
        let time = books[last].sync_time;
        lemma_place(front, time, 0);
        let at = place_from(front, time, 0);
        let order = before.insert(at, last);
        let all = newest_first(books);
        assert(all == front.insert(at, books[last]));
        assert forall|i: int| 0 <= i < order.len() implies 0 <= #[trigger] order[i] < books.len()
            && all[i] == books[order[i]] by {
            if i < at {
                assert(order[i] == before[i]);
                assert(less[before[i]] == books[before[i]]);
            } else if i > at {
                assert(order[i] == before[i - 1]);
                assert(less[before[i - 1]] == books[before[i - 1]]);
            }
        }
        assert forall|i: int, j: int| 0 <= i < j < order.len() implies {
            ||| books[#[trigger] order[i]].sync_time > books[#[trigger] order[j]].sync_time
            ||| books[order[i]].sync_time == books[order[j]].sync_time && order[i] < order[j]
        } by {
            let a = if i < at {
                i
            } else {
                i - 1
            };
            let b = if j < at {
                j
            } else {
                j - 1
            };
            if i != at && j != at {
                assert(order[i] == before[a]);
                assert(order[j] == before[b]);
                assert(less[before[a]] == books[before[a]]);
                assert(less[before[b]] == books[before[b]]);
            } else if j == at {
                assert(order[i] == before[i]);
                assert(less[before[i]] == books[before[i]]);
                assert(front[i].sync_time >= time);
            } else {
                assert(order[j] == before[j - 1]);
                assert(less[before[j - 1]] == books[before[j - 1]]);
                assert(front[at].sync_time < time);
                lemma_newest_first_sorted(less);
                assert(front[at].sync_time >= front[j - 1].sync_time);
            }
        }
        assert forall|i: int, j: int|
            0 <= i < order.len() && 0 <= j < order.len() && i != j implies order[i] != order[j] by {
            let a = if i < at {
                i
            } else {
                i - 1
            };
            let b = if j < at {
                j
            } else {
                j - 1
            };
            if i != at && j != at {
                assert(order[i] == before[a]);
                assert(order[j] == before[b]);
            } else if i == at {
                assert(order[j] == before[b]);
                assert(before[b] < less.len());
            } else {
                assert(order[i] == before[a]);
                assert(before[a] < less.len());
            }
        }
        order
    }
}

/// What is shown as being read are the begun books of the library, the one
/// synced last in front.
pub proof fn lemma_reading_is_sorted(books: Seq<BookView>, points: Points, i: int, j: int)
    requires
        0 <= i <= j < reading_of(books, points).len(),
    ensures
        reading_of(books, points)[i].sync_time >= reading_of(books, points)[j].sync_time,
        reading_of(books, points) == newest_first(begun_books(books, points)),
{
    lemma_newest_first_sorted(begun_books(books, points));
}

/// What contracts say of a book that is being read, or of a point, is all that
/// it holds.
pub proof fn lemma_reading_seen_whole(
    book: ReadingBook,
    books: Seq<ReadingBook>,
    i: int,
    point: CachedPoint,
)
    ensures
        book@.book.asin == book.asin@,
        book@.book.title == book.title@,
        book@.book.authors == text::views(book.authors@),
        book@.book.cover_url == book.cover_url@,
        book@.book.web_reader_url == book.web_reader_url@,
        book@.book.resource_type == book.resource_type@,
        book@.book.origin_type == book.origin_type@,
        book@.percentage_read == book.percentage_read,
        book@.device_name == book.device_name@,
        book@.sync_time == book.sync_time,
        reading_views(books).len() == books.len(),
        0 <= i < books.len() ==> reading_views(books)[i] == books[i]@,
        point@ == point,
{
}

} // verus!
