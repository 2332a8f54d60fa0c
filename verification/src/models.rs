//! Books, reading positions and highlights, and the clean-up that Amazon's
//! author names and cover addresses need.

use vstd::prelude::*;

use crate::text;

verus! {

/// A book of the library.
#[derive(Debug)]
pub struct Book {
    pub asin: String,
    pub title: String,
    pub authors: Vec<String>,
    pub cover_url: String,
    pub web_reader_url: String,
    pub resource_type: String,
    pub origin_type: String,
}

pub struct BookView {
    pub asin: Seq<char>,
    pub title: Seq<char>,
    pub authors: Seq<Seq<char>>,
    pub cover_url: Seq<char>,
    pub web_reader_url: Seq<char>,
    pub resource_type: Seq<char>,
    pub origin_type: Seq<char>,
}

impl DeepView for Book {
    type V = BookView;

    open spec fn deep_view(&self) -> BookView {
        BookView {
            asin: self.asin@,
            title: self.title@,
            authors: text::views(self.authors@),
            cover_url: self.cover_url@,
            web_reader_url: self.web_reader_url@,
            resource_type: self.resource_type@,
            origin_type: self.origin_type@,
        }
    }
}

/// A copy of each text, in order.
pub fn copy_texts(texts: &Vec<String>) -> (r: Vec<String>)
    ensures
        text::views(r@) == text::views(texts@),
{
    let mut out: Vec<String> = Vec::new();
    for i in 0..texts.len()
        invariant
            out@ == texts@.take(i as int),
    {
        out.push(texts[i].clone());
    }
    assert(out@ == texts@);
    out
}

impl Clone for Book {
    fn clone(&self) -> (r: Self)
        ensures
            r.deep_view() == self.deep_view(),
    {
        Book {
            asin: self.asin.clone(),
            title: self.title.clone(),
            authors: copy_texts(&self.authors),
            cover_url: self.cover_url.clone(),
            web_reader_url: self.web_reader_url.clone(),
            resource_type: self.resource_type.clone(),
            origin_type: self.origin_type.clone(),
        }
    }
}

/// What each of `books` says.
pub open spec fn book_views(books: Seq<Book>) -> Seq<BookView> {
    Seq::new(books.len(), |i: int| books[i].deep_view())
}

pub fn copy_books(books: &Vec<Book>) -> (r: Vec<Book>)
    ensures
        book_views(r@) == book_views(books@),
{
    let mut out: Vec<Book> = Vec::new();
    for i in 0..books.len()
        invariant
            book_views(out@) == book_views(books@).take(i as int),
    {
        let ghost before = book_views(out@);
        let book = books[i].clone();
        assert(book.deep_view() == book_views(books@)[i as int]);
        out.push(book);
        assert(book_views(out@) == before.push(book.deep_view()));
    }
    assert(book_views(out@) == book_views(books@));
    out
}

/// The last page read of a book.
#[derive(Debug, Default)]
pub struct Progress {
    pub position: Option<i64>,
    pub device_name: Option<String>,
    pub sync_time: Option<i64>,
}

impl Clone for Progress {
    fn clone(&self) -> (r: Self)
        ensures
            r == *self,
    {
        Progress {
            position: self.position,
            device_name: self.device_name.clone(),
            sync_time: self.sync_time,
        }
    }
}

/// A passage that the reader marked, or a note.
#[derive(Debug)]
pub struct Highlight {
    pub id: Option<String>,
    pub text: String,
    pub note: Option<String>,
    pub color: Option<String>,
    pub location: Option<String>,
    pub page: Option<i64>,
    pub position_type: Option<String>,
    pub start: Option<i64>,
    pub end: Option<i64>,
    pub truncated: bool,
    pub verified: bool,
    pub modified_at: Option<i64>,
}

pub struct HighlightView {
    pub id: Option<Seq<char>>,
    pub text: Seq<char>,
    pub note: Option<Seq<char>>,
    pub color: Option<Seq<char>>,
    pub location: Option<Seq<char>>,
    pub page: Option<i64>,
    pub position_type: Option<Seq<char>>,
    pub start: Option<i64>,
    pub end: Option<i64>,
    pub truncated: bool,
    pub verified: bool,
    pub modified_at: Option<i64>,
}

impl DeepView for Highlight {
    type V = HighlightView;

    open spec fn deep_view(&self) -> HighlightView {
        HighlightView {
            id: self.id.deep_view(),
            text: self.text@,
            note: self.note.deep_view(),
            color: self.color.deep_view(),
            location: self.location.deep_view(),
            page: self.page,
            position_type: self.position_type.deep_view(),
            start: self.start,
            end: self.end,
            truncated: self.truncated,
            verified: self.verified,
            modified_at: self.modified_at,
        }
    }
}

impl Clone for Highlight {
    fn clone(&self) -> (r: Self)
        ensures
            r == *self,
    {
        Highlight {
            id: self.id.clone(),
            text: self.text.clone(),
            note: self.note.clone(),
            color: self.color.clone(),
            location: self.location.clone(),
            page: self.page,
            position_type: self.position_type.clone(),
            start: self.start,
            end: self.end,
            truncated: self.truncated,
            verified: self.verified,
            modified_at: self.modified_at,
        }
    }
}

/// What each of `items` says.
pub open spec fn highlight_views(items: Seq<Highlight>) -> Seq<HighlightView> {
    Seq::new(items.len(), |i: int| items[i].deep_view())
}

pub fn copy_highlights(items: &Vec<Highlight>) -> (r: Vec<Highlight>)
    ensures
        r@ == items@,
{
    let mut out: Vec<Highlight> = Vec::new();
    for i in 0..items.len()
        invariant
            out@ == items@.take(i as int),
    {
        out.push(items[i].clone());
    }
    assert(out@ == items@);
    out
}

/// The highlights of one book. `limited` says that some are still previews.
#[derive(Debug)]
pub struct Highlights {
    pub asin: String,
    pub count: usize,
    pub limited: bool,
    pub items: Vec<Highlight>,
}

pub struct HighlightsView {
    pub asin: Seq<char>,
    pub count: nat,
    pub limited: bool,
    pub items: Seq<HighlightView>,
}

impl View for Highlights {
    type V = HighlightsView;

    open spec fn view(&self) -> HighlightsView {
        HighlightsView {
            asin: self.asin@,
            count: self.count as nat,
            limited: self.limited,
            items: highlight_views(self.items@),
        }
    }
}

/// One of the items is a preview of a longer passage.
pub open spec fn any_truncated(items: Seq<HighlightView>) -> bool {
    exists|i: int| 0 <= i < items.len() && (#[trigger] items[i]).truncated
}

/// The highlights of a book that consist of these items: the count is theirs,
/// and the book is limited exactly if one of them is truncated.
pub open spec fn book_highlights(asin: Seq<char>, items: Seq<HighlightView>) -> HighlightsView {
    HighlightsView { asin, count: items.len(), limited: any_truncated(items), items }
}

pub proof fn lemma_truncated_push(items: Seq<HighlightView>, item: HighlightView)
    ensures
        any_truncated(items.push(item)) == (any_truncated(items) || item.truncated),
{
    let all = items.push(item);
    assert(all[items.len() as int] == item);
    if any_truncated(items) {
        let i = choose|i: int| 0 <= i < items.len() && (#[trigger] items[i]).truncated;
        assert(all[i].truncated);
    }
    if any_truncated(all) {
        let i = choose|i: int| 0 <= i < all.len() && (#[trigger] all[i]).truncated;
        if i < items.len() {
            assert(items[i].truncated);
        }
    }
}

impl Clone for Highlights {
    fn clone(&self) -> (r: Self)
        ensures
            r@ == self@,
    {
        Highlights {
            asin: self.asin.clone(),
            count: self.count,
            limited: self.limited,
            items: copy_highlights(&self.items),
        }
    }
}

/// One page of the library, as Amazon lists it.
#[derive(Debug)]
pub struct LibraryPage {
    pub items_list: Vec<LibraryItem>,
    pub pagination_token: Option<String>,
}

/// A book as Amazon lists it.
#[derive(Debug)]
pub struct LibraryItem {
    pub title: String,
    pub asin: String,
    pub authors: Vec<String>,
    pub product_url: String,
    pub web_reader_url: String,
    pub resource_type: String,
    pub origin_type: String,
}

/// The book that a library item lists.
pub open spec fn book_of(item: LibraryItem) -> BookView {
    BookView {
        asin: item.asin@,
        title: item.title@,
        authors: normalized_authors(text::views(item.authors@)),
        cover_url: large_cover_of(item.product_url@),
        web_reader_url: item.web_reader_url@,
        resource_type: item.resource_type@,
        origin_type: item.origin_type@,
    }
}

impl LibraryItem {
    pub fn into_book(self) -> (r: Book)
        ensures
            r.deep_view() == book_of(self),
    {
        let authors = normalize_authors(self.authors.as_slice());
        let cover_url = large_cover(self.product_url.as_str());
        Book {
            asin: self.asin,
            title: self.title,
            authors,
            cover_url,
            web_reader_url: self.web_reader_url,
            resource_type: self.resource_type,
            origin_type: self.origin_type,
        }
    }
}

/// What Amazon answers to a device registration.
#[derive(Debug)]
pub struct DeviceInfo {
    pub client_hash_id: String,
    pub device_name: String,
    pub device_session_token: String,
    pub eid: String,
}

/// What Amazon answers when a book is opened.
#[derive(Debug, Default)]
pub struct StartReading {
    pub is_owned: bool,
    pub is_sample: bool,
    pub format_version: String,
    pub yj_format_version: String,
    pub metadata_url: String,
    pub content_version: String,
    pub srl: Option<i64>,
    pub last_page_read_data: LastPageRead,
}

/// Where a book was last left.
#[derive(Debug, Default)]
pub struct LastPageRead {
    pub device_name: String,
    pub position: i64,
    pub sync_time: i64,
}

/// The extent of a book, and who made it.
#[derive(Debug, Default)]
pub struct BookMetadata {
    pub start_position: i64,
    pub end_position: i64,
    pub release_date: Option<String>,
    pub publisher: Option<String>,
    pub author_list: Vec<String>,
}

/// "Last, First" turned into "First Last": the parts between commas, each
/// trimmed, in reverse order with a space between.
pub open spec fn author_name(entry: Seq<char>) -> Seq<char> {
    text::joined(trimmed_parts(text::split(entry, seq![','])).reverse(), seq![' '])
}

pub open spec fn trimmed_parts(parts: Seq<Seq<char>>) -> Seq<Seq<char>> {
    Seq::new(parts.len(), |i: int| text::trimmed(parts[i]))
}

/// The names that the entries of one group hold; blank entries hold none.
pub open spec fn entry_names(entries: Seq<Seq<char>>) -> Seq<Seq<char>>
    decreases entries.len(),
{
    if entries.len() == 0 {
        Seq::empty()
    } else {
        let front = entry_names(entries.drop_last());
        let entry = text::trimmed(entries.last());
        if entry.len() == 0 {
            front
        } else {
            front.push(author_name(entry))
        }
    }
}

/// The names in all groups, in order. A group's entries stand between colons.
pub open spec fn group_names(groups: Seq<Seq<char>>) -> Seq<Seq<char>>
    decreases groups.len(),
{
    if groups.len() == 0 {
        Seq::empty()
    } else {
        group_names(groups.drop_last()) + entry_names(text::split(groups.last(), seq![':']))
    }
}

/// `names` without those that occurred before.
pub open spec fn distinct(names: Seq<Seq<char>>) -> Seq<Seq<char>>
    decreases names.len(),
{
    if names.len() == 0 {
        Seq::empty()
    } else {
        let front = distinct(names.drop_last());
        if front.contains(names.last()) {
            front
        } else {
            front.push(names.last())
        }
    }
}

/// The names of a book's authors, each once, in the order in which they come.
pub open spec fn normalized_authors(groups: Seq<Seq<char>>) -> Seq<Seq<char>> {
    distinct(group_names(groups))
}

fn holds_name(names: &Vec<String>, name: &String) -> (r: bool)
    ensures
        r == text::views(names@).contains(name@),
{
    for i in 0..names.len()
        invariant
            forall|j: int| 0 <= j < i ==> text::views(names@)[j] != name@,
    {
        if names[i] == *name {
            assert(text::views(names@)[i as int] == name@);
            return true;
        }
    }
    false
}

fn name_from_entry(entry: &str) -> (r: String)
    ensures
        r@ == author_name(entry@),
{
    let comma = vec![','];
    assert(comma@ == seq![',']);
    let parts = text::split_text(entry, &comma);
    let ghost wanted = trimmed_parts(text::split(entry@, seq![','])).reverse();
    let mut reversed: Vec<String> = Vec::new();
    let mut left: usize = parts.len();
    while left > 0
        invariant
            left <= parts@.len(),
            text::views(parts@) == text::split(entry@, seq![',']),
            wanted == trimmed_parts(text::split(entry@, seq![','])).reverse(),
            text::views(reversed@) == wanted.take(parts@.len() - left),
        decreases left,
    {
        left = left - 1;
        let ghost before = text::views(reversed@);
        let part = text::trim(parts[left].as_str());
        assert(part@ == wanted[parts@.len() - left - 1]) by {
            assert(text::views(parts@)[left as int] == parts@[left as int]@);
        }
        reversed.push(part);
        assert(text::views(reversed@) == before.push(part@));
        assert(text::views(reversed@) == wanted.take(parts@.len() - left));
    }
    assert(text::views(reversed@) == wanted);
    proof {
        reveal_strlit(" ");
        assert(" "@ == seq![' ']);
    }
    text::join(&reversed, " ")
}

/// The names of a book's authors: Amazon gives them as "Last, First" entries
/// with colons between.
pub fn normalize_authors(raw: &[String]) -> (r: Vec<String>)
    ensures
        text::views(r@) == normalized_authors(text::views(raw@)),
{
    let mut out: Vec<String> = Vec::new();
    let colon = vec![':'];
    let ghost groups = text::views(raw@);
    for i in 0..raw.len()
        invariant
            colon@ == seq![':'],
            groups == text::views(raw@),
            text::views(out@) == distinct(group_names(groups.take(i as int))),
    {
        let ghost done = group_names(groups.take(i as int));
        let entries = text::split_text(raw[i].as_str(), &colon);
        let ghost all = text::views(entries@);
        assert(all.take(0) == Seq::<Seq<char>>::empty());
        assert(done + entry_names(all.take(0)) == done);
        for j in 0..entries.len()
            invariant
                all == text::views(entries@),
                text::views(out@) == distinct(done + entry_names(all.take(j as int))),
        {
            let entry = text::trim(entries[j].as_str());
            let ghost before = done + entry_names(all.take(j as int));
            proof {
                assert(all.take(j + 1).drop_last() == all.take(j as int));
                assert(all.take(j + 1).last() == entries@[j as int]@);
            }
            if !entry.as_str().is_empty() {
                let name = name_from_entry(entry.as_str());
                proof {
                    let after = done + entry_names(all.take(j + 1));
                    assert(after == before.push(name@));
                    assert(after.drop_last() == before);
                }
                let ghost kept = text::views(out@);
                let ghost new = name@;
                if !holds_name(&out, &name) {
                    out.push(name);
                    assert(text::views(out@) == kept.push(new));
                }
            }
        }
        proof {
            assert(all.take(entries@.len() as int) == all);
            assert(groups.take(i + 1).drop_last() == groups.take(i as int));
            assert(groups.take(i + 1).last() == raw@[i as int]@);
        }
    }
    assert(groups.take(raw@.len() as int) == groups);
    out
}

/// No author's name occurs twice.
pub proof fn lemma_authors_distinct(groups: Seq<Seq<char>>)
    ensures
        normalized_authors(groups).no_duplicates(),
{
    lemma_distinct(group_names(groups));
}

/// A name that is spelt out: neither a colon nor a comma in it.
pub open spec fn spelt_out(name: Seq<char>) -> bool {
    text::free_of(name, seq![':']) && text::free_of(name, seq![','])
}

/// No author's name holds a colon or a comma.
pub proof fn lemma_authors_spelt_out(groups: Seq<Seq<char>>, i: int)
    requires
        0 <= i < normalized_authors(groups).len(),
    ensures
        spelt_out(normalized_authors(groups)[i]),
{
    let names = group_names(groups);
    lemma_distinct_members(names, i);
    let k = choose|k: int| 0 <= k < names.len() && names[k] == distinct(names)[i];
    lemma_group_names(groups, k);
}

/// None of the parts between an entry's commas is blank.
pub open spec fn parts_not_blank(entry: Seq<char>) -> bool {
    forall|i: int|
        0 <= i < text::split(entry, seq![',']).len() ==> text::trimmed(
            #[trigger] text::split(entry, seq![','])[i],
        ).len() > 0
}

/// Wherever the group has an entry, none of the entry's parts is blank.
pub open spec fn entries_not_blank(group: Seq<char>) -> bool {
    forall|i: int|
        0 <= i < text::split(group, seq![':']).len() && text::trimmed(
            #[trigger] text::split(group, seq![':'])[i],
        ).len() > 0 ==> parts_not_blank(text::trimmed(text::split(group, seq![':'])[i]))
}

/// Names that have been normalized stay as they are when they are normalized
/// again, if no part of a name was blank.
pub proof fn lemma_authors_settled(groups: Seq<Seq<char>>)
    requires
        forall|i: int| 0 <= i < groups.len() ==> entries_not_blank(#[trigger] groups[i]),
    ensures
        normalized_authors(normalized_authors(groups)) == normalized_authors(groups),
{
    let names = group_names(groups);
    let authors = normalized_authors(groups);
    lemma_authors_distinct(groups);
    assert forall|i: int| 0 <= i < authors.len() implies settled_name(#[trigger] authors[i]) by {
        lemma_distinct_members(names, i);
        let k = choose|k: int| 0 <= k < names.len() && names[k] == authors[i];
        lemma_group_names(groups, k);
    }
    lemma_settled_names(authors);
    lemma_distinct_again(authors);
}

/// A name that is spelt out and has no white space at its ends.
spec fn settled_name(name: Seq<char>) -> bool {
    &&& spelt_out(name)
    &&& name.len() > 0
    &&& !text::is_white_space(name.first())
    &&& !text::is_white_space(name.last())
}

proof fn lemma_distinct_members(names: Seq<Seq<char>>, i: int)
    requires
        0 <= i < distinct(names).len(),
    ensures
        names.contains(distinct(names)[i]),
    decreases names.len(),
{
    if names.len() > 0 {
        let front = distinct(names.drop_last());
        if i < front.len() {
            lemma_distinct_members(names.drop_last(), i);
            let k = choose|k: int|
                0 <= k < names.drop_last().len() && names.drop_last()[k] == front[i];
            assert(names[k] == front[i]);
        } else {
            assert(names[names.len() - 1] == distinct(names)[i]);
        }
    }
}

proof fn lemma_distinct_again(names: Seq<Seq<char>>)
    requires
        names.no_duplicates(),
    ensures
        distinct(names) == names,
    decreases names.len(),
{
    if names.len() > 0 {
        let front = names.drop_last();
        lemma_distinct_again(front);
        if front.contains(names.last()) {
            let k = choose|k: int| 0 <= k < front.len() && front[k] == names.last();
            assert(names[k] == names[names.len() - 1]);
        }
        assert(front.push(names.last()) == names);
    } else {
        assert(distinct(names) == names);
    }
}

proof fn lemma_joined_free(parts: Seq<Seq<char>>, sep: Seq<char>, chars: Seq<char>)
    requires
        text::free_of(sep, chars),
        forall|i: int| 0 <= i < parts.len() ==> text::free_of(#[trigger] parts[i], chars),
    ensures
        text::free_of(text::joined(parts, sep), chars),
    decreases parts.len(),
{
    if parts.len() > 0 {
        let less = parts.drop_last();
        assert forall|i: int| 0 <= i < less.len() implies text::free_of(
            #[trigger] less[i],
            chars,
        ) by {
            assert(less[i] == parts[i]);
        }
        lemma_joined_free(less, sep, chars);
        let front = text::joined(less, sep);
        let glue = if parts.len() > 1 {
            sep
        } else {
            Seq::empty()
        };
        let last = parts[parts.len() - 1];
        assert(text::free_of(last, chars));
        let all = front + glue + last;
        assert forall|i: int| 0 <= i < all.len() implies !chars.contains(#[trigger] all[i]) by {
            if i < front.len() {
                assert(all[i] == front[i]);
            } else if i < front.len() + glue.len() {
                assert(all[i] == glue[i - front.len()]);
            } else {
                assert(all[i] == last[i - front.len() - glue.len()]);
            }
        }
    }
}

proof fn lemma_joined_ends(parts: Seq<Seq<char>>, sep: Seq<char>)
    requires
        parts.len() > 0,
        forall|i: int|
            0 <= i < parts.len() ==> (#[trigger] parts[i]).len() > 0 && !text::is_white_space(
                parts[i].first(),
            ) && !text::is_white_space(parts[i].last()),
    ensures
        text::joined(parts, sep).len() > 0,
        !text::is_white_space(text::joined(parts, sep).first()),
        !text::is_white_space(text::joined(parts, sep).last()),
    decreases parts.len(),
{
    let less = parts.drop_last();
    let last = parts[parts.len() - 1];
    assert(last.len() > 0);
    let all = text::joined(parts, sep);
    assert(all[all.len() - 1] == last[last.len() - 1]);
    if parts.len() > 1 {
        assert forall|i: int| 0 <= i < less.len() implies (#[trigger] less[i]).len() > 0
            && !text::is_white_space(less[i].first()) && !text::is_white_space(less[i].last()) by {
            assert(less[i] == parts[i]);
        }
        lemma_joined_ends(less, sep);
        assert(all[0] == text::joined(less, sep)[0]);
    } else {
        assert(less.len() == 0);
        assert(text::joined(less, sep) == Seq::<char>::empty());
        assert(all[0] == last[0]);
    }
}

/// The name of an entry without a colon is spelt out, and has no white space at
/// its ends if no part of it is blank.
proof fn lemma_author_name(entry: Seq<char>)
    requires
        text::free_of(entry, seq![':']),
    ensures
        spelt_out(author_name(entry)),
        parts_not_blank(entry) ==> settled_name(author_name(entry)),
{
    let split = text::split(entry, seq![',']);
    let parts = trimmed_parts(split).reverse();
    let space = seq![' '];
    text::lemma_split_not_empty(entry, seq![',']);
    text::lemma_split_parts_free(entry, seq![',']);
    text::lemma_split_keeps_free(entry, seq![','], seq![':']);
    assert forall|i: int| 0 <= i < parts.len() implies text::free_of(#[trigger] parts[i], seq![','])
        && text::free_of(parts[i], seq![':']) by {
        let part = split[split.len() - 1 - i];
        assert(text::free_of(part, seq![',']) && text::free_of(part, seq![':']));
        text::lemma_trimmed_keeps_free(part, seq![',']);
        text::lemma_trimmed_keeps_free(part, seq![':']);
        assert(parts[i] == text::trimmed(part));
    }
    assert(text::free_of(space, seq![',']));
    assert(text::free_of(space, seq![':']));
    lemma_joined_free(parts, space, seq![',']);
    lemma_joined_free(parts, space, seq![':']);
    if parts_not_blank(entry) {
        assert forall|i: int| 0 <= i < parts.len() implies (#[trigger] parts[i]).len() > 0
            && !text::is_white_space(parts[i].first()) && !text::is_white_space(
            parts[i].last(),
        ) by {
            let part = split[split.len() - 1 - i];
            assert(parts[i] == text::trimmed(part));
            text::lemma_trimmed(part);
        }
        lemma_joined_ends(parts, space);
    }
}

proof fn lemma_entry_names(entries: Seq<Seq<char>>, i: int)
    requires
        forall|k: int| 0 <= k < entries.len() ==> text::free_of(#[trigger] entries[k], seq![':']),
        0 <= i < entry_names(entries).len(),
    ensures
        spelt_out(entry_names(entries)[i]),
        (forall|k: int|
            0 <= k < entries.len() && text::trimmed(#[trigger] entries[k]).len() > 0
                ==> parts_not_blank(text::trimmed(entries[k]))) ==> settled_name(
            entry_names(entries)[i],
        ),
    decreases entries.len(),
{
    if entries.len() > 0 {
        let less = entries.drop_last();
        let front = entry_names(less);
        if i < front.len() {
            assert forall|k: int| 0 <= k < less.len() implies text::free_of(
                #[trigger] less[k],
                seq![':'],
            ) by {
                assert(less[k] == entries[k]);
            }
            lemma_entry_names(less, i);
            if forall|k: int|
                0 <= k < entries.len() && text::trimmed(#[trigger] entries[k]).len() > 0
                    ==> parts_not_blank(text::trimmed(entries[k])) {
                assert forall|k: int|
                    0 <= k < less.len() && text::trimmed(
                        #[trigger] less[k],
                    ).len() > 0 implies parts_not_blank(text::trimmed(less[k])) by {
                    assert(less[k] == entries[k]);
                }
            }
        } else {
            let last = entries[entries.len() - 1];
            assert(text::free_of(last, seq![':']));
            text::lemma_trimmed_keeps_free(last, seq![':']);
            lemma_author_name(text::trimmed(last));
        }
    }
}

proof fn lemma_group_names(groups: Seq<Seq<char>>, i: int)
    requires
        0 <= i < group_names(groups).len(),
    ensures
        spelt_out(group_names(groups)[i]),
        (forall|k: int| 0 <= k < groups.len() ==> entries_not_blank(#[trigger] groups[k]))
            ==> settled_name(group_names(groups)[i]),
    decreases groups.len(),
{
    if groups.len() > 0 {
        let less = groups.drop_last();
        let front = group_names(less);
        if i < front.len() {
            lemma_group_names(less, i);
            if forall|k: int| 0 <= k < groups.len() ==> entries_not_blank(#[trigger] groups[k]) {
                assert forall|k: int| 0 <= k < less.len() implies entries_not_blank(
                    #[trigger] less[k],
                ) by {
                    assert(less[k] == groups[k]);
                }
            }
        } else {
            let last = groups[groups.len() - 1];
            let entries = text::split(last, seq![':']);
            text::lemma_split_parts_free(last, seq![':']);
            lemma_entry_names(entries, i - front.len());
            assert(group_names(groups)[i] == entry_names(entries)[i - front.len()]);
        }
    }
}

proof fn lemma_settled_names(names: Seq<Seq<char>>)
    requires
        forall|i: int| 0 <= i < names.len() ==> settled_name(#[trigger] names[i]),
    ensures
        group_names(names) == names,
    decreases names.len(),
{
    if names.len() > 0 {
        let less = names.drop_last();
        assert forall|i: int| 0 <= i < less.len() implies settled_name(#[trigger] less[i]) by {
            assert(less[i] == names[i]);
        }
        lemma_settled_names(less);
        let name = names[names.len() - 1];
        assert(settled_name(name));
        text::lemma_split_whole(name, seq![':']);
        text::lemma_split_whole(name, seq![',']);
        text::lemma_trimmed_fixed(name);
        let parts = trimmed_parts(seq![name]).reverse();
        assert(parts == seq![name]);
        assert(seq![name].drop_last() == Seq::<Seq<char>>::empty());
        assert(text::joined(Seq::<Seq<char>>::empty(), seq![' ']) == Seq::<char>::empty());
        assert(text::joined(seq![name], seq![' ']) == Seq::<char>::empty() + Seq::<char>::empty()
            + name);
        assert(author_name(name) == name);
        assert(entry_names(Seq::<Seq<char>>::empty()) == Seq::<Seq<char>>::empty());
        assert(entry_names(seq![name]) == seq![name]);
        assert(less + seq![name] == names);
    } else {
        assert(group_names(names) == names);
    }
}

proof fn lemma_distinct(names: Seq<Seq<char>>)
    ensures
        distinct(names).no_duplicates(),
    decreases names.len(),
{
    if names.len() > 0 {
        lemma_distinct(names.drop_last());
    }
}

pub open spec fn is_digit(c: char) -> bool {
    '0' <= c <= '9'
}

/// How many digits `s` begins with.
pub open spec fn digit_run(s: Seq<char>) -> nat
    decreases s.len(),
{
    if s.len() > 0 && is_digit(s.first()) {
        1 + digit_run(s.drop_first())
    } else {
        0
    }
}

/// The length of the size marker that `s` begins with: `._SY`, digits, `_.`.
pub open spec fn size_marker(s: Seq<char>) -> Option<int> {
    let digits = digit_run(s.skip(4)) as int;
    if s.len() >= 4 && s.take(4) == seq!['.', '_', 'S', 'Y'] && s.len() >= digits + 6
        && s[digits + 4] == '_' && s[digits + 5] == '.' {
        Some(digits + 6)
    } else {
        None
    }
}

/// `url` with each size marker, from left to right, replaced by a dot.
pub open spec fn large_cover_of(url: Seq<char>) -> Seq<char>
    decreases url.len(),
{
    if url.len() == 0 {
        Seq::empty()
    } else {
        match size_marker(url) {
            Some(len) => seq!['.'] + large_cover_of(url.skip(len)),
            None => seq![url.first()] + large_cover_of(url.drop_first()),
        }
    }
}

proof fn lemma_digit_run(s: Seq<char>, n: int)
    requires
        0 <= n <= s.len(),
        forall|i: int| 0 <= i < n ==> is_digit(s[i]),
        n < s.len() ==> !is_digit(s[n]),
    ensures
        digit_run(s) == n,
    decreases n,
{
    if n > 0 {
        assert forall|i: int| 0 <= i < n - 1 implies is_digit(s.drop_first()[i]) by {
            assert(s.drop_first()[i] == s[i + 1]);
        }
        lemma_digit_run(s.drop_first(), n - 1);
    }
}

fn marker_at(chars: &Vec<char>, at: usize) -> (r: Option<usize>)
    requires
        at < chars@.len(),
    ensures
        match (r, size_marker(chars@.skip(at as int))) {
            (Some(len), Some(wanted)) => len == wanted && at + len <= chars@.len(),
            (None, None) => true,
            _ => false,
        },
{
    let ghost s = chars@.skip(at as int);
    let len = chars.len();
    if len - at < 4 {
        return None;
    }
    proof {
        let sy = seq!['.', '_', 'S', 'Y'];
        if chars@[at as int] == '.' && chars@[at + 1] == '_' && chars@[at + 2] == 'S' && chars@[at + 3]
            == 'Y' {
            assert(s.take(4) == sy);
        } else {
            assert(s.take(4)[0] == chars@[at as int]);
            assert(s.take(4)[1] == chars@[at + 1]);
            assert(s.take(4)[2] == chars@[at + 2]);
            assert(s.take(4)[3] == chars@[at + 3]);
            assert(s.take(4) != sy);
        }
    }
    if chars[at] != '.' || chars[at + 1] != '_' || chars[at + 2] != 'S' || chars[at + 3] != 'Y' {
        return None;
    }
    let mut end: usize = at + 4;
    while end < len && '0' <= chars[end] && chars[end] <= '9'
        invariant
            at + 4 <= end <= len,
            len == chars@.len(),
            forall|i: int| at + 4 <= i < end ==> is_digit(chars@[i]),
        decreases len - end,
    {
        end = end + 1;
    }
    proof {
        lemma_digit_run(s.skip(4), end - at - 4);
    }
    if len - end >= 2 && chars[end] == '_' && chars[end + 1] == '.' {
        Some(end + 2 - at)
    } else {
        None
    }
}

/// The address of a cover at full size: Amazon puts a size marker such as
/// `._SY400_.` before the file's ending.
pub fn large_cover(url: &str) -> (r: String)
    ensures
        r@ == large_cover_of(url@),
{
    let chars = text::chars_of(url);
    let mut out = String::new();
    let mut at: usize = 0;
    assert(url@.skip(0) == url@);
    while at < chars.len()
        invariant
            chars@ == url@,
            at <= chars@.len(),
            out@ + large_cover_of(url@.skip(at as int)) == large_cover_of(url@),
        decreases chars@.len() - at,
    {
        let ghost rest = url@.skip(at as int);
        let ghost before = out@;
        match marker_at(&chars, at) {
            Some(len) => {
                out.push('.');
                at = at + len;
                assert(rest.skip(len as int) == url@.skip(at as int));
                assert(before + (seq!['.'] + large_cover_of(url@.skip(at as int))) == out@
                    + large_cover_of(url@.skip(at as int)));
            },
            None => {
                out.push(chars[at]);
                at = at + 1;
                assert(rest.drop_first() == url@.skip(at as int));
                assert(before + (seq![rest.first()] + large_cover_of(url@.skip(at as int))) == out@
                    + large_cover_of(url@.skip(at as int)));
            },
        }
    }
    assert(out@ + large_cover_of(url@.skip(at as int)) == out@);
    out
}

/// An address without a size marker is left alone.
pub proof fn lemma_cover_without_marker(url: Seq<char>)
    requires
        forall|i: int| 0 <= i < url.len() ==> size_marker(#[trigger] url.skip(i)) is None,
    ensures
        large_cover_of(url) == url,
    decreases url.len(),
{
    if url.len() > 0 {
        assert(url.skip(0) == url);
        let rest = url.drop_first();
        assert forall|i: int| 0 <= i < rest.len() implies size_marker(#[trigger] rest.skip(i)) is None by {
            assert(rest.skip(i) == url.skip(i + 1));
        }
        lemma_cover_without_marker(rest);
        assert(seq![url.first()] + rest == url);
    }
}

/// A book is what its item lists, with the authors' names and the cover's
/// address cleaned up.
pub proof fn lemma_book_is_what_is_listed(item: LibraryItem)
    ensures
        book_of(item).asin == item.asin@,
        book_of(item).title == item.title@,
        book_of(item).web_reader_url == item.web_reader_url@,
        book_of(item).resource_type == item.resource_type@,
        book_of(item).origin_type == item.origin_type@,
        book_of(item).authors == normalized_authors(text::views(item.authors@)),
        book_of(item).cover_url == large_cover_of(item.product_url@),
{
}

/// The highlights of a book are its items, counted, and limited if and only if
/// one of them is cut.
pub proof fn lemma_highlights_are_the_items(asin: Seq<char>, items: Seq<HighlightView>)
    ensures
        book_highlights(asin, items).asin == asin,
        book_highlights(asin, items).items == items,
        book_highlights(asin, items).count == items.len(),
        book_highlights(asin, items).limited <==> exists|i: int|
            0 <= i < items.len() && (#[trigger] items[i]).truncated,
{
}

/// A size marker, `._SY`, digits and `_.`, is replaced by a dot, and the rest of
/// the address follows.
pub proof fn lemma_cover_marker_goes(url: Seq<char>, n: int)
    requires
        url.len() >= n >= 6,
        url[0] == '.' && url[1] == '_' && url[2] == 'S' && url[3] == 'Y',
        forall|i: int| 4 <= i < n - 2 ==> '0' <= #[trigger] url[i] <= '9',
        url[n - 2] == '_' && url[n - 1] == '.',
    ensures
        large_cover_of(url) == seq!['.'] + large_cover_of(url.skip(n)),
{
    lemma_size_marker(url, n);
}

proof fn lemma_size_marker(url: Seq<char>, n: int)
    requires
        url.len() >= n >= 6,
        url[0] == '.' && url[1] == '_' && url[2] == 'S' && url[3] == 'Y',
        forall|i: int| 4 <= i < n - 2 ==> '0' <= #[trigger] url[i] <= '9',
        url[n - 2] == '_' && url[n - 1] == '.',
    ensures
        size_marker(url) == Some(n),
{
    let behind = url.skip(4);
    assert forall|i: int| 0 <= i < n - 6 implies is_digit(#[trigger] behind[i]) by {
        assert(behind[i] == url[i + 4]);
    }
    assert(behind[n - 6] == url[n - 2]);
    lemma_digit_run(behind, n - 6);
    assert(url.take(4) == seq!['.', '_', 'S', 'Y']);
}

proof fn lemma_run_of_digits(s: Seq<char>)
    ensures
        digit_run(s) <= s.len(),
        forall|i: int| 0 <= i < digit_run(s) ==> '0' <= #[trigger] s[i] <= '9',
    decreases s.len(),
{
    if s.len() > 0 && is_digit(s.first()) {
        lemma_run_of_digits(s.drop_first());
        assert forall|i: int| 0 <= i < digit_run(s) implies '0' <= #[trigger] s[i] <= '9' by {
            if i > 0 {
                assert(s[i] == s.drop_first()[i - 1]);
            }
        }
    }
}

/// An address that begins with no size marker keeps its first character.
pub proof fn lemma_cover_keeps_the_rest(url: Seq<char>)
    requires
        url.len() > 0,
        forall|n: int|
            #![trigger url.skip(n)]
            !({
                &&& url.len() >= n >= 6
                &&& url[0] == '.' && url[1] == '_' && url[2] == 'S' && url[3] == 'Y'
                &&& forall|i: int| 4 <= i < n - 2 ==> '0' <= #[trigger] url[i] <= '9'
                &&& url[n - 2] == '_' && url[n - 1] == '.'
            }),
    ensures
        large_cover_of(url) == seq![url[0]] + large_cover_of(url.skip(1)),
        large_cover_of(Seq::empty()) == Seq::<char>::empty(),
{
    if let Some(n) = size_marker(url) {
        let behind = url.skip(4);
        lemma_run_of_digits(behind);
        assert forall|i: int| 4 <= i < n - 2 implies '0' <= #[trigger] url[i] <= '9' by {
            assert(url[i] == behind[i - 4]);
        }
        let start = url.take(4);
        assert(start[0] == '.' && start[1] == '_' && start[2] == 'S' && start[3] == 'Y');
        let rest = url.skip(n);
    }
    assert(url.skip(1) == url.drop_first());
}

/// An entry without a comma is a name as it stands, trimmed; otherwise what
/// stands behind its last comma comes first.
pub proof fn lemma_author_name_is_turned(last: Seq<char>, first: Seq<char>)
    requires
        !first.contains(','),
    ensures
        author_name(first) == text::trimmed(first),
        author_name(last + seq![','] + first) == text::trimmed(first) + seq![' '] + author_name(
            last,
        ),
{
    let comma = seq![','];
    assert(comma[0] == ',');
    assert(text::free_of(first, comma));
    text::lemma_split_whole(first, comma);
    let name = text::trimmed(first);
    assert(trimmed_parts(text::split(first, comma)) == seq![name]);
    assert(seq![name].reverse() == seq![name]);
    text::lemma_join_one_more(Seq::empty(), name, seq![' ']);
    text::lemma_split_in_turn(last, ',', first, comma);
    let before = trimmed_parts(text::split(last, comma));
    let all = trimmed_parts(text::split(last + comma + first, comma));
    assert(all == before.push(name));
    assert(all.reverse() == seq![name] + before.reverse());
    text::lemma_split_not_empty(last, comma);
    text::lemma_join_in_front(name, before.reverse(), seq![' ']);
}

/// The names of several groups are those of each, one group after the other,
/// and so are those of the entries between the colons of a group. A blank entry
/// has none, and any other one.
pub proof fn lemma_names_in_turn(groups: Seq<Seq<char>>, group: Seq<char>, entry: Seq<char>)
    requires
        !entry.contains(':'),
    ensures
        group_names(Seq::empty()) == Seq::<Seq<char>>::empty(),
        group_names(groups.push(group)) == group_names(groups) + group_names(seq![group]),
        group_names(seq![group + seq![':'] + entry]) == group_names(seq![group]) + group_names(
            seq![entry],
        ),
        text::trimmed(entry).len() == 0 ==> group_names(seq![entry]).len() == 0,
        text::trimmed(entry).len() > 0 ==> group_names(seq![entry]) == seq![
            author_name(text::trimmed(entry)),
        ],
{
    let colon = seq![':'];
    assert(colon[0] == ':');
    assert(groups.push(group).drop_last() == groups);
    let both = group + colon + entry;
    lemma_names_of_one_group(group);
    lemma_names_of_one_group(entry);
    lemma_names_of_one_group(both);
    text::lemma_split_in_turn(group, ':', entry, colon);
    assert(text::free_of(entry, colon));
    text::lemma_split_whole(entry, colon);
    let before = text::split(group, colon);
    let one = seq![entry];
    assert(text::split(entry, colon) == one);
    assert(before + one == before.push(entry));
    assert(before.push(entry).drop_last() == before);
    assert(one.drop_last() == Seq::<Seq<char>>::empty());
    assert(entry_names(one.drop_last()) == Seq::<Seq<char>>::empty());
    if text::trimmed(entry).len() > 0 {
        let name = author_name(text::trimmed(entry));
        assert(entry_names(one) == Seq::<Seq<char>>::empty().push(name));
        assert(entry_names(one) == seq![name]);
        assert(entry_names(before) + seq![name] == entry_names(before).push(name));
    } else {
        assert(entry_names(before) + entry_names(one) == entry_names(before));
    }
}

proof fn lemma_names_of_one_group(group: Seq<char>)
    ensures
        group_names(seq![group]) == entry_names(text::split(group, seq![':'])),
{
    let one = seq![group];
    assert(one.drop_last() == Seq::<Seq<char>>::empty());
    assert(group_names(one.drop_last()) == Seq::<Seq<char>>::empty());
    assert(Seq::<Seq<char>>::empty() + entry_names(text::split(group, seq![':'])) == entry_names(
        text::split(group, seq![':']),
    ));
}

/// A book's authors are the names that its groups give, each where it first
/// stands, in their order.
pub proof fn lemma_authors_follow_names(groups: Seq<Seq<char>>) -> (order: Seq<int>)
    ensures
        order.len() == normalized_authors(groups).len(),
        forall|i: int, j: int| 0 <= i < j < order.len() ==> order[i] < order[j],
        forall|i: int|
            0 <= i < order.len() ==> 0 <= #[trigger] order[i] < group_names(groups).len()
                && normalized_authors(groups)[i] == group_names(groups)[order[i]],
        forall|k: int|
            0 <= k < group_names(groups).len() ==> (#[trigger] order.contains(k) <==> forall|j: int|
                0 <= j < k ==> #[trigger] group_names(groups)[j] != group_names(groups)[k]),
{
    lemma_distinct_follow(group_names(groups))
}

proof fn lemma_distinct_follow(names: Seq<Seq<char>>) -> (order: Seq<int>)
    ensures
        order.len() == distinct(names).len(),
        forall|i: int, j: int| 0 <= i < j < order.len() ==> order[i] < order[j],
        forall|i: int|
            0 <= i < order.len() ==> 0 <= #[trigger] order[i] < names.len() && distinct(names)[i]
                == names[order[i]],
        forall|k: int|
            0 <= k < names.len() ==> (#[trigger] order.contains(k) <==> forall|j: int|
                0 <= j < k ==> #[trigger] names[j] != names[k]),
    decreases names.len(),
{
    if names.len() == 0 {
        Seq::empty()
    } else {
        let front = names.drop_last();
        let before = lemma_distinct_follow(front);
        let known = distinct(front);
        let last = names.len() - 1;
        let order = if known.contains(names[last]) {
            before
        } else {
            before.push(last)
        };
        if known.contains(names[last]) {
            let i = choose|i: int| 0 <= i < known.len() && known[i] == names[last];
            assert(front[before[i]] == names[before[i]]);
            assert(names[before[i]] == names[last]);
        } else {
            assert forall|j: int| 0 <= j < last implies #[trigger] names[j] != names[last] by {
                lemma_name_is_kept(front, j);
                assert(front[j] == names[j]);
            }
        }
        assert forall|i: int| 0 <= i < order.len() implies 0 <= #[trigger] order[i] < names.len()
            && distinct(names)[i] == names[order[i]] by {
            if i < before.len() {
                assert(order[i] == before[i]);
                assert(front[before[i]] == names[before[i]]);
            }
        }
        assert forall|k: int| 0 <= k < names.len() implies (#[trigger] order.contains(k)
            <==> forall|j: int| 0 <= j < k ==> #[trigger] names[j] != names[k]) by {
            if k < last {
                assert(front[k] == names[k]);
                assert(before.contains(k) <==> forall|j: int|
                    0 <= j < k ==> #[trigger] front[j] != front[k]);
                if before.contains(k) {
                    let at = choose|at: int| 0 <= at < before.len() && before[at] == k;
                    assert(order[at] == k);
                    assert forall|j: int| 0 <= j < k implies #[trigger] names[j] != names[k] by {
                        assert(front[j] == names[j]);
                    }
                } else {
                    let j = choose|j: int| 0 <= j < k && #[trigger] front[j] == front[k];
                    assert(names[j] == front[j]);
                    if order.contains(k) {
                        let at = choose|at: int| 0 <= at < order.len() && order[at] == k;
                        assert(before[at] == k);
                    }
                }
            } else if !known.contains(names[last]) {
                assert(order[before.len() as int] == last);
            } else if order.contains(k) {
                let at = choose|at: int| 0 <= at < order.len() && order[at] == k;
                assert(before[at] == last);
            }
        }
        order
    }
}

proof fn lemma_name_is_kept(names: Seq<Seq<char>>, k: int)
    requires
        0 <= k < names.len(),
    ensures
        distinct(names).contains(names[k]),
    decreases names.len(),
{
    let front = distinct(names.drop_last());
    let all = distinct(names);
    if k < names.len() - 1 {
        lemma_name_is_kept(names.drop_last(), k);
        let i = choose|i: int| 0 <= i < front.len() && front[i] == names[k];
        assert(all[i] == front[i]);
    } else if front.contains(names[k]) {
        let i = choose|i: int| 0 <= i < front.len() && front[i] == names[k];
        assert(all[i] == front[i]);
    } else {
        assert(all[front.len() as int] == names[k]);
    }
}

/// What contracts say of a book is all that it holds.
pub proof fn lemma_books_seen_whole(book: Book, books: Seq<Book>, i: int)
    ensures
        book.deep_view().asin == book.asin@,
        book.deep_view().title == book.title@,
        book.deep_view().authors == text::views(book.authors@),
        book.deep_view().cover_url == book.cover_url@,
        book.deep_view().web_reader_url == book.web_reader_url@,
        book.deep_view().resource_type == book.resource_type@,
        book.deep_view().origin_type == book.origin_type@,
        book_views(books).len() == books.len(),
        0 <= i < books.len() ==> book_views(books)[i] == books[i].deep_view(),
{
}

/// What contracts say of highlights is all that they hold.
pub proof fn lemma_highlights_seen_whole(item: Highlight, book: Highlights, i: int)
    ensures
        item.deep_view().id == item.id.deep_view(),
        item.deep_view().text == item.text@,
        item.deep_view().note == item.note.deep_view(),
        item.deep_view().color == item.color.deep_view(),
        item.deep_view().location == item.location.deep_view(),
        item.deep_view().page == item.page,
        item.deep_view().position_type == item.position_type.deep_view(),
        item.deep_view().start == item.start,
        item.deep_view().end == item.end,
        item.deep_view().truncated == item.truncated,
        item.deep_view().verified == item.verified,
        item.deep_view().modified_at == item.modified_at,
        book@.asin == book.asin@,
        book@.count == book.count,
        book@.limited == book.limited,
        book@.items.len() == book.items@.len(),
        0 <= i < book.items@.len() ==> book@.items[i] == book.items@[i].deep_view(),
{
}

} // verus!
