//! One fetch of the library and of one book, with a report of how it went.

use vstd::prelude::*;

use crate::amazon::{Amazon, AmazonView, Error};
use crate::models;
use crate::models::{Book, BookView, Highlights, HighlightsView, Progress};
use crate::state;
use crate::text;

verus! {

/// How a fetch went, as far as it came. The percentage is in tenths.
pub struct FetchReport {
    pub ok: bool,
    pub error: Option<String>,
    pub library_count: usize,
    pub first_book: Option<Book>,
    pub progress: Option<Progress>,
    pub percentage_read: Option<i64>,
    pub highlights: Option<Highlights>,
}

pub struct ReportView {
    pub ok: bool,
    pub error: Option<Seq<char>>,
    pub library_count: nat,
    pub first_book: Option<BookView>,
    pub progress: Option<Progress>,
    pub percentage_read: Option<i64>,
    pub highlights: Option<HighlightsView>,
}

impl View for FetchReport {
    type V = ReportView;

    open spec fn view(&self) -> ReportView {
        ReportView {
            ok: self.ok,
            error: state::text_view(self.error),
            library_count: self.library_count as nat,
            first_book: match self.first_book {
                Some(book) => Some(book.deep_view()),
                None => None,
            },
            progress: self.progress,
            percentage_read: self.percentage_read,
            highlights: match self.highlights {
                Some(highlights) => Some(highlights@),
                None => None,
            },
        }
    }
}

impl ReportView {
    pub open spec fn empty() -> ReportView {
        ReportView {
            ok: false,
            error: None,
            library_count: 0,
            first_book: None,
            progress: None,
            percentage_read: None,
            highlights: None,
        }
    }

    /// The report of a fetch that has failed.
    pub open spec fn failed(self, error: Seq<char>) -> ReportView {
        ReportView { error: Some(error), ..self }
    }

    /// The report once the library has come.
    pub open spec fn with_library(self, books: Seq<BookView>) -> ReportView {
        ReportView {
            library_count: books.len(),
            first_book: if books.len() > 0 {
                Some(books[0])
            } else {
                None
            },
            ..self
        }
    }

    pub open spec fn finished(self) -> ReportView {
        ReportView { ok: true, ..self }
    }
}

/// A fetch that is over has either gone well or says why not.
pub proof fn lemma_report_settles(report: ReportView, error: Seq<char>)
    requires
        !report.ok,
        report.error is None,
    ensures
        report.finished().ok && report.finished().error is None,
        !report.failed(error).ok && report.failed(error).error == Some(error),
{
}

/// A secret as it stands in a file, without the white space around it.
pub fn read_secret(path: &str, file: Result<String, String>) -> (r: Result<String, String>)
    ensures
        match file {
            Ok(file) => r matches Ok(secret) && secret@ == text::trimmed(file@),
            Err(problem) => r matches Err(message) && message@ == "cannot read "@ + path@ + ": "@
                + problem@,
        },
{
    match file {
        Ok(file) => Ok(text::trim(file.as_str())),
        Err(problem) => Err(
            "cannot read ".to_owned().concat(path).concat(": ").concat(problem.as_str()),
        ),
    }
}

/// What a fetch begins with, or why it cannot.
pub open spec fn started(
    cookies: Result<String, String>,
    device_token: Result<String, String>,
    region: Seq<char>,
) -> Result<AmazonView, Seq<char>> {
    match (cookies, device_token) {
        (Err(message), _) => Err(message@),
        (_, Err(message)) => Err(message@),
        (Ok(cookies), Ok(device_token)) => match state::opened_session(
            cookies@,
            device_token@,
            region,
        ) {
            Ok(client) => Ok(client),
            Err(error) => Err(error.text()),
        },
    }
}

impl FetchReport {
    pub fn new() -> (r: Self)
        ensures
            r@ == ReportView::empty(),
    {
        FetchReport {
            ok: false,
            error: None,
            library_count: 0,
            first_book: None,
            progress: None,
            percentage_read: None,
            highlights: None,
        }
    }

    /// The session to fetch with, from the secrets as they were read.
    pub fn start(
        &mut self,
        cookies: Result<String, String>,
        device_token: Result<String, String>,
        region: &str,
    ) -> (r: Option<Amazon>)
        ensures
            match (r, started(cookies, device_token, region@)) {
                (Some(client), Ok(view)) => client@ == view && final(self)@ == old(self)@,
                (None, Err(message)) => final(self)@ == old(self)@.failed(message),
                _ => false,
            },
    {
        let cookies = match cookies {
            Ok(cookies) => cookies,
            Err(message) => {
                self.error = Some(message);
                return None;
            },
        };
        let device_token = match device_token {
            Ok(device_token) => device_token,
            Err(message) => {
                self.error = Some(message);
                return None;
            },
        };
        match state::open_session(cookies.as_str(), device_token.as_str(), region) {
            Ok(client) => Some(client),
            Err(error) => {
                self.error = Some(error.to_string());
                None
            },
        }
    }

    /// Takes in the library, and says which book comes next: the one that is
    /// asked for, or else the newest. Without either the fetch is over.
    pub fn library(&mut self, library: Result<Vec<Book>, Error>, asin: Option<String>) -> (r:
        Option<String>)
        ensures
            match library {
                Ok(books) => {
                    let listed = old(self)@.with_library(models::book_views(books@));
                    match asin {
                        Some(asin) => r == Some(asin) && final(self)@ == listed,
                        None => if books@.len() > 0 {
                            &&& r matches Some(target)
                            &&& target@ == books@[0].asin@
                            &&& final(self)@ == listed
                        } else {
                            r is None && final(self)@ == listed.finished()
                        },
                    }
                },
                Err(error) => r is None && final(self)@ == old(self)@.failed(error@.text()),
            },
    {
        let books = match library {
            Ok(books) => books,
            Err(error) => {
                self.error = Some(error.to_string());
                return None;
            },
        };
        self.library_count = books.len();
        if books.len() > 0 {
            self.first_book = Some(books[0].clone());
        } else {
            self.first_book = None;
        }
        if asin.is_some() {
            return asin;
        }
        if books.len() > 0 {
            return Some(books[0].asin.clone());
        }
        self.ok = true;
        None
    }

    /// Takes in where the book was left. Says whether the fetch goes on.
    pub fn progress(&mut self, progress: Result<Progress, Error>) -> (r: bool)
        ensures
            match progress {
                Ok(progress) => r && final(self)@ == (ReportView {
                    progress: Some(progress),
                    ..old(self)@
                }),
                Err(error) => !r && final(self)@ == old(self)@.failed(
                    "progress: "@ + error@.text(),
                ),
            },
    {
        match progress {
            Ok(progress) => {
                self.progress = Some(progress);
                true
            },
            Err(error) => {
                self.error = Some("progress: ".to_owned().concat(error.to_string().as_str()));
                false
            },
        }
    }

    /// Takes in how far the book has been read. Says whether the fetch goes on.
    pub fn percentage(&mut self, percentage: Result<i64, Error>) -> (r: bool)
        ensures
            match percentage {
                Ok(percentage) => r && final(self)@ == (ReportView {
                    percentage_read: Some(percentage),
                    ..old(self)@
                }),
                Err(error) => !r && final(self)@ == old(self)@.failed(
                    "percentage: "@ + error@.text(),
                ),
            },
    {
        match percentage {
            Ok(percentage) => {
                self.percentage_read = Some(percentage);
                true
            },
            Err(error) => {
                self.error = Some("percentage: ".to_owned().concat(error.to_string().as_str()));
                false
            },
        }
    }

    /// Takes in the highlights, which come last.
    pub fn highlights(&mut self, highlights: Result<Highlights, Error>)
        ensures
            match highlights {
                Ok(highlights) => final(self)@ == (ReportView {
                    highlights: Some(highlights@),
                    ..old(self)@
                }).finished(),
                Err(error) => final(self)@ == old(self)@.failed("highlights: "@ + error@.text()),
            },
    {
        match highlights {
            Ok(highlights) => {
                self.highlights = Some(highlights);
                self.ok = true;
            },
            Err(error) => {
                self.error = Some("highlights: ".to_owned().concat(error.to_string().as_str()));
            },
        }
    }
}

/// A report begins with nothing. The library adds how many books it has and the
/// first of them, the end says that all went well, and a failure says why not;
/// each leaves the rest of the report as it was.
pub proof fn lemma_what_reports_say(report: ReportView, books: Seq<BookView>, error: Seq<char>)
    ensures
        ({
            let empty = ReportView::empty();
            &&& !empty.ok
            &&& empty.error is None
            &&& empty.library_count == 0
            &&& empty.first_book is None
            &&& empty.progress is None
            &&& empty.percentage_read is None
            &&& empty.highlights is None
        }),
        ({
            let listed = report.with_library(books);
            &&& listed.library_count == books.len()
            &&& books.len() > 0 ==> listed.first_book == Some(books[0])
            &&& books.len() == 0 ==> listed.first_book is None
            &&& listed.ok == report.ok
            &&& listed.error == report.error
            &&& listed.progress == report.progress
            &&& listed.percentage_read == report.percentage_read
            &&& listed.highlights == report.highlights
        }),
        ({
            let failed = report.failed(error);
            &&& failed.error == Some(error)
            &&& failed.ok == report.ok
            &&& failed.library_count == report.library_count
            &&& failed.first_book == report.first_book
            &&& failed.progress == report.progress
            &&& failed.percentage_read == report.percentage_read
            &&& failed.highlights == report.highlights
        }),
        ({
            let finished = report.finished();
            &&& finished.ok
            &&& finished.error == report.error
            &&& finished.library_count == report.library_count
            &&& finished.first_book == report.first_book
            &&& finished.progress == report.progress
            &&& finished.percentage_read == report.percentage_read
            &&& finished.highlights == report.highlights
        }),
{
}

/// A fetch begins with the session that its secrets open. The cookies are
/// looked at before the device token, and both before what they open.
pub proof fn lemma_what_a_fetch_begins_with(
    cookies: String,
    device_token: String,
    problem: String,
    other: Result<String, String>,
    region: Seq<char>,
)
    ensures
        started(Err(problem), other, region) == Err::<AmazonView, Seq<char>>(problem@),
        started(Ok(cookies), Err(problem), region) == Err::<AmazonView, Seq<char>>(problem@),
        match state::opened_session(cookies@, device_token@, region) {
            Ok(session) => started(Ok(cookies), Ok(device_token), region) == Ok::<
                AmazonView,
                Seq<char>,
            >(session),
            Err(error) => started(Ok(cookies), Ok(device_token), region) == Err::<
                AmazonView,
                Seq<char>,
            >(error.text()),
        },
{
}

/// What contracts say of a report is all that it holds.
pub proof fn lemma_reports_seen_whole(report: FetchReport)
    ensures
        report@.ok == report.ok,
        report.error matches Some(error) ==> report@.error == Some(error@),
        report.error is None ==> report@.error is None,
        report@.library_count == report.library_count,
        report.first_book matches Some(book) ==> report@.first_book == Some(book.deep_view()),
        report.first_book is None ==> report@.first_book is None,
        report@.progress == report.progress,
        report@.percentage_read == report.percentage_read,
        report.highlights matches Some(highlights) ==> report@.highlights == Some(highlights@),
        report.highlights is None ==> report@.highlights is None,
{
}

} // verus!
