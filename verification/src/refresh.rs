//! A refresh: the library, and then the progress in its newest books.

use vstd::prelude::*;

use crate::amazon::{Amazon, Call, Error, ErrorView, LibraryRun};
use crate::keyed::Keyed;
use crate::models;
use crate::models::{Book, BookView};
use crate::reading::{CachedPoint, Points};
use crate::state;
use crate::state::{map_error, Failure, PROGRESS_BOOKS};

verus! {

/// What asking for the progress in one book came to.
pub type OutcomeView = Result<CachedPoint, ErrorView>;

pub open spec fn outcome_view(outcome: Result<CachedPoint, Error>) -> OutcomeView {
    match outcome {
        Ok(point) => Ok(point),
        Err(error) => Err(error@),
    }
}

pub open spec fn outcome_views(outcomes: Seq<Result<CachedPoint, Error>>) -> Seq<OutcomeView> {
    Seq::new(outcomes.len(), |i: int| outcome_view(outcomes[i]))
}

/// What is known of the progress after these outcomes, one for each of the
/// first books.
pub open spec fn points_of(books: Seq<BookView>, outcomes: Seq<OutcomeView>) -> Points
    decreases outcomes.len(),
{
    if outcomes.len() == 0 {
        Map::empty()
    } else {
        let front = points_of(books, outcomes.drop_last());
        match outcomes.last() {
            Ok(point) => front.insert(books[outcomes.len() - 1].asin, point),
            Err(_) => front,
        }
    }
}

/// Progress was asked for, and never came.
pub open spec fn all_failed(outcomes: Seq<OutcomeView>) -> bool {
    outcomes.len() > 0 && forall|i: int| 0 <= i < outcomes.len() ==> (#[trigger] outcomes[i]) is Err
}

/// Amazon refused to serve reading data to the session.
pub open spec fn refusal(outcome: OutcomeView) -> bool {
    outcome matches Err(error) && error matches ErrorView::Amazon { status, .. } && status == 403
}

/// The first refusal, at or after `from`.
pub open spec fn refused_from(outcomes: Seq<OutcomeView>, from: int) -> Option<int>
    decreases outcomes.len() - from,
{
    if from < 0 || from >= outcomes.len() {
        None
    } else if refusal(outcomes[from]) {
        Some(from)
    } else {
        refused_from(outcomes, from + 1)
    }
}

pub proof fn lemma_refused(outcomes: Seq<OutcomeView>, from: int)
    requires
        0 <= from <= outcomes.len(),
    ensures
        match refused_from(outcomes, from) {
            Some(at) => from <= at < outcomes.len() && refusal(outcomes[at]),
            None => forall|i: int| from <= i < outcomes.len() ==> !refusal(#[trigger] outcomes[i]),
        },
    decreases outcomes.len() - from,
{
    if from < outcomes.len() && !refusal(outcomes[from]) {
        lemma_refused(outcomes, from + 1);
    }
}

/// Why no progress came, as a code and a message: a refusal if there was one,
/// and the first failure otherwise.
pub open spec fn progress_failure(outcomes: Seq<OutcomeView>) -> Option<state::FailureView> {
    if !all_failed(outcomes) {
        None
    } else {
        match refused_from(outcomes, 0) {
            Some(at) => Some(("progress_unavailable"@, outcomes[at]->Err_0.text())),
            None => Some(("progress_error"@, outcomes[0]->Err_0.text())),
        }
    }
}

pub struct RefreshView {
    pub books: Seq<BookView>,
    pub has_token: bool,
    pub outcomes: Seq<OutcomeView>,
}

impl RefreshView {
    /// How many books the progress is asked for: none without a device token.
    pub open spec fn target_count(self) -> int {
        if !self.has_token {
            0
        } else if self.books.len() < PROGRESS_BOOKS {
            self.books.len() as int
        } else {
            PROGRESS_BOOKS as int
        }
    }

    pub open spec fn pending(self) -> bool {
        self.outcomes.len() < self.target_count()
    }

    /// There are books, and no more outcomes than were asked for.
    pub open spec fn valid(self) -> bool {
        self.books.len() > 0 && self.outcomes.len() <= self.target_count()
    }
}

/// A refresh whose library has come. Its books are never none.
pub struct RefreshRun {
    books: Vec<Book>,
    has_token: bool,
    outcomes: Vec<Result<CachedPoint, Error>>,
}

impl View for RefreshRun {
    type V = RefreshView;

    closed spec fn view(&self) -> RefreshView {
        RefreshView {
            books: models::book_views(self.books@),
            has_token: self.has_token,
            outcomes: outcome_views(self.outcomes@),
        }
    }
}

impl RefreshRun {
    /// Starts to list the library: every page of it.
    pub fn start(client: &Amazon) -> (r: (LibraryRun, Call))
        ensures
            r.0.fetch_all,
            models::book_views(r.0.books@) == Seq::<BookView>::empty(),
            r.1@ == client@.library_call(None),
    {
        client.library(true)
    }

    /// Goes on with the library, or says why it did not come. An empty one
    /// means that the cookies no longer do.
    pub fn new(has_token: bool, library: Result<Vec<Book>, Error>) -> (r: Result<Self, Failure>)
        ensures
            match library {
                Ok(books) => if books@.len() > 0 {
                    &&& r matches Ok(run)
                    &&& run@ == (RefreshView {
                        books: models::book_views(books@),
                        has_token,
                        outcomes: Seq::empty(),
                    })
                    &&& run@.valid()
                } else {
                    &&& r matches Err(failure)
                    &&& state::failure_view(failure) == (
                        "auth_expired"@,
                        "library came back empty; cookies may have expired"@,
                    )
                },
                Err(error) => r matches Err(failure) && state::failure_view(failure)
                    == state::failure_of(error@),
            },
    {
        let books = match library {
            Ok(books) => books,
            Err(error) => {
                return Err(map_error(error));
            },
        };
        if books.len() == 0 {
            return Err(
                (
                    "auth_expired".to_owned(),
                    "library came back empty; cookies may have expired".to_owned(),
                ),
            );
        }
        let run = RefreshRun { books, has_token, outcomes: Vec::new() };
        assert(run@.outcomes == Seq::<OutcomeView>::empty());
        Ok(run)
    }

    /// The book to ask the progress for next.
    pub fn next(&self) -> (r: Option<&str>)
        ensures
            match r {
                Some(asin) => self@.pending() && asin@ == self@.books[self@.outcomes.len() as int].asin,
                None => !self@.pending(),
            },
            r is Some <==> self@.has_token && self@.outcomes.len() < 12 && self@.outcomes.len()
                < self@.books.len(),
    {
        let done: usize = self.outcomes.len();
        if self.has_token && done < PROGRESS_BOOKS && done < self.books.len() {
            assert(self@.books[done as int] == self.books@[done as int].deep_view());
            Some(self.books[done].asin.as_str())
        } else {
            None
        }
    }

    /// Takes in what asking for the progress came to. Only a session that is
    /// over ends the refresh.
    pub fn record(&mut self, outcome: Result<CachedPoint, Error>) -> (r: Result<(), Failure>)
        requires
            old(self)@.valid(),
            old(self)@.pending(),
        ensures
            final(self)@.valid(),
            if outcome matches Err(error) && error@ is AuthExpired {
                &&& r matches Err(failure)
                &&& state::failure_view(failure) == ("auth_expired"@, "cookies have expired"@)
                &&& final(self)@ == old(self)@
            } else {
                &&& r is Ok
                &&& final(self)@ == (RefreshView {
                    outcomes: old(self)@.outcomes.push(outcome_view(outcome)),
                    ..old(self)@
                })
            },
    {
        if let Err(Error::AuthExpired) = outcome {
            return Err(("auth_expired".to_owned(), "cookies have expired".to_owned()));
        }
        let ghost before = outcome_views(self.outcomes@);
        let ghost view = outcome_view(outcome);
        self.outcomes.push(outcome);
        assert(outcome_views(self.outcomes@) == before.push(view));
        Ok(())
    }

    pub fn has_token(&self) -> (r: bool)
        ensures
            r == self@.has_token,
    {
        self.has_token
    }

    /// Why no progress came, if it was asked for and never came.
    pub fn progress_failure(&self) -> (r: Option<Failure>)
        ensures
            match (r, progress_failure(self@.outcomes)) {
                (Some(failure), Some(view)) => state::failure_view(failure) == view,
                (None, None) => true,
                _ => false,
            },
    {
        let ghost views = self@.outcomes;
        if self.outcomes.len() == 0 {
            return None;
        }
        let mut refused: Option<usize> = None;
        for i in 0..self.outcomes.len()
            invariant
                views == outcome_views(self.outcomes@),
                forall|j: int| 0 <= j < i ==> (#[trigger] views[j]) is Err,
                match refused {
                    Some(at) => at < i && refused_from(views, 0) == Some(at as int) && refusal(
                        views[at as int],
                    ),
                    None => refused_from(views, 0) == refused_from(views, i as int),
                },
        {
            assert(views[i as int] == outcome_view(self.outcomes@[i as int]));
            match &self.outcomes[i] {
                Ok(_) => {
                    assert(views[i as int] is Ok);
                    return None;
                },
                Err(Error::Amazon { status, .. }) => {
                    if *status == 403 && refused.is_none() {
                        refused = Some(i);
                    }
                },
                Err(_) => {},
            }
        }
        let (code, at): (&str, usize) = match refused {
            Some(at) => ("progress_unavailable", at),
            None => ("progress_error", 0),
        };
        assert(views[at as int] == outcome_view(self.outcomes@[at as int]));
        match &self.outcomes[at] {
            Err(error) => Some((code.to_owned(), error.to_string())),
            Ok(_) => None,
        }
    }

    /// The books, and what is now known of the progress in them.
    pub fn into_points(self) -> (r: (Vec<Book>, Keyed<CachedPoint>))
        requires
            self@.valid(),
        ensures
            models::book_views(r.0@) == self@.books,
            r.1@ == points_of(self@.books, self@.outcomes),
            forall|i: int|
                #![trigger self@.outcomes[i]]
                {
                    &&& 0 <= i < self@.outcomes.len()
                    &&& self@.outcomes[i] is Ok
                    &&& forall|j: int|
                        i < j < self@.outcomes.len() && (#[trigger] self@.books[j]).asin
                            == self@.books[i].asin ==> self@.outcomes[j] is Err
                } ==> {
                    &&& r.1@.contains_key(self@.books[i].asin)
                    &&& r.1@[self@.books[i].asin] == self@.outcomes[i]->Ok_0
                },
    {
        let ghost books = self@.books;
        let ghost views = self@.outcomes;
        let mut points: Keyed<CachedPoint> = Keyed::new();
        for i in 0..self.outcomes.len()
            invariant
                books == models::book_views(self.books@),
                views == outcome_views(self.outcomes@),
                views.len() <= books.len(),
                points@ == points_of(books, views.take(i as int)),
        {
            proof {
                assert(views.take(i + 1).drop_last() == views.take(i as int));
                assert(views.take(i + 1).last() == outcome_view(self.outcomes@[i as int]));
                assert(books[i as int] == self.books@[i as int].deep_view());
            }
            if let Ok(point) = &self.outcomes[i] {
                points.insert(self.books[i].asin.as_str(), point.clone());
            }
        }
        proof {
            assert(views.take(views.len() as int) == views);
            assert forall|i: int|
                #![trigger views[i]]
                {
                    &&& 0 <= i < views.len()
                    &&& views[i] is Ok
                    &&& forall|j: int|
                        i < j < views.len() && (#[trigger] books[j]).asin == books[i].asin
                            ==> views[j] is Err
                } implies {
                    &&& points@.contains_key(books[i].asin)
                    &&& points@[books[i].asin] == views[i]->Ok_0
                } by {
                lemma_progress_is_kept(books, views, i, views[i]->Ok_0);
            }
        }
        (self.books, points)
    }
}

/// Every point belongs to one of the books that were asked for.
pub proof fn lemma_points_of_books(books: Seq<BookView>, outcomes: Seq<OutcomeView>, asin: Seq<char>)
    requires
        outcomes.len() <= books.len(),
        points_of(books, outcomes).contains_key(asin),
    ensures
        exists|i: int|
            0 <= i < outcomes.len() && (#[trigger] books[i]).asin == asin && outcomes[i]
                == Ok::<CachedPoint, ErrorView>(points_of(books, outcomes)[asin]),
    decreases outcomes.len(),
{
    if outcomes.len() > 0 {
        let last = outcomes.len() - 1;
        if outcomes.last() is Ok && books[last].asin == asin {
            assert(outcomes[last] == Ok::<CachedPoint, ErrorView>(points_of(books, outcomes)[asin]));
        } else {
            lemma_points_of_books(books, outcomes.drop_last(), asin);
            let i = choose|i: int|
                0 <= i < outcomes.len() - 1 && (#[trigger] books[i]).asin == asin
                    && outcomes.drop_last()[i] == Ok::<CachedPoint, ErrorView>(
                    points_of(books, outcomes.drop_last())[asin],
                );
            assert(outcomes[i] == outcomes.drop_last()[i]);
        }
    }
}

/// A book keeps the progress that came for it: where no later outcome brought
/// any for the same book, the point is the one that this outcome brought.
pub proof fn lemma_progress_is_kept(
    books: Seq<BookView>,
    outcomes: Seq<OutcomeView>,
    i: int,
    point: CachedPoint,
)
    requires
        outcomes.len() <= books.len(),
        0 <= i < outcomes.len(),
        outcomes[i] == Ok::<CachedPoint, ErrorView>(point),
        forall|j: int|
            i < j < outcomes.len() && (#[trigger] books[j]).asin == books[i].asin
                ==> outcomes[j] is Err,
    ensures
        points_of(books, outcomes).contains_key(books[i].asin),
        points_of(books, outcomes)[books[i].asin] == point,
    decreases outcomes.len(),
{
    let last = outcomes.len() - 1;
    if i < last {
        let front = outcomes.drop_last();
        assert forall|j: int|
            i < j < front.len() && (#[trigger] books[j]).asin == books[i].asin implies front[j] is Err by {
            assert(front[j] == outcomes[j]);
        }
        lemma_progress_is_kept(books, front, i, point);
        assert(books[last].asin == books[i].asin ==> outcomes[last] is Err);
    }
}

/// Progress that came for one book changes what is known of that book alone,
/// and progress that did not come changes nothing.
pub proof fn lemma_one_more_outcome(
    books: Seq<BookView>,
    outcomes: Seq<OutcomeView>,
    outcome: OutcomeView,
    asin: Seq<char>,
)
    requires
        outcomes.len() < books.len(),
    ensures
        outcome is Err ==> points_of(books, outcomes.push(outcome)) == points_of(books, outcomes),
        asin != books[outcomes.len() as int].asin ==> {
            let before = points_of(books, outcomes);
            let after = points_of(books, outcomes.push(outcome));
            &&& after.contains_key(asin) <==> before.contains_key(asin)
            &&& before.contains_key(asin) ==> after[asin] == before[asin]
        },
{
    assert(outcomes.push(outcome).drop_last() == outcomes);
}

/// No progress is reported as a failure only where it was asked for and never
/// came. A refusal tells more than another failure, and of several the first
/// is reported.
pub proof fn lemma_first_failure_is_reported(outcomes: Seq<OutcomeView>, at: int)
    ensures
        outcomes.len() == 0 ==> progress_failure(outcomes) is None,
        0 <= at < outcomes.len() && outcomes[at] is Ok ==> progress_failure(outcomes) is None,
        ({
            &&& 0 <= at < outcomes.len()
            &&& forall|i: int| 0 <= i < outcomes.len() ==> (#[trigger] outcomes[i]) is Err
            &&& outcomes[at] matches Err(ErrorView::Amazon { status, .. }) && status == 403
            &&& forall|i: int|
                0 <= i < at ==> !((#[trigger] outcomes[i]) matches Err(
                    ErrorView::Amazon { status, .. },
                ) && status == 403)
        }) ==> progress_failure(outcomes) == Some(
            ("progress_unavailable"@, outcomes[at]->Err_0.text()),
        ),
        ({
            &&& outcomes.len() > 0
            &&& forall|i: int| 0 <= i < outcomes.len() ==> (#[trigger] outcomes[i]) is Err
            &&& forall|i: int|
                0 <= i < outcomes.len() ==> !((#[trigger] outcomes[i]) matches Err(
                    ErrorView::Amazon { status, .. },
                ) && status == 403)
        }) ==> progress_failure(outcomes) == Some(
            ("progress_error"@, outcomes[0]->Err_0.text()),
        ),
{
    lemma_refused(outcomes, 0);
    lemma_refused_is_first(outcomes, 0);
}

proof fn lemma_refused_is_first(outcomes: Seq<OutcomeView>, from: int)
    requires
        0 <= from,
    ensures
        refused_from(outcomes, from) matches Some(at) ==> forall|i: int|
            from <= i < at ==> !refusal(#[trigger] outcomes[i]),
    decreases outcomes.len() - from,
{
    if from < outcomes.len() && !refusal(outcomes[from]) {
        lemma_refused_is_first(outcomes, from + 1);
    }
}

/// What contracts say of an outcome is all that came of asking: the point as it
/// was learnt, or the error.
pub proof fn lemma_outcomes_seen_whole(
    point: CachedPoint,
    error: Error,
    outcomes: Seq<Result<CachedPoint, Error>>,
    i: int,
)
    ensures
        outcome_view(Ok(point)) == Ok::<CachedPoint, ErrorView>(point),
        outcome_view(Err(error)) == Err::<CachedPoint, ErrorView>(error@),
        outcome_views(outcomes).len() == outcomes.len(),
        0 <= i < outcomes.len() ==> outcome_views(outcomes)[i] == outcome_view(outcomes[i]),
{
}

} // verus!
