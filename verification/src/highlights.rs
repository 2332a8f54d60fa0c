//! Highlights and notes, from the annotations that the reader's service lists.

use vstd::prelude::*;

use crate::models;
use crate::models::{Highlight, HighlightView, Highlights};
use crate::text;

verus! {

pub const PREVIEW_CAP_HINT: usize = 91;

pub const TRUNCATION_MISMATCH: i64 = 40;

/// One annotation of a book, as Amazon lists it.
#[derive(Debug, Default)]
pub struct Annotation {
    pub kind: String,
    pub context: String,
    pub note: Option<String>,
    pub highlight_color: Option<String>,
    pub position: Option<i64>,
    pub start: Option<i64>,
    pub end: Option<i64>,
    pub position_type: Option<String>,
    pub guid: Option<String>,
    pub modified_timestamp: Option<i64>,
}

/// A note that is not blank, trimmed.
pub open spec fn note_of(note: Option<String>) -> Option<Seq<char>> {
    match note {
        Some(note) if text::trimmed(note@).len() > 0 => Some(text::trimmed(note@)),
        _ => None,
    }
}

/// The length of the passage between two positions.
pub open spec fn passage_length(start: Option<i64>, end: Option<i64>) -> int {
    match (start, end) {
        (Some(start), Some(end)) if end > start => end - start,
        _ => 0,
    }
}

/// The text of a highlight is a preview: it is as long as previews get, or its
/// passage is much longer. Only highlights have previews.
pub open spec fn is_preview(annotation: Annotation) -> bool {
    let length = text::trimmed(annotation.context@).len();
    &&& annotation.kind@ == "kindle.highlight"@
    &&& {
        ||| length >= PREVIEW_CAP_HINT
        ||| passage_length(annotation.start, annotation.end) - length > TRUNCATION_MISMATCH
    }
}

/// Where the annotation stands: its position, or else its start.
pub open spec fn location_of(annotation: Annotation) -> Option<Seq<char>> {
    match (annotation.position, annotation.start) {
        (Some(position), _) => Some(text::int_text(position as int)),
        (None, Some(start)) => Some(text::int_text(start as int)),
        (None, None) => None,
    }
}

/// The annotation's identity: its guid, with the position behind it if there
/// is one.
pub open spec fn id_of(annotation: Annotation) -> Option<Seq<char>> {
    match (annotation.guid, annotation.position) {
        (Some(guid), Some(position)) => Some(guid@ + ":"@ + text::int_text(position as int)),
        (Some(guid), None) => Some(guid@),
        (None, _) => None,
    }
}

/// A colour that is not blank.
pub open spec fn color_of(color: Option<String>) -> Option<Seq<char>> {
    match color {
        Some(color) if text::trimmed(color@).len() > 0 => Some(color@),
        _ => None,
    }
}

/// The highlight that an annotation is. Bookmarks, and annotations with
/// neither text nor note, are none.
pub open spec fn highlight_of(annotation: Annotation) -> Option<HighlightView> {
    let passage = text::trimmed(annotation.context@);
    let note = note_of(annotation.note);
    if annotation.kind@ == "kindle.bookmark"@ || (passage.len() == 0 && note is None) {
        None
    } else {
        Some(
            HighlightView {
                id: id_of(annotation),
                text: passage,
                note,
                color: color_of(annotation.highlight_color),
                location: location_of(annotation),
                page: None,
                position_type: annotation.position_type.deep_view(),
                start: annotation.start,
                end: annotation.end,
                truncated: is_preview(annotation),
                verified: false,
                modified_at: annotation.modified_timestamp,
            },
        )
    }
}

/// The highlights among annotations, in order.
pub open spec fn highlights_of(annotations: Seq<Annotation>) -> Seq<HighlightView>
    decreases annotations.len(),
{
    if annotations.len() == 0 {
        Seq::empty()
    } else {
        let front = highlights_of(annotations.drop_last());
        match highlight_of(annotations.last()) {
            Some(highlight) => front.push(highlight),
            None => front,
        }
    }
}

fn trimmed_note(note: &Option<String>) -> (r: Option<String>)
    ensures
        r.deep_view() == note_of(*note),
{
    match note {
        Some(note) => {
            let note = text::trim(note.as_str());
            if note.as_str().is_empty() {
                None
            } else {
                Some(note)
            }
        },
        None => None,
    }
}

fn kept_color(color: &Option<String>) -> (r: Option<String>)
    ensures
        r.deep_view() == color_of(*color),
{
    match color {
        Some(color) => {
            if text::trim(color.as_str()).as_str().is_empty() {
                None
            } else {
                Some(color.clone())
            }
        },
        None => None,
    }
}

fn location_text(annotation: &Annotation) -> (r: Option<String>)
    ensures
        r.deep_view() == location_of(*annotation),
{
    match (annotation.position, annotation.start) {
        (Some(position), _) => Some(text::signed_text(position)),
        (None, Some(start)) => Some(text::signed_text(start)),
        (None, None) => None,
    }
}

fn identity(annotation: &Annotation) -> (r: Option<String>)
    ensures
        r.deep_view() == id_of(*annotation),
{
    match &annotation.guid {
        Some(guid) => {
            let mut id = guid.clone();
            if let Some(position) = annotation.position {
                id.append(":");
                id.append(text::signed_text(position).as_str());
            }
            Some(id)
        },
        None => None,
    }
}

fn preview(annotation: &Annotation, length: usize) -> (r: bool)
    requires
        length == text::trimmed(annotation.context@).len(),
    ensures
        r == is_preview(*annotation),
{
    if !text::same(annotation.kind.as_str(), "kindle.highlight") {
        return false;
    }
    let range: i128 = match (annotation.start, annotation.end) {
        (Some(start), Some(end)) => {
            if end > start {
                end as i128 - start as i128
            } else {
                0
            }
        },
        _ => 0,
    };
    length >= PREVIEW_CAP_HINT || range - length as i128 > TRUNCATION_MISMATCH as i128
}

fn highlight_from(annotation: &Annotation) -> (r: Option<Highlight>)
    ensures
        r.deep_view() == highlight_of(*annotation),
{
    if text::same(annotation.kind.as_str(), "kindle.bookmark") {
        return None;
    }
    let passage = text::trim(annotation.context.as_str());
    let note = trimmed_note(&annotation.note);
    if passage.as_str().is_empty() && note.is_none() {
        return None;
    }
    let truncated = preview(annotation, passage.as_str().unicode_len());
    Some(
        Highlight {
            id: identity(annotation),
            text: passage,
            note,
            color: kept_color(&annotation.highlight_color),
            location: location_text(annotation),
            page: None,
            position_type: annotation.position_type.clone(),
            start: annotation.start,
            end: annotation.end,
            truncated,
            verified: false,
            modified_at: annotation.modified_timestamp,
        },
    )
}

/// The highlights of a book, from its annotations. Amazon gives the text of a
/// highlight as a short preview even where its positions span a longer
/// passage, so an item says whether its text is cut short.
pub fn parse(asin: &str, annotations: &Vec<Annotation>) -> (r: Highlights)
    ensures
        r@ == models::book_highlights(asin@, highlights_of(annotations@)),
        exists|order: Seq<int>|
            {
                &&& #[trigger] order.len() == r@.items.len()
                &&& forall|i: int, j: int| 0 <= i < j < order.len() ==> order[i] < order[j]
                &&& forall|i: int|
                    0 <= i < order.len() ==> 0 <= #[trigger] order[i] < annotations@.len()
                        && r@.items[i].text == text::trimmed(annotations@[order[i]].context@)
                &&& forall|k: int|
                    0 <= k < annotations@.len() ==> (order.contains(k) <==> (
                    #[trigger] annotations@[k]).kind@ != "kindle.bookmark"@ && (text::trimmed(
                        annotations@[k].context@,
                    ).len() > 0 || (annotations@[k].note matches Some(note) && text::trimmed(
                        note@,
                    ).len() > 0)))
            },
{
    let mut items: Vec<Highlight> = Vec::new();
    let mut limited = false;
    for i in 0..annotations.len()
        invariant
            models::highlight_views(items@) == highlights_of(annotations@.take(i as int)),
            limited == models::any_truncated(models::highlight_views(items@)),
    {
        proof {
            assert(annotations@.take(i + 1).drop_last() == annotations@.take(i as int));
        }
        if let Some(item) = highlight_from(&annotations[i]) {
            let ghost before = models::highlight_views(items@);
            let ghost view = item.deep_view();
            limited = limited || item.truncated;
            items.push(item);
            proof {
                assert(models::highlight_views(items@) == before.push(view));
                models::lemma_truncated_push(before, view);
            }
        }
    }
    proof {
        assert(annotations@.take(annotations@.len() as int) == annotations@);
        let order = lemma_items_follow_annotations(annotations@);
        assert(order.len() == highlights_of(annotations@).len());
    }
    Highlights { asin: asin.to_owned(), count: items.len(), limited, items }
}

/// Every item has a text or a note, and none claims to be verified.
pub proof fn lemma_highlights_not_blank(annotations: Seq<Annotation>, i: int)
    requires
        0 <= i < highlights_of(annotations).len(),
    ensures
        highlights_of(annotations)[i].text.len() > 0 || highlights_of(annotations)[i].note is Some,
        !highlights_of(annotations)[i].verified,
    decreases annotations.len(),
{
    if annotations.len() > 0 {
        let front = highlights_of(annotations.drop_last());
        if i < front.len() {
            lemma_highlights_not_blank(annotations.drop_last(), i);
        }
    }
}

/// The items are the listed annotations, in their order: one item for each
/// annotation that is no bookmark and has a text or a note, and no other. An
/// item's text is the whole text of its annotation, trimmed, and the rest of it
/// is the annotation's own too.
pub proof fn lemma_items_follow_annotations(annotations: Seq<Annotation>) -> (order: Seq<int>)
    ensures
        order.len() == highlights_of(annotations).len(),
        forall|i: int, j: int| 0 <= i < j < order.len() ==> order[i] < order[j],
        forall|i: int| 0 <= i < order.len() ==> 0 <= #[trigger] order[i] < annotations.len(),
        forall|k: int|
            0 <= k < annotations.len() ==> (order.contains(k) <==> (#[trigger] annotations[k]).kind@
                != "kindle.bookmark"@ && (text::trimmed(annotations[k].context@).len() > 0 || (
            annotations[k].note matches Some(note) && text::trimmed(note@).len() > 0))),
        forall|i: int|
            0 <= i < order.len() ==> {
                let item = highlights_of(annotations)[i];
                let annotation = annotations[#[trigger] order[i]];
                {
                    &&& item.text == text::trimmed(annotation.context@)
                    &&& item.note == match annotation.note {
                        Some(note) if text::trimmed(note@).len() > 0 => Some(text::trimmed(note@)),
                        _ => None,
                    }
                    &&& item.color == match annotation.highlight_color {
                        Some(color) if text::trimmed(color@).len() > 0 => Some(color@),
                        _ => None,
                    }
                    &&& item.id == match (annotation.guid, annotation.position) {
                        (Some(guid), Some(position)) => Some(
                            guid@ + ":"@ + text::int_text(position as int),
                        ),
                        (Some(guid), None) => Some(guid@),
                        (None, _) => None,
                    }
                    &&& item.location == match (annotation.position, annotation.start) {
                        (Some(position), _) => Some(text::int_text(position as int)),
                        (None, Some(start)) => Some(text::int_text(start as int)),
                        (None, None) => None,
                    }
                    &&& item.page is None
                    &&& item.position_type == annotation.position_type.deep_view()
                    &&& item.start == annotation.start
                    &&& item.end == annotation.end
                    &&& item.truncated <==> {
                        let length = text::trimmed(annotation.context@).len();
                        &&& annotation.kind@ == "kindle.highlight"@
                        &&& length >= 91 || ({
                            &&& annotation.start is Some
                            &&& annotation.end is Some
                            &&& annotation.end->0 - annotation.start->0 > 40 + length
                        })
                    }
                    &&& !item.verified
                    &&& item.modified_at == annotation.modified_timestamp
                }
            },
    decreases annotations.len(),
{
    if annotations.len() == 0 {
        Seq::empty()
    } else {
        let front = annotations.drop_last();
        let before = lemma_items_follow_annotations(front);
        let last = annotations.len() - 1;
        let order = if highlight_of(annotations[last]) is Some {
            before.push(last)
        } else {
            before
        };
        assert forall|k: int| 0 <= k < annotations.len() implies (order.contains(k) <==> (
        #[trigger] annotations[k]).kind@ != "kindle.bookmark"@ && (text::trimmed(
            annotations[k].context@,
        ).len() > 0 || (annotations[k].note matches Some(note) && text::trimmed(note@).len() > 0))) by {
            if k < last {
                assert(front[k] == annotations[k]);
                if before.contains(k) {
                    let at = choose|at: int| 0 <= at < before.len() && before[at] == k;
                    assert(order[at] == k);
                }
                if order.contains(k) {
                    let at = choose|at: int| 0 <= at < order.len() && order[at] == k;
                    assert(before[at] == k);
                }
            } else if highlight_of(annotations[last]) is Some {
                assert(order[before.len() as int] == last);
            } else if order.contains(k) {
                let at = choose|at: int| 0 <= at < order.len() && order[at] == k;
                assert(before[at] == last);
            }
        }
        assert forall|i: int| 0 <= i < order.len() implies {
            let item = highlights_of(annotations)[i];
            let annotation = annotations[#[trigger] order[i]];
            {
                &&& item.text == text::trimmed(annotation.context@)
                    &&& item.note == match annotation.note {
                        Some(note) if text::trimmed(note@).len() > 0 => Some(text::trimmed(note@)),
                        _ => None,
                    }
                    &&& item.color == match annotation.highlight_color {
                        Some(color) if text::trimmed(color@).len() > 0 => Some(color@),
                        _ => None,
                    }
                    &&& item.id == match (annotation.guid, annotation.position) {
                        (Some(guid), Some(position)) => Some(
                            guid@ + ":"@ + text::int_text(position as int),
                        ),
                        (Some(guid), None) => Some(guid@),
                        (None, _) => None,
                    }
                    &&& item.location == match (annotation.position, annotation.start) {
                        (Some(position), _) => Some(text::int_text(position as int)),
                        (None, Some(start)) => Some(text::int_text(start as int)),
                        (None, None) => None,
                    }
                    &&& item.page is None
                    &&& item.position_type == annotation.position_type.deep_view()
                    &&& item.start == annotation.start
                    &&& item.end == annotation.end
                    &&& item.truncated <==> {
                        let length = text::trimmed(annotation.context@).len();
                        &&& annotation.kind@ == "kindle.highlight"@
                        &&& length >= 91 || ({
                            &&& annotation.start is Some
                            &&& annotation.end is Some
                            &&& annotation.end->0 - annotation.start->0 > 40 + length
                        })
                    }
                    &&& !item.verified
                    &&& item.modified_at == annotation.modified_timestamp
            }
        } by {
            if i < before.len() {
                assert(order[i] == before[i]);
                assert(front[before[i]] == annotations[before[i]]);
                assert(highlights_of(annotations)[i] == highlights_of(front)[i]);
            }
        }
        order
    }
}

/// The items of annotations that come in two lists are those of the one and
/// then those of the other.
pub proof fn lemma_annotations_in_turn(first: Seq<Annotation>, second: Seq<Annotation>)
    ensures
        highlights_of(first + second) == highlights_of(first) + highlights_of(second),
    decreases second.len(),
{
    if second.len() == 0 {
        assert(first + second == first);
        assert(highlights_of(first) + highlights_of(second) == highlights_of(first));
    } else {
        lemma_annotations_in_turn(first, second.drop_last());
        assert((first + second).drop_last() == first + second.drop_last());
        assert((first + second).last() == second.last());
        if let Some(item) = highlight_of(second.last()) {
            assert(highlights_of(first) + highlights_of(second) == (highlights_of(first)
                + highlights_of(second.drop_last())).push(item));
        }
    }
}

} // verus!
