use omakindle::amazon::{listed_annotations, Error};
use omakindle::highlights::Annotation;
use omakindle::models::Highlights;
use serde_json::Value;

const FIXTURE: &str = r#"{
      "annotations": [
        {
          "type": "kindle.highlight",
          "asin": "B000TEST",
          "context": "First sample highlight",
          "highlightColor": "yellow",
          "position": 146,
          "start": 140,
          "end": 162,
          "positionType": "Mobi7",
          "guid": "CR!TESTGUID",
          "modifiedTimestamp": 1779929553000,
          "note": "A private note"
        },
        {
          "type": "kindle.highlight",
          "asin": "B000TEST",
          "context": "Truncated preview of a much longer passage that continues beyond the preview window Amazon returns here",
          "highlightColor": null,
          "position": 905,
          "start": 900,
          "end": 1100,
          "positionType": "Mobi7",
          "guid": "CR!TESTGUID",
          "modifiedTimestamp": 1779929689000,
          "note": null
        },
        {
          "type": "kindle.note",
          "asin": "B000TEST",
          "context": "",
          "position": 1200,
          "start": 1195,
          "end": 1195,
          "positionType": "Mobi7",
          "guid": "CR!TESTGUID",
          "modifiedTimestamp": 1779929795000,
          "note": "A standalone note"
        },
        {
          "type": "kindle.bookmark",
          "asin": "B000TEST",
          "context": "Bookmarked sentence text",
          "position": 2000,
          "start": 2000,
          "end": -1,
          "guid": "CR!TESTGUID",
          "modifiedTimestamp": 1779929800000
        }
      ]
    }"#;

fn text(value: &Value, key: &str) -> Option<String> {
    value[key].as_str().map(str::to_string)
}

fn annotations(body: &str) -> Result<Vec<Annotation>, String> {
    let parsed: Value = serde_json::from_str(body).map_err(|error| error.to_string())?;
    let listed = parsed["annotations"].as_array().cloned().unwrap_or_default();
    Ok(listed
        .iter()
        .map(|entry| Annotation {
            kind: text(entry, "type").unwrap_or_default(),
            context: text(entry, "context").unwrap_or_default(),
            note: text(entry, "note"),
            highlight_color: text(entry, "highlightColor"),
            position: entry["position"].as_i64(),
            start: entry["start"].as_i64(),
            end: entry["end"].as_i64(),
            position_type: text(entry, "positionType"),
            guid: text(entry, "guid"),
            modified_timestamp: entry["modifiedTimestamp"].as_i64(),
        })
        .collect())
}

fn parse(asin: &str, body: &str) -> Result<Highlights, Error> {
    listed_annotations(asin, annotations(body))
}

#[test]
fn parses_highlights_notes_and_skips_bookmarks() {
    let parsed = parse("B000TEST", FIXTURE).unwrap();
    assert_eq!(parsed.count, 3);
    assert!(parsed.limited, "truncated preview must mark the book as limited");

    let first = &parsed.items[0];
    assert_eq!(first.text, "First sample highlight");
    assert_eq!(first.color.as_deref(), Some("yellow"));
    assert_eq!(first.note.as_deref(), Some("A private note"));
    assert_eq!(first.location.as_deref(), Some("146"));
    assert_eq!(first.start, Some(140));
    assert_eq!(first.end, Some(162));
    assert_eq!(first.position_type.as_deref(), Some("Mobi7"));
    assert!(!first.truncated);
    assert_eq!(first.id.as_deref(), Some("CR!TESTGUID:146"));

    let second = &parsed.items[1];
    assert!(second.truncated);
    assert_eq!(second.color, None);

    let third = &parsed.items[2];
    assert_eq!(third.text, "");
    assert_eq!(third.note.as_deref(), Some("A standalone note"));
    assert!(!third.truncated);
}

#[test]
fn reports_no_highlights_for_empty_annotations() {
    let parsed = parse("B000TEST", r#"{"annotations": []}"#).unwrap();
    assert_eq!(parsed.count, 0);
    assert!(!parsed.limited);
}

#[test]
fn flags_preview_capped_highlights_as_truncated() {
    let preview = "d".repeat(100);
    let body = format!(
        r#"{{"annotations": [{{"type": "kindle.highlight", "context": "{preview}", "start": 141841, "end": 141957}}]}}"#
    );
    let parsed = parse("B000TEST", &body).unwrap();
    assert!(parsed.items[0].truncated);
    assert!(parsed.limited);
}

#[test]
fn keeps_short_highlights_untruncated() {
    let body = r#"{"annotations": [{"type": "kindle.highlight", "context": "Sem ésteres, as cervejas seriam bastante insossas.", "start": 96520, "end": 96569}]}"#;
    let parsed = parse("B000TEST", body).unwrap();
    assert!(!parsed.items[0].truncated);
    assert!(!parsed.limited);
}

#[test]
fn rejects_bodies_that_are_not_annotation_json() {
    assert!(parse("B000TEST", "<html>sign in</html>").is_err());
}

#[test]
fn unreadable_annotations_name_the_response() {
    match listed_annotations("B1", Err("oops".to_string())) {
        Err(Error::Parse(message)) => assert_eq!(message, "annotations response: oops"),
        _ => panic!("expected a parse error"),
    }
}

#[test]
fn a_long_range_marks_a_short_text_as_a_preview() {
    let entry = |context: &str, start: i64, end: i64| Annotation {
        kind: "kindle.highlight".to_string(),
        context: context.to_string(),
        start: Some(start),
        end: Some(end),
        ..Annotation::default()
    };
    let listed = listed_annotations(
        "B1",
        Ok(vec![entry("12345", 0, 45), entry("12345", 0, 46), entry("12345", 46, 0)]),
    )
    .unwrap();
    assert!(!listed.items[0].truncated);
    assert!(listed.items[1].truncated);
    assert!(!listed.items[2].truncated);
    assert_eq!(listed.items[0].location.as_deref(), Some("0"));
    assert_eq!(listed.items[0].id, None);
}

#[test]
fn blank_notes_and_colors_count_as_none() {
    let listed = listed_annotations(
        "B1",
        Ok(vec![
            Annotation {
                kind: "kindle.note".to_string(),
                context: "  ".to_string(),
                note: Some(" \n".to_string()),
                ..Annotation::default()
            },
            Annotation {
                kind: "kindle.highlight".to_string(),
                context: " kept ".to_string(),
                highlight_color: Some(" ".to_string()),
                guid: Some("G".to_string()),
                ..Annotation::default()
            },
        ]),
    )
    .unwrap();
    assert_eq!(listed.count, 1);
    assert_eq!(listed.items[0].text, "kept");
    assert_eq!(listed.items[0].color, None);
    assert_eq!(listed.items[0].id.as_deref(), Some("G"));
    assert_eq!(listed.items[0].location, None);
}
