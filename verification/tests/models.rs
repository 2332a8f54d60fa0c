use omakindle::models::{large_cover, normalize_authors, LibraryItem};

#[test]
fn normalizes_amazon_author_format() {
    assert_eq!(
        normalize_authors(&["Azevedo, Rodrigo:".to_string()]),
        vec!["Rodrigo Azevedo"]
    );
    assert_eq!(
        normalize_authors(&["King, Stephen:Straub, Peter".to_string()]),
        vec!["Stephen King", "Peter Straub"]
    );
    assert_eq!(normalize_authors(&["Maddox".to_string()]), vec!["Maddox"]);
    assert!(normalize_authors(&[]).is_empty());
}

#[test]
fn strips_cover_size_marker() {
    assert_eq!(
        large_cover("https://m.media-amazon.com/images/I/51QDpG6S6pL._SY400_.jpg"),
        "https://m.media-amazon.com/images/I/51QDpG6S6pL.jpg"
    );
    assert_eq!(
        large_cover("https://m.media-amazon.com/images/I/51QDpG6S6pL.jpg"),
        "https://m.media-amazon.com/images/I/51QDpG6S6pL.jpg"
    );
}

#[test]
fn authors_are_listed_once() {
    assert_eq!(
        normalize_authors(&["Doe, Jo:Roe, Al".to_string(), "Doe, Jo".to_string()]),
        vec!["Jo Doe", "Al Roe"]
    );
    assert_eq!(
        normalize_authors(&[" a , b , c ".to_string()]),
        vec!["c b a"]
    );
}

#[test]
fn normalized_authors_are_spelt_out_and_stay_so() {
    let raw = vec![" King , Stephen :: Straub,Peter:".to_string(), "a , b: c".to_string()];
    let once = normalize_authors(&raw);
    assert_eq!(once, vec!["Stephen King", "Peter Straub", "b a", "c"]);
    assert!(once.iter().all(|name| !name.contains(':') && !name.contains(',')));
    assert_eq!(normalize_authors(&once), once);
}

#[test]
fn cover_markers_need_digits_only() {
    assert_eq!(large_cover("x._SY_.jpg"), "x.jpg");
    assert_eq!(large_cover("x._SYab_.jpg"), "x._SYab_.jpg");
    assert_eq!(large_cover("x._SY1._SY22_.jpg"), "x._SY1.jpg");
    assert_eq!(large_cover("x._SY400"), "x._SY400");
}

#[test]
fn a_library_item_becomes_a_book() {
    let item = LibraryItem {
        title: "A Title".to_string(),
        asin: "B1".to_string(),
        authors: vec!["Doe, Jo".to_string()],
        product_url: "https://i/1._SY100_.jpg".to_string(),
        web_reader_url: "https://r/1".to_string(),
        resource_type: "EBOOK".to_string(),
        origin_type: "PURCHASE".to_string(),
    };
    let book = item.into_book();
    assert_eq!(book.asin, "B1");
    assert_eq!(book.title, "A Title");
    assert_eq!(book.authors, vec!["Jo Doe"]);
    assert_eq!(book.cover_url, "https://i/1.jpg");
    assert_eq!(book.web_reader_url, "https://r/1");
    assert_eq!(book.resource_type, "EBOOK");
    assert_eq!(book.origin_type, "PURCHASE");
}
