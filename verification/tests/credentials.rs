use omakindle::amazon::{region_suffix, Amazon, Error, REGION_SUFFIXES};
use omakindle::credentials::{parse_cookies, Credentials};
use omakindle::encoding::{extract_device_token, percent_decode, urlencode};

#[test]
fn extracts_device_token_from_devtools_url() {
    let url = "https://read.amazon.com/service/web/register/getDeviceToken?serialNumber=A2C3D4E5F6G7H8&deviceType=A2C3D4E5F6G7H8";
    assert_eq!(extract_device_token(url), "A2C3D4E5F6G7H8");
    assert_eq!(extract_device_token("A2C3D4E5F6G7H8"), "A2C3D4E5F6G7H8");
    assert_eq!(
        extract_device_token("  serialNumber=A%2FB%20C&deviceType=A%2FB%20C  "),
        "A/B C"
    );
}

#[test]
fn credentials_require_all_four_cookies() {
    let error = match Credentials::new("ubid-main=x; at-main=y", "token") {
        Ok(_) => panic!("expected missing cookies to fail"),
        Err(error) => error,
    };
    match error {
        Error::Parse(message) => assert!(message.contains("session-id")),
        other => panic!("unexpected error: {}", other.to_string()),
    }
}

#[test]
fn credentials_accept_url_device_token() {
    let credentials = Credentials::new(
        "ubid-main=a; at-main=b; x-main=c; session-id=d",
        "https://read.amazon.com/service/web/register/getDeviceToken?serialNumber=SERIAL123&deviceType=SERIAL123",
    )
    .unwrap();
    assert_eq!(credentials.device_token(), "SERIAL123");
    assert_eq!(
        REGION_SUFFIXES[0],
        ("us", "com"),
        "region table must keep its expected shape"
    );
    assert_eq!(region_suffix("uk"), "co.uk");
    assert_eq!(region_suffix("us"), "com");
}

#[test]
fn missing_cookies_are_named_in_order() {
    match Credentials::new("x-main=c", "") {
        Err(Error::Parse(message)) => {
            assert_eq!(message, "missing cookies: ubid-main, at-main, session-id")
        }
        _ => panic!("expected a parse error"),
    }
}

#[test]
fn cookies_are_read_from_lines_and_chunks() {
    let cookies = parse_cookies(" a = 1 ;b=2=3\nc=\r\n; =x; plain ;d = e f ");
    let expected = vec![("a", "1"), ("b", "2=3"), ("c", ""), ("d", "e f")];
    assert_eq!(cookies.len(), expected.len());
    for (cookie, (name, value)) in cookies.iter().zip(expected) {
        assert_eq!(cookie.0, name);
        assert_eq!(cookie.1, value);
    }
}

#[test]
fn cookie_header_reads_back_as_the_same_cookies() {
    let text = "ubid-main=a; at-main=b; x-main=c; session-id=d; extra=1=2";
    let credentials = Credentials::new(text, "").unwrap();
    assert_eq!(credentials.cookie_header(), text);
    let again = Credentials::new(&credentials.cookie_header(), "").unwrap();
    assert_eq!(again.cookie_header(), text);
    assert!(!credentials.has_device_token());
}

#[test]
fn setting_a_cookie_replaces_it_in_place() {
    let mut credentials =
        Credentials::new("ubid-main=a; at-main=b; x-main=c; session-id=d", "t").unwrap();
    credentials.set("at-main", "B2".to_string());
    credentials.set("new", "n".to_string());
    assert_eq!(
        credentials.cookie_header(),
        "ubid-main=a; at-main=B2; x-main=c; session-id=d; new=n"
    );
    assert_eq!(credentials.get("at-main"), Some("B2"));
    assert_eq!(credentials.get("absent"), None);
    assert!(credentials.has_device_token());
}

#[test]
fn region_is_case_insensitive_and_falls_back_to_itself() {
    assert_eq!(region_suffix("UK"), "co.uk");
    assert_eq!(region_suffix("Jp"), "co.jp");
    assert_eq!(region_suffix("PL"), "pl");
}

#[test]
fn url_encoding_keeps_only_unreserved_bytes() {
    assert_eq!(urlencode("AZaz09-_.~"), "AZaz09-_.~");
    assert_eq!(urlencode("a b/c"), "a%20b%2Fc");
    assert_eq!(urlencode("\u{e9}"), "%C3%A9");
}

#[test]
fn percent_decoding_undoes_url_encoding() {
    let samples = vec!["", "plain", "a b&c=d/e?f", "100%", "caf\u{e9} \u{1f4d6}", "+%2B"];
    for sample in samples {
        assert_eq!(percent_decode(&urlencode(sample)), sample);
    }
}

#[test]
fn percent_decoding_leaves_broken_escapes_alone() {
    assert_eq!(percent_decode("a%2"), "a%2");
    assert_eq!(percent_decode("%zz%41"), "%zzA");
    assert_eq!(percent_decode("%FF"), "\u{fffd}");
    assert_eq!(percent_decode("%+1%2B"), "\u{1}+");
}

#[test]
fn a_session_takes_its_identity_from_its_cookie() {
    let credentials =
        Credentials::new("ubid-main=a; at-main=b; x-main=c; session-id=d", "").unwrap();
    let amazon = Amazon::new("de", credentials);
    assert_eq!(amazon.cookies(), "ubid-main=a; at-main=b; x-main=c; session-id=d");
    assert_eq!(amazon.device_token(), "");
    assert!(!amazon.has_device_token());
    let headers = amazon.headers(true).unwrap();
    assert_eq!(headers.len(), 4);
    assert_eq!(headers[2].1, "https://read.amazon.de/kindle-library");
    assert_eq!(headers[3].0, "x-amzn-sessionid");
    assert_eq!(headers[3].1, "d");
}
