use llm_router::http::{content_type, header_str, lower_names, original_headers, HttpResponse};

fn lines(entries: &[(&str, &[u8])]) -> Vec<(String, Vec<u8>)> {
    entries.iter().map(|(n, v)| (n.to_string(), v.to_vec())).collect()
}

#[test]
fn responses_in_words() {
    let r = HttpResponse::text(404, "caf\u{e9}");
    assert_eq!(r.status, 404);
    assert_eq!(r.headers, lines(&[("content-type", b"text/plain")]));
    assert_eq!(r.body, "caf\u{e9}".as_bytes());

    let r = HttpResponse::typed(200, "application/json", "{}");
    assert_eq!(r.headers, lines(&[("content-type", b"application/json")]));

    let r = HttpResponse::bare(403, vec![1, 2]);
    assert!(r.headers.is_empty());
    assert_eq!(r.body, vec![1, 2]);
}

#[test]
fn which_status_is_a_server_error() {
    for (status, expected) in [(200, false), (404, false), (499, false), (500, true), (503, true), (599, true), (600, false)] {
        assert_eq!(HttpResponse::bare(status, Vec::new()).is_server_error(), expected, "{}", status);
    }
}

#[test]
fn header_values_as_text() {
    assert_eq!(header_str(b"application/json; q=\t1~"), Some("application/json; q=\t1~"));
    assert_eq!(header_str(b""), Some(""));
    assert_eq!(header_str(b"a\x7f"), None);
    assert_eq!(header_str(b"a\nb"), None);
    assert_eq!(header_str("caf\u{e9}".as_bytes()), None);
}

#[test]
fn names_in_lower_case() {
    let lowered = lower_names(lines(&[("X-Api-KEY", b"K"), ("b", b"V")]));
    assert_eq!(lowered, lines(&[("x-api-key", b"K"), ("b", b"V")]));
    let again = original_headers(lower_names(lowered));
    assert_eq!(again.len(), 2);
    assert_eq!(again.name_at(0), "x-api-key");
    let odd = lower_names(lines(&[("[@Z{\u{c9}", b"")]));
    assert_eq!(odd[0].0, "[@z{\u{c9}");
}

#[test]
fn the_first_content_type_counts() {
    let headers = lines(&[("a", b"1"), ("content-type", b"x/y"), ("content-type", b"z")]);
    assert_eq!(content_type(&headers), Some("x/y"));
    let headers = lines(&[("content-type", b"\xff"), ("content-type", b"z")]);
    assert_eq!(content_type(&headers), None);
    assert_eq!(content_type(&lines(&[("a", b"1")])), None);
}

#[test]
fn headers_that_are_passed_on() {
    let headers = original_headers(lines(&[
        ("host", b"h"),
        ("a", b"1"),
        ("content-type", b"t"),
        ("b", b"2"),
        ("content-length", b"3"),
        ("a", b"4"),
    ]));
    assert_eq!(headers.len(), 2);
    assert_eq!(headers.get("a").unwrap(), &b"4".to_vec());
    assert_eq!(headers.get("b").unwrap(), &b"2".to_vec());
}
