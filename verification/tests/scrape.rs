use link_preview::fetch::FetchError;
use link_preview::metadata::{MetaData, Metatag};
use link_preview::outcome::Outcome;
use link_preview::fetch::{PageText, MAX_SIZE};
use link_preview::scrape::{preview_of, preview_of_body, MAX_DEPTH};

fn nothing() -> MetaData {
    MetaData {
        title: None,
        description: None,
        canonical: None,
        language: None,
        rss: None,
        image: None,
        amp: None,
        author: None,
        date: None,
        metatags: Some(Vec::new()),
    }
}

fn page(text: &str) -> PageText {
    PageText::new(text.to_string()).unwrap()
}

fn tag(name: &str, content: &str) -> Metatag {
    Metatag { name: name.to_string(), content: content.to_string() }
}

#[test]
fn preview_of_reads_the_title() {
    let outcome = preview_of(Ok(page("<title>Example</title>")));
    let expected = MetaData { title: Some("Example".to_string()), ..nothing() };
    assert_eq!(outcome, Outcome::Success(expected));
}

#[test]
fn preview_of_reads_every_field() {
    let page = "<!DOCTYPE html><html lang=\"en\"><head><title>Example</title>\
<meta name=\"description\" content=\"A page\">\
<meta name=\"author\" content=\"Ann\">\
<meta property=\"og:image\" content=\"http://x/i.png\">\
<meta property=\"article:published_time\" content=\"2020-01-02\">\
<meta charset=\"utf-8\">\
<link rel=\"canonical\" href=\"http://x/\">\
<link rel=\"amphtml\" href=\"http://x/amp\">\
<link rel=\"alternate\" type=\"application/rss+xml\" href=\"/feed.xml\">\
</head><body><h1>Hi</h1></body></html>";
    let expected = MetaData {
        title: Some("Example".to_string()),
        description: Some("A page".to_string()),
        canonical: Some("http://x/".to_string()),
        language: Some("en".to_string()),
        rss: Some("/feed.xml".to_string()),
        image: Some("http://x/i.png".to_string()),
        amp: Some("http://x/amp".to_string()),
        author: Some("Ann".to_string()),
        date: Some("2020-01-02".to_string()),
        metatags: Some(vec![
            tag("description", "A page"),
            tag("author", "Ann"),
            tag("og:image", "http://x/i.png"),
            tag("article:published_time", "2020-01-02"),
        ]),
    };
    assert_eq!(preview_of(Ok(PageText::new(page.to_string()).unwrap())), Outcome::Success(expected));
}

#[test]
fn preview_of_keeps_metatags_in_document_order_with_duplicates() {
    let page = "<meta name=\"b\" content=\"2\"><meta name=\"a\" content=\"1\">\
<meta name=\"b\" content=\"2\"><meta name=\"b\" content=\"3\">";
    let expected = MetaData {
        metatags: Some(vec![tag("b", "2"), tag("a", "1"), tag("b", "2"), tag("b", "3")]),
        ..nothing()
    };
    assert_eq!(preview_of(Ok(PageText::new(page.to_string()).unwrap())), Outcome::Success(expected));
}

#[test]
fn preview_of_finds_nothing_in_an_empty_page() {
    assert_eq!(preview_of(Ok(page(""))), Outcome::Success(nothing()));
    assert_eq!(preview_of(Ok(page("no markup at all"))), Outcome::Success(nothing()));
}

#[test]
fn preview_of_reads_what_it_can_from_a_page_cut_short() {
    let outcome = preview_of(Ok(page("<html><head><title>Unclosed")));
    let expected = MetaData { title: Some("Unclosed".to_string()), ..nothing() };
    assert_eq!(outcome, Outcome::Success(expected));
}

#[test]
fn preview_of_keeps_the_text_of_a_transport_failure() {
    let outcome = preview_of(Err(FetchError::Transport("connection refused".to_string())));
    assert_eq!(outcome, Outcome::Failure("connection refused".to_string()));
}

#[test]
fn preview_of_keeps_the_text_of_an_encoding_failure() {
    let outcome = preview_of(Err(FetchError::Encoding("not utf-8".to_string())));
    assert_eq!(outcome, Outcome::Failure("not utf-8".to_string()));
}

#[test]
fn preview_of_body_scrapes_the_collected_text() {
    let chunks = vec![b"<html><head><ti".to_vec(), b"tle>Exam".to_vec(), b"ple</title>".to_vec()];
    let expected = MetaData { title: Some("Example".to_string()), ..nothing() };
    assert_eq!(preview_of_body(&chunks), Outcome::Success(expected));
}

#[test]
fn preview_of_body_fails_where_the_fetch_does() {
    let refused = [0x3C, 0xFF];
    let text = std::str::from_utf8(&refused).unwrap_err().to_string();
    let chunks = vec![b"<title>Example</title>".to_vec(), refused.to_vec()];
    assert_eq!(preview_of_body(&chunks), Outcome::Failure(text));
}

#[test]
fn outcome_from_result_keeps_either_side() {
    let metadata = MetaData { title: Some("T".to_string()), ..nothing() };
    let same = MetaData { title: Some("T".to_string()), ..nothing() };
    assert_eq!(Outcome::from_result(Ok(metadata)), Outcome::Success(same));
    assert_eq!(
        Outcome::from_result(Err("parse error".to_string())),
        Outcome::Failure("parse error".to_string())
    );
}

#[test]
fn clones_are_equal_to_their_originals() {
    let metadata = MetaData {
        title: Some("T".to_string()),
        author: Some("A".to_string()),
        metatags: Some(vec![tag("a", "1"), tag("a", "1"), tag("b", "")]),
        ..nothing()
    };
    assert_eq!(metadata.clone(), metadata);
    assert_eq!(tag("n", "c").clone(), tag("n", "c"));
    let none = MetaData { metatags: None, ..nothing() };
    assert_eq!(none.clone(), none);
    let success = Outcome::Success(metadata);
    assert_eq!(success.clone(), success);
    let failure = Outcome::Failure("down".to_string());
    assert_eq!(failure.clone(), failure);
}

#[test]
fn a_flat_page_of_thousands_of_elements_is_scraped() {
    let mut text = String::from("<html><head><title>Flat</title></head><body>");
    for i in 0..5_000 {
        text.push_str(&format!("<p class=\"row\">row {}</p><br><img src=\"{}.png\">", i, i));
    }
    text.push_str("</body></html>");
    let outcome = preview_of(Ok(page(&text)));
    match outcome {
        Outcome::Success(metadata) => {
            assert_eq!(metadata.title, Some("Flat".to_string()));
            assert_eq!(metadata.metatags, Some(Vec::new()));
        }
        Outcome::Failure(text) => panic!("{}", text),
    }
}

#[test]
fn a_flat_page_that_fills_the_budget_is_scraped() {
    let mut body = b"<title>Full</title>".to_vec();
    while body.len() + 9 <= 2 * MAX_SIZE {
        body.extend_from_slice(b"<i>x</i> ");
    }
    let outcome = preview_of_body(&[body]);
    let expected = MetaData { title: Some("Full".to_string()), ..nothing() };
    assert_eq!(outcome, Outcome::Success(expected));
}

#[test]
fn a_page_nested_a_thousand_deep_is_scraped() {
    let mut text = String::from("<title>");
    for _ in 0..1_000 {
        text.push_str("x<b>");
    }
    let expected = MetaData { title: Some("x".repeat(1_000)), ..nothing() };
    assert_eq!(preview_of(Ok(page(&text))), Outcome::Success(expected));
}

#[test]
fn no_page_nests_deeper_than_half_its_bytes() {
    assert_eq!(MAX_DEPTH, MAX_SIZE / 2);
    assert_eq!(MAX_DEPTH, 524_288);
}
