use subscan::extractors::{parse_json, remove_pattern, Content, HTMLExtractor, JSONExtractor, JsonValue, RegexExtractor};
use subscan::hostname::subdomains_in;

const TEST_DOMAIN: &str = "foo.com";
const TEST_BAR_SUBDOMAIN: &str = "bar.foo.com";
const TEST_BAZ_SUBDOMAIN: &str = "baz.foo.com";

#[test]
fn extract_one_test() {
    let extractor = RegexExtractor::default();

    let matches = String::from(TEST_BAR_SUBDOMAIN);
    let no_match = String::from("foobarbaz");

    assert!(extractor.extract_one(&matches, TEST_DOMAIN).is_some());
    assert!(extractor.extract_one(&no_match, TEST_DOMAIN).is_none());
}

#[test]
fn regex_test_extract_test() {
    let content = String::from("bar.foo.com\nbaz.foo.com");

    let extractor = RegexExtractor::default();
    let result = extractor.extract(&content, TEST_DOMAIN);

    assert_eq!(result, vec![TEST_BAR_SUBDOMAIN.to_string(), TEST_BAZ_SUBDOMAIN.to_string()]);
}

#[test]
fn regex_extract_nothing_from_unrelated_text() {
    let extractor = RegexExtractor::default();
    assert_eq!(extractor.extract("foobarbaz", TEST_DOMAIN), Vec::<String>::new());
}

#[test]
fn regex_extract_one_takes_first_match() {
    let extractor = RegexExtractor::default();
    let text = "see <a>-baz.foo.com.</a> and bar.foo.com";
    assert_eq!(extractor.extract_one(text, TEST_DOMAIN), Some(TEST_BAZ_SUBDOMAIN.to_string()));
}

#[test]
fn regex_extract_deduplicates_and_keeps_order() {
    let extractor = RegexExtractor::default();
    let text = "baz.foo.com bar.foo.com baz.foo.com x.other.com foo.com";
    assert_eq!(
        extractor.extract(text, TEST_DOMAIN),
        vec![TEST_BAZ_SUBDOMAIN.to_string(), TEST_BAR_SUBDOMAIN.to_string(), TEST_DOMAIN.to_string()]
    );
}

#[test]
fn regex_rejects_malformed_labels() {
    let found = subdomains_in("a..foo.com bad-.foo.com ok-1.foo.com xfoo.com", TEST_DOMAIN);
    assert_eq!(found, vec!["ok-1.foo.com".to_string()]);
}

#[test]
fn regex_extraction_is_repeatable() {
    let extractor = RegexExtractor::default();
    let text = "bar.foo.com, baz.foo.com; bar.foo.com";
    let first = extractor.extract(text, TEST_DOMAIN);
    let second = extractor.extract(text, TEST_DOMAIN);
    assert_eq!(first, second);
}

#[test]
fn remove_pattern_removes_every_occurrence() {
    assert_eq!(remove_pattern("<b>bar</b>.<b>foo</b>.com", "<b>"), "bar</b>.foo</b>.com");
    assert_eq!(remove_pattern("aaa", "aa"), "a");
    assert_eq!(remove_pattern("abc", ""), "abc");
}

#[test]
fn extract_without_removes() {
    let html = "<html><body><article><div><a><span>bar.foo.com</span><span>baz.foo.com</span></a></div></article></body></html>";

    let selector = String::from("article > div > a > span:first-child");
    let extractor = HTMLExtractor::new(selector, vec![]);
    let result = extractor.extract(html, TEST_DOMAIN);

    assert_eq!(result, vec![TEST_BAR_SUBDOMAIN.to_string()]);
}

#[test]
fn extract_with_removes() {
    let html = "<html><body><article>\
        <div><a><span><br>bar.foo.com</span></a></div>\
        <div><a><span>baz<br>.foo.com</span></a></div>\
        </article></body></html>";

    let selector = String::from("article > div > a > span");
    let extractor = HTMLExtractor::new(selector, vec!["<br>".to_string()]);
    let result = extractor.extract(html, TEST_DOMAIN);

    assert_eq!(
        result,
        vec![TEST_BAR_SUBDOMAIN.to_string(), TEST_BAZ_SUBDOMAIN.to_string()]
    );
}

#[test]
fn html_extract_from_fragment_with_removes() {
    let extractor = HTMLExtractor::new("span".to_string(), vec!["<br>".to_string()]);
    let fragments = vec!["<br>bar.foo.com".to_string()];
    assert_eq!(
        extractor.extract_from_fragments(&fragments, TEST_DOMAIN),
        vec![TEST_BAR_SUBDOMAIN.to_string()]
    );
}

#[test]
fn html_extract_with_invalid_selector() {
    let extractor = HTMLExtractor::new("div >".to_string(), vec![]);
    assert!(!extractor.selector_valid());
    assert!(HTMLExtractor::new("div > a".to_string(), vec![]).selector_valid());
}

#[test]
fn html_extract_reads_selected_elements_only() {
    let extractor = HTMLExtractor::new("div > a".to_string(), vec![]);
    let html = "<div><a>bar.foo.com</a></div><p>baz.foo.com</p>";
    assert_eq!(extractor.extract(html, TEST_DOMAIN), vec![TEST_BAR_SUBDOMAIN.to_string()]);
}

#[test]
fn json_parse_and_navigate() {
    let doc = parse_json("{\"result\": {\"records\": [{\"domain\": \"bar.foo.com\"}, {\"domain\": 3}, {\"other\": \"x\"}]}}");
    assert!(doc.is_some());
    let extractor = JSONExtractor::new(
        vec!["result".to_string(), "records".to_string()],
        Some("domain".to_string()),
    );
    let doc = doc.unwrap();
    assert_eq!(extractor.listed(&doc), vec![TEST_BAR_SUBDOMAIN.to_string()]);
    assert_eq!(extractor.extract_value(&doc, TEST_DOMAIN), vec![TEST_BAR_SUBDOMAIN.to_string()]);
}

#[test]
fn json_parse_rejects_invalid_text() {
    assert!(parse_json("{not json").is_none());
    assert!(matches!(parse_json("null"), Some(JsonValue::Null)));
    assert!(matches!(parse_json("12.5"), Some(JsonValue::Number(ref n)) if n == "12.5"));
}

#[test]
fn json_extractor_filters_foreign_names() {
    let extractor = JSONExtractor::new(vec![], None);
    let content = Content::Text("[\"bar.foo.com\", \"evil.com\", \"bar.foo.com\", 7, \"baz.foo.com\"]".to_string());
    assert_eq!(
        extractor.extract(&content, TEST_DOMAIN),
        vec![TEST_BAR_SUBDOMAIN.to_string(), TEST_BAZ_SUBDOMAIN.to_string()]
    );
    assert_eq!(extractor.extract(&Content::Empty, TEST_DOMAIN), Vec::<String>::new());
    assert_eq!(
        extractor.extract(&Content::Text("<html>".to_string()), TEST_DOMAIN),
        Vec::<String>::new()
    );
}
