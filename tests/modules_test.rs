use subscan::cache::CacheManager;
use subscan::extractors::{parse_json, Content, JSONExtractor};
use subscan::modules::{
    APIAuthMethod, GenericAPIIntegrationModule, ModuleRun, NextPage, QueryUrl, RequesterConfig,
    SubscanModule,
};
use subscan::sources::{
    Anubis, Google, SubdomainCenter, WhoisXMLAPI, ANUBIS_URL, SUBDOMAINCENTER_URL, WHOISXMLAPI_URL,
};
use subscan::status::{ModuleErrorKind, SkipReason, SubscanModuleStatus};
use subscan::urls::{append_query_pair, parse_url, push_path_segment, set_query_without_override};

const TEST_DOMAIN: &str = "foo.com";
const TEST_BAR_SUBDOMAIN: &str = "bar.foo.com";
const TEST_BAZ_SUBDOMAIN: &str = "baz.foo.com";

fn paged_module(auth: APIAuthMethod) -> GenericAPIIntegrationModule {
    GenericAPIIntegrationModule {
        name: "paged".to_string(),
        url: QueryUrl { prefix: "https://api.example.com/".to_string(), suffix: "/subs".to_string() },
        next: NextPage::FromField("next".to_string()),
        auth,
        config: RequesterConfig::new(10, "agent".to_string(), None),
        extractor: JSONExtractor::new(vec!["subdomains".to_string()], None),
    }
}

#[test]
fn anubis_test_get_query_url_test() {
    let url = Anubis::get_query_url(TEST_DOMAIN);
    let expected = format!("{ANUBIS_URL}/{TEST_DOMAIN}");

    assert_eq!(url, expected);
}

#[test]
fn subdomaincenter_get_query_url_test() {
    let url = SubdomainCenter::get_query_url(TEST_DOMAIN);
    assert_eq!(url, format!("{SUBDOMAINCENTER_URL}/?domain={TEST_DOMAIN}"));
}

#[test]
fn whoisxmlapi_get_query_url_test() {
    let url = WhoisXMLAPI::get_query_url(TEST_DOMAIN);
    assert_eq!(url, format!("{WHOISXMLAPI_URL}/?domainName={TEST_DOMAIN}"));
}

#[test]
fn anubis_test_extract_test() {
    let content = "[\"bar.foo.com\"]";
    let json = parse_json(content).unwrap();

    let extracted = Anubis::extract(&json, TEST_DOMAIN);
    let not_extracted = Anubis::extract(&parse_json("null").unwrap(), TEST_DOMAIN);

    assert_eq!(extracted, vec![TEST_BAR_SUBDOMAIN.to_string()]);
    assert_eq!(not_extracted, Vec::<String>::new());
}

#[test]
fn whoisxmlapi_extract_test() {
    let json = parse_json("{\"result\": {\"records\": [{\"domain\": \"bar.foo.com\"}, {\"domain\": \"baz.foo.com\"}]}}").unwrap();
    assert_eq!(
        WhoisXMLAPI::extract(&json, TEST_DOMAIN),
        vec![TEST_BAR_SUBDOMAIN.to_string(), TEST_BAZ_SUBDOMAIN.to_string()]
    );
    assert_eq!(WhoisXMLAPI::extract(&parse_json("[]").unwrap(), TEST_DOMAIN), Vec::<String>::new());
}

#[test]
fn get_next_url_is_none_for_single_page_apis() {
    let content = Content::Text("{\"next\": \"https://x.com\"}".to_string());
    assert!(Anubis::get_next_url("https://x.com", &content).is_none());
    assert!(SubdomainCenter::get_next_url("https://x.com", &content).is_none());
    assert!(WhoisXMLAPI::get_next_url("https://x.com", &content).is_none());
}

#[test]
fn url_wrappers() {
    assert_eq!(parse_url("https://foo.com"), Some("https://foo.com/".to_string()));
    assert_eq!(parse_url("invalid-url"), None);
    assert_eq!(
        append_query_pair("https://foo.com/?a=1", "apiKey", "k"),
        Some("https://foo.com/?a=1&apiKey=k".to_string())
    );
    assert_eq!(
        set_query_without_override("https://foo.com/?apiKey=old", "apiKey", "new"),
        Some("https://foo.com/?apiKey=old".to_string())
    );
    assert_eq!(
        set_query_without_override("https://foo.com/?domainName=foo.com", "apiKey", "new"),
        Some("https://foo.com/?domainName=foo.com&apiKey=new".to_string())
    );
    assert_eq!(
        push_path_segment("https://foo.com/api", "key"),
        Some("https://foo.com/api/key".to_string())
    );
    assert_eq!(push_path_segment("mailto:a@b.com", "key"), None);
}

#[test]
fn no_auth_module_is_never_skipped() {
    let anubis = Anubis::dispatcher();
    let run = anubis.begin(TEST_DOMAIN, None);
    assert!(run.is_ok());
    let run = run.unwrap();
    assert_eq!(run.url(), &format!("{ANUBIS_URL}/{TEST_DOMAIN}"));
}

#[test]
fn missing_credential_skips_module() {
    let module = WhoisXMLAPI::dispatcher();
    match module.begin(TEST_DOMAIN, None) {
        Err(result) => {
            assert!(result.subdomains.is_empty());
            assert_eq!(
                result.status,
                SubscanModuleStatus::Skipped(SkipReason::AuthenticationNotProvided)
            );
        }
        Ok(_) => panic!("the module must be skipped"),
    }
}

#[test]
fn query_param_credential_is_applied() {
    let module = WhoisXMLAPI::dispatcher();
    let run = module.begin(TEST_DOMAIN, Some("secret".to_string())).unwrap();
    assert_eq!(
        run.url(),
        &format!("{WHOISXMLAPI_URL}/?domainName={TEST_DOMAIN}&apiKey=secret")
    );
}

#[test]
fn header_and_slug_credentials_are_applied() {
    let module = paged_module(APIAuthMethod::APIKeyAsHeader("X-Key".to_string()));
    let run = module.begin(TEST_DOMAIN, Some("secret".to_string())).unwrap();
    assert_eq!(run.url(), "https://api.example.com/foo.com/subs");
    assert_eq!(run.auth_header(), &Some(("X-Key".to_string(), "secret".to_string())));

    let module = paged_module(APIAuthMethod::APIKeyAsURLSlug);
    let run = module.begin(TEST_DOMAIN, Some("secret".to_string())).unwrap();
    assert_eq!(run.url(), "https://api.example.com/foo.com/subs/secret");
}

#[test]
fn module_with_invalid_url_fails() {
    let mut module = paged_module(APIAuthMethod::NoAuth);
    module.url = QueryUrl { prefix: "invalid-url".to_string(), suffix: String::new() };
    match module.begin(TEST_DOMAIN, None) {
        Err(result) => {
            assert!(result.subdomains.is_empty());
            assert_eq!(result.status, ModuleErrorKind::UrlParse.into());
        }
        Ok(_) => panic!("the URL must not parse"),
    }
}

#[test]
fn pagination_follows_pages_until_an_empty_one() {
    let module = paged_module(APIAuthMethod::NoAuth);
    let pages = vec![
        "{\"subdomains\": [\"a.foo.com\", \"b.foo.com\"], \"next\": \"https://api.example.com/page-two\"}",
        "{\"subdomains\": [\"b.foo.com\", \"c.foo.com\"], \"next\": \"https://api.example.com/page-three\"}",
        "{\"subdomains\": [], \"next\": \"https://api.example.com/page-four\"}",
        "{\"subdomains\": [\"never.foo.com\"]}",
    ];
    let mut run = module.begin(TEST_DOMAIN, None).unwrap();
    let mut fetched = Vec::new();
    let mut outcome = None;
    for page in pages {
        fetched.push(run.url().clone());
        if let Some(result) = run.on_content(&module, &Content::Text(page.to_string())) {
            outcome = Some(result);
            break;
        }
    }
    let result = outcome.unwrap();
    assert_eq!(fetched.len(), 3);
    assert_eq!(
        fetched,
        vec![
            "https://api.example.com/foo.com/subs".to_string(),
            "https://api.example.com/page-two".to_string(),
            "https://api.example.com/page-three".to_string(),
        ]
    );
    assert_eq!(
        result.subdomains,
        vec!["a.foo.com".to_string(), "b.foo.com".to_string(), "c.foo.com".to_string()]
    );
    assert_eq!(result.status, SubscanModuleStatus::Finished);
}

#[test]
fn pagination_stops_without_next_page() {
    let module = paged_module(APIAuthMethod::NoAuth);
    let mut run = module.begin(TEST_DOMAIN, None).unwrap();
    let result = run
        .on_content(&module, &Content::Text("{\"subdomains\": [\"a.foo.com\"]}".to_string()))
        .unwrap();
    assert_eq!(result.subdomains, vec!["a.foo.com".to_string()]);
    assert_eq!(result.status, SubscanModuleStatus::Finished);
}

#[test]
fn failure_keeps_partial_results() {
    let module = paged_module(APIAuthMethod::NoAuth);
    let mut run = module.begin(TEST_DOMAIN, None).unwrap();
    let page = "{\"subdomains\": [\"a.foo.com\"], \"next\": \"https://api.example.com/page-two\"}";
    assert!(run.on_content(&module, &Content::Text(page.to_string())).is_none());
    let result = run.on_failure(ModuleErrorKind::Http);
    assert_eq!(result.subdomains, vec!["a.foo.com".to_string()]);
    assert_eq!(result.status, SubscanModuleStatus::FailedWithResult);

    let run = module.begin(TEST_DOMAIN, None).unwrap();
    let result = run.on_failure(ModuleErrorKind::Json);
    assert!(result.subdomains.is_empty());
    assert_eq!(result.status, SubscanModuleStatus::Failed(ModuleErrorKind::Json));
}

#[test]
fn google_test_run_test() {
    let google = Google::dispatcher();
    let run = google.begin(TEST_DOMAIN, None).unwrap();
    assert_eq!(run.url(), "https://www.google.com/search?q=foo.com");
    let page = Content::Text("<html><body><cite>https://bar.foo.com</cite><cite>other.com</cite></body></html>".to_string());
    match run.on_content(&google, &page) {
        Err(result) => {
            assert_eq!(result.subdomains, vec![TEST_BAR_SUBDOMAIN.to_string()]);
            assert_eq!(result.status, SubscanModuleStatus::Finished);
        }
        Ok(_) => panic!("a search runs one request"),
    }
}

#[test]
fn module_run_dispatch_on_integration() {
    let anubis = Anubis::dispatcher();
    let run = anubis.begin(TEST_DOMAIN, None).unwrap();
    assert!(run.is_for(&anubis));
    assert!(!run.is_for(&Google::dispatcher()));
    match run.on_content(&anubis, &Content::Text("[\"bar.foo.com\"]".to_string())) {
        Err(result) => assert_eq!(result.subdomains, vec![TEST_BAR_SUBDOMAIN.to_string()]),
        Ok(_) => panic!("anubis has one page"),
    }
    let run = anubis.begin(TEST_DOMAIN, None).unwrap();
    assert!(matches!(run, ModuleRun::Integration(_)));
    assert_eq!(run.on_failure(ModuleErrorKind::Http).status, SubscanModuleStatus::Failed(ModuleErrorKind::Http));
}

#[test]
fn registry_lookup_and_configure() {
    let mut manager = CacheManager::default();
    assert!(manager.module("google").is_some());
    assert!(manager.module("anubis").is_some());
    assert!(manager.module("nothing").is_none());

    let mut config = RequesterConfig::new(120, "custom".to_string(), Some("http://proxy:8080".to_string()));
    config.add_header("X-A".to_string(), "1".to_string());
    config.add_header("X-A".to_string(), "2".to_string());
    assert_eq!(config.headers, vec![("X-A".to_string(), "2".to_string())]);
    manager.configure(&config);
    for module in manager.modules() {
        assert_eq!(module.config().timeout_secs, 120);
        assert_eq!(module.config().user_agent, "custom");
        assert_eq!(module.config().headers, vec![("X-A".to_string(), "2".to_string())]);
    }
    let reduced = CacheManager::new(vec![Anubis::dispatcher()]);
    assert_eq!(reduced.modules().len(), 1);
    assert!(matches!(reduced.module("anubis"), Some(SubscanModule::GenericIntegrationModule(_))));
}

#[test]
fn anubis_run_test() {
    let anubis = Anubis::dispatcher();
    assert_eq!(anubis.name(), "anubis");
    let run = anubis.begin(TEST_DOMAIN, None).unwrap();
    let page = Content::Text("[\"bar.foo.com\"]".to_string());
    match run.on_content(&anubis, &page) {
        Err(result) => assert_eq!(result.subdomains, vec![TEST_BAR_SUBDOMAIN.to_string()]),
        Ok(_) => panic!("anubis has one page"),
    }
}

#[test]
fn search_run_with_invalid_selector_fails() {
    let module = subscan::sources::Bing::dispatcher();
    let run = module.begin(TEST_DOMAIN, None).unwrap();
    assert_eq!(run.url(), "https://www.bing.com/search?q=foo.com");
    let result = run.on_failure(ModuleErrorKind::Http);
    assert_eq!(result.status, SubscanModuleStatus::Failed(ModuleErrorKind::Http));
}

#[test]
fn invalid_header_text_is_not_sent() {
    let module = paged_module(APIAuthMethod::APIKeyAsHeader("Bad Name".to_string()));
    let run = module.begin(TEST_DOMAIN, Some("secret".to_string())).unwrap();
    assert_eq!(run.auth_header(), &None);

    let module = paged_module(APIAuthMethod::APIKeyAsHeader("X-Key".to_string()));
    let run = module.begin(TEST_DOMAIN, Some("bad\nvalue".to_string())).unwrap();
    assert_eq!(run.auth_header(), &None);
}

#[test]
fn empty_domain_and_empty_content() {
    let anubis = Anubis::dispatcher();
    let run = anubis.begin("", None).unwrap();
    match run.on_content(&anubis, &Content::Empty) {
        Err(result) => {
            assert!(result.subdomains.is_empty());
            assert_eq!(result.status, SubscanModuleStatus::Finished);
        }
        Ok(_) => panic!("an empty page ends the run"),
    }
}

#[test]
fn page_that_is_not_json_fails_the_run() {
    let module = paged_module(APIAuthMethod::NoAuth);
    let mut run = module.begin(TEST_DOMAIN, None).unwrap();
    let result = run.on_content(&module, &Content::Text("<html>".to_string())).unwrap();
    assert!(result.subdomains.is_empty());
    assert_eq!(result.status, SubscanModuleStatus::Failed(ModuleErrorKind::Json));

    let mut run = module.begin(TEST_DOMAIN, None).unwrap();
    let page = "{\"subdomains\": [\"a.foo.com\"], \"next\": \"https://api.example.com/page-two\"}";
    assert!(run.on_content(&module, &Content::Text(page.to_string())).is_none());
    let result = run.on_content(&module, &Content::Text("not json".to_string())).unwrap();
    assert_eq!(result.subdomains, vec!["a.foo.com".to_string()]);
    assert_eq!(result.status, SubscanModuleStatus::FailedWithResult);
}

#[test]
fn search_module_with_malformed_selector_never_starts() {
    let module = SubscanModule::GenericSearchEngineModule(subscan::modules::GenericSearchEngineModule {
        name: "broken".to_string(),
        url: "https://search.example.com/".to_string(),
        param: "q".to_string(),
        extractor: subscan::extractors::HTMLExtractor::new("div >".to_string(), vec![]),
        config: RequesterConfig::new(10, "agent".to_string(), None),
    });
    match module.begin(TEST_DOMAIN, None) {
        Err(result) => {
            assert!(result.subdomains.is_empty());
            assert!(matches!(
                result.status,
                SubscanModuleStatus::Failed(ModuleErrorKind::Custom(_))
            ));
        }
        Ok(_) => panic!("a malformed selector is a configuration error"),
    }
}

#[test]
fn google_new_is_the_google_module() {
    let google = Google::new();
    assert_eq!(google.name(), "google");
    let run = google.begin(TEST_DOMAIN, None).unwrap();
    assert_eq!(run.url(), "https://www.google.com/search?q=foo.com");
}

#[test]
fn failed_fetch_keeps_gathered_names() {
    let module = SubscanModule::GenericIntegrationModule(paged_module(APIAuthMethod::NoAuth));
    let run = module.begin(TEST_DOMAIN, None).unwrap();
    let page = "{\"subdomains\": [\"a.foo.com\"], \"next\": \"https://api.example.com/page-two\"}";
    let run = match run.on_content(&module, &Content::Text(page.to_string())) {
        Ok(run) => run,
        Err(_) => panic!("the API names a next page"),
    };
    let result = run.on_failure(ModuleErrorKind::Http);
    assert_eq!(result.subdomains, vec!["a.foo.com".to_string()]);
    assert_eq!(result.status, SubscanModuleStatus::FailedWithResult);
}
