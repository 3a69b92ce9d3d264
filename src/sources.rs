//! The concrete sources: search engines read through their result pages,
//! and API integrations read through their JSON answers.
use crate::extractors::{listed_strings, Content, HTMLExtractor, JSONExtractor, JsonValue};
use crate::modules::{
    APIAuthMethod, GenericAPIIntegrationModule, GenericSearchEngineModule, NextPage, QueryUrl,
    RequesterConfig, SubscanModule,
};
use crate::names::{dedup, dedup_names, views};
use vstd::prelude::*;

verus! {

/// Default timeout of a requester, in seconds.
pub const DEFAULT_HTTP_TIMEOUT_SECS: u64 = 15;

/// Default User-Agent header of a requester.
pub const DEFAULT_USER_AGENT: &'static str = "Mozilla/5.0 (Macintosh; Intel Mac OS X 10_15_7) AppleWebKit/537.36 (KHTML, like Gecko) Chrome/129.0.0.0 Safari/537.36";

pub const BING_MODULE_NAME: &'static str = "bing";
pub const BING_SEARCH_URL: &'static str = "https://www.bing.com/search";
pub const BING_SEARCH_PARAM: &'static str = "q";
pub const BING_CITE_TAG: &'static str = "cite";

pub const GOOGLE_MODULE_NAME: &'static str = "google";
pub const GOOGLE_SEARCH_URL: &'static str = "https://www.google.com/search";
pub const GOOGLE_SEARCH_PARAM: &'static str = "q";
pub const GOOGLE_CITE_TAG: &'static str = "cite";

pub const YAHOO_MODULE_NAME: &'static str = "yahoo";
pub const YAHOO_SEARCH_URL: &'static str = "https://search.yahoo.com/search";
pub const YAHOO_SEARCH_PARAM: &'static str = "p";
pub const YAHOO_CITE_TAG: &'static str = "ol > li > div > div > h3 > a > span";

pub const ANUBIS_MODULE_NAME: &'static str = "anubis";
pub const ANUBIS_URL: &'static str = "https://jonlu.ca/anubis/subdomains";

pub const SUBDOMAINCENTER_MODULE_NAME: &'static str = "subdomaincenter";
pub const SUBDOMAINCENTER_URL: &'static str = "https://api.subdomain.center";

pub const WHOISXMLAPI_MODULE_NAME: &'static str = "whoisxmlapi";
pub const WHOISXMLAPI_URL: &'static str = "https://subdomains.whoisxmlapi.com/api/v1";

/// A requester configuration with the default settings.
pub fn default_config() -> (r: RequesterConfig)
    ensures
        r.timeout_secs == DEFAULT_HTTP_TIMEOUT_SECS,
        r.user_agent@ == DEFAULT_USER_AGENT@,
        r.proxy is None,
        r.header_list().len() == 0,
        r.wf(),
{
    RequesterConfig::new(DEFAULT_HTTP_TIMEOUT_SECS, String::from_str(DEFAULT_USER_AGENT), None)
}

/// A search-engine module with the default requester settings.
fn search_engine(name: &str, url: &str, param: &str, selector: &str, removes: Vec<String>) -> (r:
    SubscanModule)
    ensures
        r matches SubscanModule::GenericSearchEngineModule(m) && m.name@ == name@ && m.url@
            == url@ && m.param@ == param@ && m.extractor.selector() == selector@
            && m.extractor.removes() == views(removes@) && m.config.wf(),
{
    SubscanModule::GenericSearchEngineModule(
        GenericSearchEngineModule {
            name: String::from_str(name),
            url: String::from_str(url),
            param: String::from_str(param),
            extractor: HTMLExtractor::new(String::from_str(selector), removes),
            config: default_config(),
        },
    )
}

/// An integration module that reads an array of names, with the default
/// requester settings and no pagination.
fn integration(name: &str, prefix: &str, suffix: &str, auth: APIAuthMethod, extractor: JSONExtractor) -> (r:
    SubscanModule)
    ensures
        r matches SubscanModule::GenericIntegrationModule(m) && m.name@ == name@ && m.url.prefix@
            == prefix@ && m.url.suffix@ == suffix@ && m.next is Never && m.auth == auth
            && m.extractor == extractor && m.config.wf(),
{
    SubscanModule::GenericIntegrationModule(
        GenericAPIIntegrationModule {
            name: String::from_str(name),
            url: QueryUrl { prefix: String::from_str(prefix), suffix: String::from_str(suffix) },
            next: NextPage::Never,
            auth,
            config: default_config(),
            extractor,
        },
    )
}

/// Bing search results: the `cite` elements of the result page.
pub struct Bing {}

impl Bing {
    pub fn dispatcher() -> (r: SubscanModule)
        ensures
            r matches SubscanModule::GenericSearchEngineModule(m) && m.name@ == BING_MODULE_NAME@
                && m.url@ == BING_SEARCH_URL@ && m.param@ == BING_SEARCH_PARAM@
                && m.extractor.selector() == BING_CITE_TAG@ && m.extractor.removes().len() == 0,
    {
        search_engine(BING_MODULE_NAME, BING_SEARCH_URL, BING_SEARCH_PARAM, BING_CITE_TAG, Vec::new())
    }
}

/// Google search results: the `cite` elements of the result page.
pub struct Google {}

impl Google {
    /// The Google module; the same module as `dispatcher` gives.
    pub fn new() -> (r: SubscanModule)
        ensures
            r matches SubscanModule::GenericSearchEngineModule(m) && m.name@ == GOOGLE_MODULE_NAME@
                && m.url@ == GOOGLE_SEARCH_URL@ && m.param@ == GOOGLE_SEARCH_PARAM@
                && m.extractor.selector() == GOOGLE_CITE_TAG@ && m.extractor.removes().len() == 0,
    {
        Self::dispatcher()
    }

    pub fn dispatcher() -> (r: SubscanModule)
        ensures
            r matches SubscanModule::GenericSearchEngineModule(m) && m.name@ == GOOGLE_MODULE_NAME@
                && m.url@ == GOOGLE_SEARCH_URL@ && m.param@ == GOOGLE_SEARCH_PARAM@
                && m.extractor.selector() == GOOGLE_CITE_TAG@ && m.extractor.removes().len() == 0,
    {
        search_engine(
            GOOGLE_MODULE_NAME,
            GOOGLE_SEARCH_URL,
            GOOGLE_SEARCH_PARAM,
            GOOGLE_CITE_TAG,
            Vec::new(),
        )
    }
}

/// Yahoo search results: the title spans of the result list, with bold
/// markup removed.
pub struct Yahoo {}

impl Yahoo {
    pub fn dispatcher() -> (r: SubscanModule)
        ensures
            r matches SubscanModule::GenericSearchEngineModule(m) && m.name@ == YAHOO_MODULE_NAME@
                && m.url@ == YAHOO_SEARCH_URL@ && m.param@ == YAHOO_SEARCH_PARAM@
                && m.extractor.selector() == YAHOO_CITE_TAG@ && m.extractor.removes() == seq![
                "<b>"@,
                "</b>"@,
            ],
    {
        let removes: Vec<String> = vec![String::from_str("<b>"), String::from_str("</b>")];
        assert(views(removes@) =~= seq!["<b>"@, "</b>"@]);
        search_engine(YAHOO_MODULE_NAME, YAHOO_SEARCH_URL, YAHOO_SEARCH_PARAM, YAHOO_CITE_TAG, removes)
    }
}

/// The extractor of an API that answers with an array of names.
fn name_array() -> (r: JSONExtractor)
    ensures
        r.path() == Seq::<Seq<char>>::empty(),
        r.item_key() is None,
{
    let path: Vec<String> = Vec::new();
    assert(views(path@) =~= Seq::<Seq<char>>::empty());
    JSONExtractor::new(path, None)
}

/// The Anubis API: an array of names, no credential.
pub struct Anubis {}

impl Anubis {
    pub fn dispatcher() -> (r: SubscanModule)
        ensures
            r matches SubscanModule::GenericIntegrationModule(m) && m.name@ == ANUBIS_MODULE_NAME@
                && m.url.prefix@ == ANUBIS_URL@ + "/"@ && m.url.suffix@.len() == 0
                && m.auth is NoAuth && m.next is Never && m.extractor.path().len() == 0
                && m.extractor.item_key() is None,
    {
        let mut prefix = String::from_str(ANUBIS_URL);
        prefix.append("/");
        proof {
            reveal_strlit("");
        }
        integration(ANUBIS_MODULE_NAME, prefix.as_str(), "", APIAuthMethod::NoAuth, name_array())
    }

    /// The query URL for `domain`.
    pub fn get_query_url(domain: &str) -> (r: String)
        ensures
            r@ == ANUBIS_URL@ + "/"@ + domain@,
    {
        let mut r = String::from_str(ANUBIS_URL);
        r.append("/");
        r.append(domain);
        r
    }

    /// The API has a single page.
    pub fn get_next_url(_url: &str, _content: &Content) -> (r: Option<String>)
        ensures
            r is None,
    {
        None
    }

    /// The strings of the answer's array, once each.
    pub fn extract(content: &JsonValue, _domain: &str) -> (r: Vec<String>)
        ensures
            views(r@) == dedup(listed_strings(*content, seq![], None)),
    {
        let e = name_array();
        let listed = e.listed(content);
        dedup_names(&listed)
    }
}

/// The Subdomain Center API: an array of names, no credential.
pub struct SubdomainCenter {}

impl SubdomainCenter {
    pub fn dispatcher() -> (r: SubscanModule)
        ensures
            r matches SubscanModule::GenericIntegrationModule(m) && m.name@
                == SUBDOMAINCENTER_MODULE_NAME@ && m.url.prefix@ == SUBDOMAINCENTER_URL@
                + "/?domain="@ && m.url.suffix@.len() == 0 && m.auth is NoAuth && m.next is Never
                && m.extractor.path().len() == 0 && m.extractor.item_key() is None,
    {
        let mut prefix = String::from_str(SUBDOMAINCENTER_URL);
        prefix.append("/?domain=");
        proof {
            reveal_strlit("");
        }
        integration(
            SUBDOMAINCENTER_MODULE_NAME,
            prefix.as_str(),
            "",
            APIAuthMethod::NoAuth,
            name_array(),
        )
    }

    /// The query URL for `domain`.
    pub fn get_query_url(domain: &str) -> (r: String)
        ensures
            r@ == SUBDOMAINCENTER_URL@ + "/?domain="@ + domain@,
    {
        let mut r = String::from_str(SUBDOMAINCENTER_URL);
        r.append("/?domain=");
        r.append(domain);
        r
    }

    /// The API has a single page.
    pub fn get_next_url(_url: &str, _content: &Content) -> (r: Option<String>)
        ensures
            r is None,
    {
        None
    }

    /// The strings of the answer's array, once each.
    pub fn extract(content: &JsonValue, _domain: &str) -> (r: Vec<String>)
        ensures
            views(r@) == dedup(listed_strings(*content, seq![], None)),
    {
        let e = name_array();
        let listed = e.listed(content);
        dedup_names(&listed)
    }
}

/// The WhoisXML API: the `domain` member of each record under
/// `result.records`, with the key as the `apiKey` query parameter.
pub struct WhoisXMLAPI {}

impl WhoisXMLAPI {
    /// The extractor of the API's answers.
    fn records() -> (r: JSONExtractor)
        ensures
            r.path() == seq!["result"@, "records"@],
            r.item_key() == Some("domain"@),
    {
        let path: Vec<String> = vec![String::from_str("result"), String::from_str("records")];
        assert(views(path@) =~= seq!["result"@, "records"@]);
        JSONExtractor::new(path, Some(String::from_str("domain")))
    }

    pub fn dispatcher() -> (r: SubscanModule)
        ensures
            r matches SubscanModule::GenericIntegrationModule(m) && m.name@
                == WHOISXMLAPI_MODULE_NAME@ && m.url.prefix@ == WHOISXMLAPI_URL@
                + "/?domainName="@ && m.url.suffix@.len() == 0 && m.next is Never
                && (m.auth matches APIAuthMethod::APIKeyAsQueryParam(p) && p@ == "apiKey"@)
                && m.extractor.path() == seq!["result"@, "records"@] && m.extractor.item_key()
                == Some("domain"@),
    {
        let mut prefix = String::from_str(WHOISXMLAPI_URL);
        prefix.append("/?domainName=");
        let key = String::from_str("apiKey");
        proof {
            reveal_strlit("");
        }
        integration(
            WHOISXMLAPI_MODULE_NAME,
            prefix.as_str(),
            "",
            APIAuthMethod::APIKeyAsQueryParam(key),
            Self::records(),
        )
    }

    /// The query URL for `domain`.
    pub fn get_query_url(domain: &str) -> (r: String)
        ensures
            r@ == WHOISXMLAPI_URL@ + "/?domainName="@ + domain@,
    {
        let mut r = String::from_str(WHOISXMLAPI_URL);
        r.append("/?domainName=");
        r.append(domain);
        r
    }

    /// The API has a single page.
    pub fn get_next_url(_url: &str, _content: &Content) -> (r: Option<String>)
        ensures
            r is None,
    {
        None
    }

    /// The `domain` member of each record under `result.records`, once each.
    pub fn extract(content: &JsonValue, _domain: &str) -> (r: Vec<String>)
        ensures
            views(r@) == dedup(
                listed_strings(*content, seq!["result"@, "records"@], Some("domain"@)),
            ),
    {
        let e = Self::records();
        let listed = e.listed(content);
        dedup_names(&listed)
    }
}

} // verus!
