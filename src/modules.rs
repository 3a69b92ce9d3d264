//! Modules: the discovery strategies a scan runs, and the protocol by which
//! each one turns fetched pages into subdomains.
use crate::extractors::{
    content_json_names, css_selector_valid, field, fragment_names, json_field, parse_json, parsed_json,
    selected_inner_html, Content, HTMLExtractor, JSONExtractor, JsonValue,
};
use crate::names::{copy_names, dedup, insert_name, views};
use crate::status::{ModuleErrorKind, SkipReason, SubscanModuleStatus};
use crate::urls::{
    header_name_valid, header_value_valid, is_header_name, is_header_value, normalized_url, parse_url,
    push_path_segment, query_set, set_query_without_override, url_with_segment,
};
use vstd::prelude::*;

verus! {

/// How a module presents its credential.
#[derive(Debug)]
pub enum APIAuthMethod {
    NoAuth,
    /// As a request header of this name.
    APIKeyAsHeader(String),
    /// As a query parameter of this name, unless the URL already has one.
    APIKeyAsQueryParam(String),
    /// As one more segment of the URL path.
    APIKeyAsURLSlug,
}

impl APIAuthMethod {
    /// Whether the method needs a credential.
    pub fn is_set(&self) -> (r: bool)
        ensures
            r == !(*self is NoAuth),
    {
        !matches!(self, APIAuthMethod::NoAuth)
    }
}

/// Network settings of a module's requester. Header names are unique.
#[derive(Debug)]
pub struct RequesterConfig {
    pub timeout_secs: u64,
    pub user_agent: String,
    pub proxy: Option<String>,
    pub headers: Vec<(String, String)>,
}

/// The view of a list of header fields.
pub open spec fn header_views(h: Seq<(String, String)>) -> Seq<(Seq<char>, Seq<char>)> {
    h.map_values(|p: (String, String)| (p.0@, p.1@))
}

/// The fields of `h` with `(name, value)` set: replacing the value of a field
/// of that name, or added at the end.
pub open spec fn with_header(h: Seq<(Seq<char>, Seq<char>)>, name: Seq<char>, value: Seq<char>) -> Seq<
    (Seq<char>, Seq<char>),
> {
    if exists|i: int| 0 <= i < h.len() && (#[trigger] h[i]).0 == name {
        h.update(choose|i: int| 0 <= i < h.len() && (#[trigger] h[i]).0 == name, (name, value))
    } else {
        h.push((name, value))
    }
}

/// No two fields share a name.
pub open spec fn names_unique(h: Seq<(Seq<char>, Seq<char>)>) -> bool {
    forall|i: int, j: int| 0 <= i < j < h.len() ==> (#[trigger] h[i]).0 != (#[trigger] h[j]).0
}

impl RequesterConfig {
    pub fn new(timeout_secs: u64, user_agent: String, proxy: Option<String>) -> (r: Self)
        ensures
            r.timeout_secs == timeout_secs,
            r.user_agent == user_agent,
            r.proxy == proxy,
            r.header_list() == Seq::<(Seq<char>, Seq<char>)>::empty(),
            r.wf(),
    {
        RequesterConfig { timeout_secs, user_agent, proxy, headers: Vec::new() }
    }

    pub open spec fn header_list(&self) -> Seq<(Seq<char>, Seq<char>)> {
        header_views(self.headers@)
    }

    pub open spec fn wf(&self) -> bool {
        names_unique(self.header_list())
    }

    /// The settings as plain values.
    pub open spec fn view_parts(&self) -> (u64, Seq<char>, Option<Seq<char>>, Seq<(Seq<char>, Seq<char>)>) {
        (
            self.timeout_secs,
            self.user_agent@,
            match self.proxy {
                Some(p) => Some(p@),
                None => None,
            },
            self.header_list(),
        )
    }

    /// A copy of the settings.
    pub fn duplicate(&self) -> (r: Self)
        ensures
            r.view_parts() == self.view_parts(),
            r.wf() == self.wf(),
    {
        let mut headers: Vec<(String, String)> = Vec::new();
        let mut i: usize = 0;
        while i < self.headers.len()
            invariant
                i <= self.headers@.len(),
                headers@.len() == i,
                header_views(headers@) == header_views(self.headers@).subrange(0, i as int),
            decreases self.headers@.len() - i,
        {
            let ghost before = header_views(headers@);
            headers.push((self.headers[i].0.clone(), self.headers[i].1.clone()));
            assert(header_views(headers@) =~= before.push(header_views(self.headers@)[i as int]));
            assert(header_views(self.headers@).subrange(0, i + 1) =~= header_views(self.headers@).subrange(0, i as int).push(
                header_views(self.headers@)[i as int],
            ));
            i = i + 1;
        }
        assert(header_views(self.headers@).subrange(0, self.headers@.len() as int) =~= header_views(self.headers@));
        let proxy = match &self.proxy {
            Some(p) => Some(p.clone()),
            None => None,
        };
        RequesterConfig {
            timeout_secs: self.timeout_secs,
            user_agent: self.user_agent.clone(),
            proxy,
            headers,
        }
    }

    /// Sets the header `name` to `value`, replacing any earlier value.
    pub fn add_header(&mut self, name: String, value: String)
        requires
            old(self).wf(),
        ensures
            final(self).wf(),
            final(self).header_list() == with_header(old(self).header_list(), name@, value@),
            final(self).timeout_secs == old(self).timeout_secs,
            final(self).user_agent == old(self).user_agent,
            final(self).proxy == old(self).proxy,
    {
        let ghost h = self.header_list();
        match header_index(&self.headers, &name) {
            Some(i) => {
                assert forall|k: int| 0 <= k < h.len() && (#[trigger] h[k]).0 == name@ implies k
                    == i by {
                    if k != i {
                        assert(h[k].0 != h[i as int].0);
                    }
                }
                self.headers.set(i, (name, value));
                assert(header_views(self.headers@) =~= h.update(i as int, (name@, value@)));
            },
            None => {
                self.headers.push((name, value));
                assert(header_views(self.headers@) =~= h.push((name@, value@)));
            },
        }
    }
}

/// The position of the field named `name`, if there is one.
fn header_index(headers: &Vec<(String, String)>, name: &String) -> (r: Option<usize>)
    ensures
        match r {
            Some(i) => i < headers@.len() && header_views(headers@)[i as int].0 == name@,
            None => forall|k: int|
                0 <= k < headers@.len() ==> (#[trigger] header_views(headers@)[k]).0 != name@,
        },
{
    let ghost h = header_views(headers@);
    let mut i: usize = 0;
    while i < headers.len()
        invariant
            h == header_views(headers@),
            i <= headers@.len(),
            forall|k: int| 0 <= k < i ==> (#[trigger] h[k]).0 != name@,
        decreases headers@.len() - i,
    {
        assert(h[i as int] == (headers@[i as int].0@, headers@[i as int].1@));
        if headers[i].0 == *name {
            return Some(i);
        }
        i = i + 1;
    }
    None
}

/// The final record of one module run: what it found and how it ended.
#[derive(Debug)]
pub struct SubscanModuleResult {
    pub subdomains: Vec<String>,
    pub status: SubscanModuleStatus,
}

/// How an API's next page is found.
#[derive(Debug)]
pub enum NextPage {
    /// The API has one page.
    Never,
    /// The response's member of this name holds the next page's URL.
    FromField(String),
}

/// The text of a URL template: the prefix, the domain, then the suffix.
#[derive(Debug)]
pub struct QueryUrl {
    pub prefix: String,
    pub suffix: String,
}

impl QueryUrl {
    /// The query URL for `domain`.
    pub fn build(&self, domain: &str) -> (r: String)
        ensures
            r@ == self.prefix@ + domain@ + self.suffix@,
    {
        let mut r = String::from_str(self.prefix.as_str());
        r.append(domain);
        r.append(self.suffix.as_str());
        r
    }
}

/// A module that queries one JSON API, following its pages and presenting a
/// credential as the API asks.
#[derive(Debug)]
pub struct GenericAPIIntegrationModule {
    pub name: String,
    pub url: QueryUrl,
    pub next: NextPage,
    pub auth: APIAuthMethod,
    pub config: RequesterConfig,
    pub extractor: JSONExtractor,
}

/// The JSON document in fetched content; null where there is none.
pub open spec fn json_of(c: Content) -> JsonValue {
    match c {
        Content::Json(v) => v,
        Content::Text(t) => match parsed_json(t@) {
            Some(v) => v,
            None => JsonValue::Null,
        },
        Content::Empty => JsonValue::Null,
    }
}

/// The names in `acc`, then those of `news` not yet there, in order.
pub open spec fn merge(acc: Seq<Seq<char>>, news: Seq<Seq<char>>) -> Seq<Seq<char>>
    decreases news.len(),
{
    if news.len() == 0 {
        acc
    } else {
        let m = merge(acc, news.drop_last());
        if m.contains(news.last()) {
            m
        } else {
            m.push(news.last())
        }
    }
}

/// Adds each name of `news` to `acc` unless `acc` already holds it.
pub fn merge_names(acc: &mut Vec<String>, news: &Vec<String>)
    ensures
        views(final(acc)@) == merge(views(old(acc)@), views(news@)),
{
    let ghost start = views(acc@);
    let mut i: usize = 0;
    assert(views(news@).subrange(0, 0) =~= Seq::<Seq<char>>::empty());
    while i < news.len()
        invariant
            i <= news@.len(),
            views(acc@) == merge(start, views(news@).subrange(0, i as int)),
        decreases news@.len() - i,
    {
        let ghost pre = views(news@).subrange(0, i + 1);
        assert(pre.drop_last() =~= views(news@).subrange(0, i as int));
        assert(pre.last() == news@[i as int]@);
        insert_name(acc, news[i].clone());
        i = i + 1;
    }
    assert(views(news@).subrange(0, news@.len() as int) =~= views(news@));
}

impl GenericAPIIntegrationModule {
    /// The subdomains of `d` that one fetched page yields.
    pub open spec fn page_names(&self, d: Seq<char>, c: Content) -> Seq<Seq<char>> {
        content_json_names(c, self.extractor.path(), self.extractor.item_key(), d)
    }

    /// The URL of the page after `c`, if the API names one.
    pub open spec fn next_url(&self, c: Content) -> Option<Seq<char>> {
        match self.next {
            NextPage::Never => None,
            NextPage::FromField(k) => match field(json_of(c), k@) {
                JsonValue::Str(s) => Some(s@),
                _ => None,
            },
        }
    }

    /// The URL `raw` with `key` applied as the auth method asks: as a query
    /// parameter unless the query already names it, or as one more path
    /// segment; nothing when the URL does not parse or cannot take the key.
    pub open spec fn authed_url(&self, raw: Seq<char>, key: Seq<char>) -> Option<Seq<char>> {
        match normalized_url(raw) {
            None => None,
            Some(n) => match self.auth {
                APIAuthMethod::APIKeyAsQueryParam(p) => Some(query_set(raw, p@, key)),
                APIAuthMethod::APIKeyAsURLSlug => url_with_segment(raw, key),
                _ => Some(n),
            },
        }
    }

    /// The first URL to fetch for `d`, with `key` applied as the auth method
    /// asks; nothing when the URL does not parse or cannot take the key.
    pub open spec fn start_url(&self, d: Seq<char>, key: Seq<char>) -> Option<Seq<char>> {
        self.authed_url(self.url.prefix@ + d + self.url.suffix@, key)
    }

    /// The header that carries `key`, when the auth method asks for one and
    /// the name and value are valid header text.
    pub open spec fn auth_header(&self, key: Seq<char>) -> Option<(Seq<char>, Seq<char>)> {
        match self.auth {
            APIAuthMethod::APIKeyAsHeader(name) => if header_name_valid(name@) && header_value_valid(
                key,
            ) {
                Some((name@, key))
            } else {
                None
            },
            _ => None,
        }
    }

    /// The URL of the page after `content`, if the API names one.
    pub fn get_next_url(&self, content: &Content) -> (r: Option<String>)
        ensures
            match r {
                Some(u) => self.next_url(*content) == Some(u@),
                None => self.next_url(*content) is None,
            },
    {
        match &self.next {
            NextPage::Never => None,
            NextPage::FromField(k) => {
                let parsed: Option<JsonValue>;
                let v: &JsonValue = match content {
                    Content::Json(v) => v,
                    Content::Text(t) => {
                        parsed = parse_json(t.as_str());
                        match &parsed {
                            Some(v) => v,
                            None => {
                                return None;
                            },
                        }
                    },
                    Content::Empty => {
                        return None;
                    },
                };
                match json_field(v, k.as_str()) {
                    Some(JsonValue::Str(s)) => Some(s.clone()),
                    _ => None,
                }
            },
        }
    }

    /// Applies the credential `apikey` to the query URL `url` as the auth
    /// method asks. Returns the URL to fetch, and the header that carries
    /// the key when the method asks for one and the name and value are valid
    /// header text; nothing when the URL does not parse or cannot take the key.
    pub fn authenticate(&self, url: &str, apikey: String) -> (r: Option<
        (String, Option<(String, String)>),
    >)
        ensures
            match r {
                None => self.authed_url(url@, apikey@) is None,
                Some(applied) => self.authed_url(url@, apikey@) == Some(applied.0@) && self.auth_header(
                    apikey@,
                ) == match applied.1 {
                    Some(h) => Some((h.0@, h.1@)),
                    None => None,
                },
            },
    {
        let normal = match parse_url(url) {
            Some(n) => n,
            None => {
                return None;
            },
        };
        let target = match &self.auth {
            APIAuthMethod::APIKeyAsQueryParam(p) => set_query_without_override(
                url,
                p.as_str(),
                apikey.as_str(),
            ),
            APIAuthMethod::APIKeyAsURLSlug => push_path_segment(url, apikey.as_str()),
            _ => Some(normal),
        };
        let target = match target {
            Some(u) => u,
            None => {
                return None;
            },
        };
        let header = match &self.auth {
            APIAuthMethod::APIKeyAsHeader(name) => {
                if is_header_name(name.as_str()) && is_header_value(apikey.as_str()) {
                    Some((name.clone(), apikey))
                } else {
                    None
                }
            },
            _ => None,
        };
        Some((target, header))
    }

    /// Starts a run for `domain`. `apikey` is the module's credential, if
    /// one was provided. A module that needs a credential and has none is
    /// skipped; a query URL that does not parse fails the run; otherwise the
    /// run begins at the first page's URL.
    pub fn begin(&self, domain: &str, apikey: Option<String>) -> (r: Result<
        IntegrationRun,
        SubscanModuleResult,
    >)
        ensures
            r is Err ==> r->Err_0.subdomains@.len() == 0,
            self.auth !is NoAuth && apikey is None ==> r is Err && r->Err_0.status
                == SubscanModuleStatus::Skipped(SkipReason::AuthenticationNotProvided),
            !(self.auth !is NoAuth && apikey is None) ==> {
                let key = match apikey {
                    Some(k) => k@,
                    None => Seq::<char>::empty(),
                };
                match self.start_url(domain@, key) {
                    None => r is Err && r->Err_0.status == SubscanModuleStatus::Failed(
                        ModuleErrorKind::UrlParse,
                    ),
                    Some(u) => r is Ok && r->Ok_0.target() == u && r->Ok_0.domain() == domain@
                        && r->Ok_0.found() == Seq::<Seq<char>>::empty() && r->Ok_0.header()
                        == self.auth_header(key),
                }
            },
    {
        let key = match apikey {
            Some(k) => k,
            None => {
                if self.auth.is_set() {
                    return Err(
                        SubscanModuleResult {
                            subdomains: Vec::new(),
                            status: SubscanModuleStatus::Skipped(
                                SkipReason::AuthenticationNotProvided,
                            ),
                        },
                    );
                }
                String::new()
            },
        };
        let raw = self.url.build(domain);
        let (url, header) = match self.authenticate(raw.as_str(), key) {
            Some(applied) => applied,
            None => {
                return Err(
                    SubscanModuleResult {
                        subdomains: Vec::new(),
                        status: SubscanModuleStatus::Failed(ModuleErrorKind::UrlParse),
                    },
                );
            },
        };
        Ok(
            IntegrationRun {
                domain: String::from_str(domain),
                url,
                results: Vec::new(),
                header,
            },
        )
    }
}

/// One run of an integration module, between page fetches.
#[derive(Debug)]
pub struct IntegrationRun {
    domain: String,
    url: String,
    results: Vec<String>,
    header: Option<(String, String)>,
}

/// Whether fetched content should be a JSON document and is not one.
pub open spec fn unparsable(c: Content) -> bool {
    match c {
        Content::Text(t) => parsed_json(t@) is None,
        _ => false,
    }
}

/// How a run that holds `acc` ends on the page `c`: a page that does not
/// parse fails the run, keeping what came before; any other ends it.
pub open spec fn end_status(acc: Seq<Seq<char>>, c: Content) -> SubscanModuleStatus {
    if unparsable(c) {
        if acc.len() > 0 {
            SubscanModuleStatus::FailedWithResult
        } else {
            SubscanModuleStatus::Failed(ModuleErrorKind::Json)
        }
    } else {
        SubscanModuleStatus::Finished
    }
}

/// The names gathered and the next URL, if any, after one page.
pub open spec fn after_page(
    m: GenericAPIIntegrationModule,
    d: Seq<char>,
    acc: Seq<Seq<char>>,
    c: Content,
) -> (Seq<Seq<char>>, Option<Seq<char>>) {
    let news = m.page_names(d, c);
    if news.len() == 0 {
        (acc, None)
    } else {
        (merge(acc, news), m.next_url(c))
    }
}

impl IntegrationRun {
    /// The target domain of the run.
    pub closed spec fn domain(&self) -> Seq<char> {
        self.domain@
    }

    /// The URL of the page to fetch next.
    pub closed spec fn target(&self) -> Seq<char> {
        self.url@
    }

    /// The URL of the page to fetch next.
    pub fn url(&self) -> (r: &String)
        ensures
            r@ == self.target(),
    {
        &self.url
    }

    /// The subdomains gathered so far, in order of first appearance.
    pub closed spec fn found(&self) -> Seq<Seq<char>> {
        views(self.results@)
    }

    /// The header that carries the credential, when the module sends one.
    pub closed spec fn header(&self) -> Option<(Seq<char>, Seq<char>)> {
        match self.header {
            Some(h) => Some((h.0@, h.1@)),
            None => None,
        }
    }

    /// The subdomains gathered so far, in order of first appearance.
    pub fn found_names(&self) -> (r: &Vec<String>)
        ensures
            views(r@) == self.found(),
    {
        &self.results
    }

    /// The extra header to send with each request of this run.
    pub fn auth_header(&self) -> (r: &Option<(String, String)>)
        ensures
            self.header() == match *r {
                Some(h) => Some((h.0@, h.1@)),
                None => None,
            },
    {
        &self.header
    }

    /// Takes in the page fetched from `self.url`. A page that yields no
    /// subdomain ends the run, as a failure when it is not JSON; otherwise
    /// its names join the results and the run goes on to the next page if
    /// the API names one, else ends. Returns the final record when the run
    /// has ended.
    pub fn on_content(&mut self, module: &GenericAPIIntegrationModule, content: &Content) -> (r:
        Option<SubscanModuleResult>)
        ensures
            final(self).domain() == old(self).domain(),
            final(self).header() == old(self).header(),
            final(self).found() == after_page(
                *module,
                old(self).domain(),
                old(self).found(),
                *content,
            ).0,
            match after_page(*module, old(self).domain(), old(self).found(), *content).1 {
                Some(u) => r is None && final(self).target() == u,
                None => r is Some && views(r->0.subdomains@) == final(self).found()
                    && r->0.status == end_status(old(self).found(), *content),
            },
    {
        if let Content::Text(t) = content {
            if parse_json(t.as_str()).is_none() {
                let mut result = self.finish();
                result.status = if self.results.len() > 0 {
                    SubscanModuleStatus::FailedWithResult
                } else {
                    SubscanModuleStatus::Failed(ModuleErrorKind::Json)
                };
                return Some(result);
            }
        }
        let news = module.extractor.extract(content, self.domain.as_str());
        if news.len() == 0 {
            return Some(self.finish());
        }
        merge_names(&mut self.results, &news);
        match module.get_next_url(content) {
            Some(u) => {
                self.url = u;
                None
            },
            None => Some(self.finish()),
        }
    }

    /// The record of a finished run: its results so far.
    fn finish(&mut self) -> (r: SubscanModuleResult)
        ensures
            views(r.subdomains@) == old(self).found(),
            r.status == SubscanModuleStatus::Finished,
            final(self).found() == old(self).found(),
            final(self).domain() == old(self).domain(),
            final(self).target() == old(self).target(),
            final(self).header() == old(self).header(),
    {
        let subdomains = copy_names(&self.results);
        SubscanModuleResult { subdomains, status: SubscanModuleStatus::Finished }
    }

    /// Ends the run on a failed fetch or parse: a failure after some results
    /// keeps them, one before any result reports the error.
    pub fn on_failure(self, err: ModuleErrorKind) -> (r: SubscanModuleResult)
        ensures
            views(r.subdomains@) == self.found(),
            r.status == if self.found().len() > 0 {
                SubscanModuleStatus::FailedWithResult
            } else {
                SubscanModuleStatus::Failed(err)
            },
    {
        let status = if self.results.len() > 0 {
            SubscanModuleStatus::FailedWithResult
        } else {
            SubscanModuleStatus::Failed(err)
        };
        SubscanModuleResult { subdomains: self.results, status }
    }
}

/// A module that runs one search-engine query and reads the subdomains off
/// the result page.
#[derive(Debug)]
pub struct GenericSearchEngineModule {
    pub name: String,
    /// The search endpoint.
    pub url: String,
    /// The query parameter that carries the search term.
    pub param: String,
    pub extractor: HTMLExtractor,
    pub config: RequesterConfig,
}

impl GenericSearchEngineModule {
    /// The search URL for `d`: the endpoint with the domain as its search
    /// term; nothing when the endpoint does not parse.
    pub open spec fn search_url(&self, d: Seq<char>) -> Option<Seq<char>> {
        match normalized_url(self.url@) {
            None => None,
            Some(_) => Some(crate::urls::url_with_pair(self.url@, self.param@, d)),
        }
    }

    /// The subdomains of `d` on a result page, or nothing when the selector
    /// is not valid.
    pub open spec fn page_names(&self, d: Seq<char>, c: Content) -> Option<Seq<Seq<char>>> {
        if !css_selector_valid(self.extractor.selector()) {
            None
        } else {
            Some(
                match c {
                    Content::Text(t) => dedup(
                        fragment_names(
                            selected_inner_html(t@, self.extractor.selector()),
                            self.extractor.removes(),
                            d,
                        ),
                    ),
                    _ => seq![],
                },
            )
        }
    }

    /// Whether the module's selector is a valid CSS selector group; a module
    /// with a malformed one is misconfigured and never starts a run.
    pub open spec fn selector_ok(&self) -> bool {
        css_selector_valid(self.extractor.selector())
    }

    /// Starts a search for `domain`: the run fetches the search URL once.
    /// A malformed selector fails the module before any fetch.
    pub fn begin(&self, domain: &str) -> (r: Result<SearchRun, SubscanModuleResult>)
        ensures
            !self.selector_ok() ==> r is Err && r->Err_0.subdomains@.len() == 0 && r->Err_0.status
                matches SubscanModuleStatus::Failed(ModuleErrorKind::Custom(_)),
            self.selector_ok() ==> match self.search_url(domain@) {
                None => r is Err && r->Err_0.subdomains@.len() == 0 && r->Err_0.status
                    == SubscanModuleStatus::Failed(ModuleErrorKind::UrlParse),
                Some(u) => r is Ok && r->Ok_0.target() == u && r->Ok_0.domain() == domain@,
            },
    {
        if !self.extractor.selector_valid() {
            return Err(
                SubscanModuleResult {
                    subdomains: Vec::new(),
                    status: SubscanModuleStatus::Failed(
                        ModuleErrorKind::Custom(String::from_str("invalid selector")),
                    ),
                },
            );
        }
        match crate::urls::append_query_pair(self.url.as_str(), self.param.as_str(), domain) {
            Some(url) => Ok(SearchRun { domain: String::from_str(domain), url }),
            None => Err(
                SubscanModuleResult {
                    subdomains: Vec::new(),
                    status: SubscanModuleStatus::Failed(ModuleErrorKind::UrlParse),
                },
            ),
        }
    }
}

/// The one fetch of a search-engine run.
#[derive(Debug)]
pub struct SearchRun {
    domain: String,
    url: String,
}

impl SearchRun {
    pub closed spec fn domain(&self) -> Seq<char> {
        self.domain@
    }

    pub closed spec fn target(&self) -> Seq<char> {
        self.url@
    }

    /// The URL to fetch.
    pub fn url(&self) -> (r: &String)
        ensures
            r@ == self.target(),
    {
        &self.url
    }

    /// Ends the run with the result page: its subdomains, or a failure when
    /// the module's selector is not valid.
    pub fn on_content(self, module: &GenericSearchEngineModule, content: &Content) -> (r:
        SubscanModuleResult)
        ensures
            match module.page_names(self.domain(), *content) {
                Some(names) => views(r.subdomains@) == names && r.status
                    == SubscanModuleStatus::Finished,
                None => r.subdomains@.len() == 0 && r.status is Failed,
            },
    {
        let found = if !module.extractor.selector_valid() {
            None
        } else {
            match content {
                Content::Text(t) => Some(
                    module.extractor.extract(t.as_str(), self.domain.as_str()),
                ),
                _ => Some(Vec::new()),
            }
        };
        match found {
            Some(names) => SubscanModuleResult {
                subdomains: names,
                status: SubscanModuleStatus::Finished,
            },
            None => SubscanModuleResult {
                subdomains: Vec::new(),
                status: SubscanModuleStatus::Failed(
                    ModuleErrorKind::Custom(String::from_str("invalid selector")),
                ),
            },
        }
    }

    /// Ends the run on a failed fetch.
    pub fn on_failure(self, err: ModuleErrorKind) -> (r: SubscanModuleResult)
        ensures
            r.subdomains@.len() == 0,
            r.status == SubscanModuleStatus::Failed(err),
    {
        SubscanModuleResult { subdomains: Vec::new(), status: SubscanModuleStatus::Failed(err) }
    }
}

/// The closed set of module kinds.
#[derive(Debug)]
pub enum SubscanModule {
    GenericIntegrationModule(GenericAPIIntegrationModule),
    GenericSearchEngineModule(GenericSearchEngineModule),
}

/// A module run in progress, of the kind of the module that started it.
#[derive(Debug)]
pub enum ModuleRun {
    Integration(IntegrationRun),
    Search(SearchRun),
}

impl SubscanModule {
    pub open spec fn name_view(&self) -> Seq<char> {
        match self {
            SubscanModule::GenericIntegrationModule(m) => m.name@,
            SubscanModule::GenericSearchEngineModule(m) => m.name@,
        }
    }

    pub open spec fn config_view(&self) -> RequesterConfig {
        match self {
            SubscanModule::GenericIntegrationModule(m) => m.config,
            SubscanModule::GenericSearchEngineModule(m) => m.config,
        }
    }

    /// Whether the module needs a credential.
    pub open spec fn needs_key(&self) -> bool {
        match self {
            SubscanModule::GenericIntegrationModule(m) => m.auth !is NoAuth,
            SubscanModule::GenericSearchEngineModule(_) => false,
        }
    }

    /// The module's name.
    pub fn name(&self) -> (r: &String)
        ensures
            r@ == self.name_view(),
    {
        match self {
            SubscanModule::GenericIntegrationModule(m) => &m.name,
            SubscanModule::GenericSearchEngineModule(m) => &m.name,
        }
    }

    /// Whether the module needs a credential.
    pub fn requires_key(&self) -> (r: bool)
        ensures
            r == self.needs_key(),
    {
        match self {
            SubscanModule::GenericIntegrationModule(m) => m.auth.is_set(),
            SubscanModule::GenericSearchEngineModule(_) => false,
        }
    }

    /// The module's requester settings.
    pub fn config(&self) -> (r: &RequesterConfig)
        ensures
            *r == self.config_view(),
    {
        match self {
            SubscanModule::GenericIntegrationModule(m) => &m.config,
            SubscanModule::GenericSearchEngineModule(m) => &m.config,
        }
    }

    /// Replaces the module's requester settings.
    pub fn configure(&mut self, config: RequesterConfig)
        ensures
            final(self).config_view() == config,
            final(self).name_view() == old(self).name_view(),
            final(self).needs_key() == old(self).needs_key(),
    {
        match self {
            SubscanModule::GenericIntegrationModule(m) => {
                m.config = config;
            },
            SubscanModule::GenericSearchEngineModule(m) => {
                m.config = config;
            },
        }
    }

    /// Starts a run for `domain` with the module's credential, if one was
    /// provided; an integration module that needs a credential and has none
    /// is skipped.
    pub fn begin(&self, domain: &str, apikey: Option<String>) -> (r: Result<
        ModuleRun,
        SubscanModuleResult,
    >)
        ensures
            r is Ok ==> r->Ok_0.belongs_to(*self),
            r is Err ==> r->Err_0.subdomains@.len() == 0,
            self.needs_key() && apikey is None ==> r is Err && r->Err_0.status
                == SubscanModuleStatus::Skipped(SkipReason::AuthenticationNotProvided),
            !self.needs_key() ==> r is Ok || r->Err_0.status is Failed,
            match *self {
                SubscanModule::GenericSearchEngineModule(m) => if !m.selector_ok() {
                    r is Err && r->Err_0.status matches SubscanModuleStatus::Failed(
                        ModuleErrorKind::Custom(_),
                    )
                } else {
                    match m.search_url(domain@) {
                        None => r is Err && r->Err_0.status == SubscanModuleStatus::Failed(
                            ModuleErrorKind::UrlParse,
                        ),
                        Some(u) => r matches Ok(ModuleRun::Search(run)) && run.target() == u
                            && run.domain() == domain@,
                    }
                },
                SubscanModule::GenericIntegrationModule(m) => !(self.needs_key() && apikey is None)
                    ==> {
                    let key = match apikey {
                        Some(k) => k@,
                        None => Seq::<char>::empty(),
                    };
                    match m.start_url(domain@, key) {
                        None => r is Err && r->Err_0.status == SubscanModuleStatus::Failed(ModuleErrorKind::UrlParse),
                        Some(u) => r matches Ok(ModuleRun::Integration(run)) && run.target() == u
                            && run.domain() == domain@ && run.found() == Seq::<Seq<char>>::empty()
                            && run.header() == m.auth_header(key),
                    }
                },
            },
    {
        match self {
            SubscanModule::GenericIntegrationModule(m) => match m.begin(domain, apikey) {
                Ok(run) => Ok(ModuleRun::Integration(run)),
                Err(e) => Err(e),
            },
            SubscanModule::GenericSearchEngineModule(m) => match m.begin(domain) {
                Ok(run) => Ok(ModuleRun::Search(run)),
                Err(e) => Err(e),
            },
        }
    }
}

impl ModuleRun {
    /// The run was started by a module of this kind.
    pub open spec fn belongs_to(&self, m: SubscanModule) -> bool {
        match (self, m) {
            (ModuleRun::Integration(_), SubscanModule::GenericIntegrationModule(_)) => true,
            (ModuleRun::Search(_), SubscanModule::GenericSearchEngineModule(_)) => true,
            _ => false,
        }
    }

    /// Whether the run was started by a module of the kind of `m`.
    pub fn is_for(&self, m: &SubscanModule) -> (r: bool)
        ensures
            r == self.belongs_to(*m),
    {
        match (self, m) {
            (ModuleRun::Integration(_), SubscanModule::GenericIntegrationModule(_)) => true,
            (ModuleRun::Search(_), SubscanModule::GenericSearchEngineModule(_)) => true,
            _ => false,
        }
    }

    /// The URL to fetch next.
    pub fn url(&self) -> (r: &String)
        ensures
            r@ == match self {
                ModuleRun::Integration(run) => run.target(),
                ModuleRun::Search(run) => run.target(),
            },
    {
        match self {
            ModuleRun::Integration(run) => run.url(),
            ModuleRun::Search(run) => run.url(),
        }
    }

    /// The subdomains the run has gathered so far.
    pub fn found_names(&self) -> (r: Option<&Vec<String>>)
        ensures
            match self {
                ModuleRun::Integration(run) => r matches Some(v) && views(v@) == run.found(),
                ModuleRun::Search(_) => r is None,
            },
    {
        match self {
            ModuleRun::Integration(run) => Some(run.found_names()),
            ModuleRun::Search(_) => None,
        }
    }

    /// The extra header the next request carries, if any.
    pub fn auth_header(&self) -> (r: Option<&(String, String)>)
        ensures
            match self {
                ModuleRun::Integration(run) => run.header() == match r {
                    Some(h) => Some((h.0@, h.1@)),
                    None => None,
                },
                ModuleRun::Search(_) => r is None,
            },
    {
        match self {
            ModuleRun::Integration(run) => match run.auth_header() {
                Some(h) => Some(h),
                None => None,
            },
            ModuleRun::Search(_) => None,
        }
    }

    /// Takes in the fetched page; returns the final record once the run has
    /// ended, or the run that goes on to its next page. A finished run never
    /// reports a skip.
    pub fn on_content(self, module: &SubscanModule, content: &Content) -> (r: Result<
        ModuleRun,
        SubscanModuleResult,
    >)
        requires
            self.belongs_to(*module),
        ensures
            r is Ok ==> r->Ok_0.belongs_to(*module),
            r is Err ==> r->Err_0.status !is Skipped,
            match (self, *module) {
                (ModuleRun::Integration(run), SubscanModule::GenericIntegrationModule(m)) => {
                    let step = after_page(m, run.domain(), run.found(), *content);
                    match step.1 {
                        Some(u) => r matches Ok(ModuleRun::Integration(next)) && next.target() == u
                            && next.found() == step.0 && next.domain() == run.domain()
                            && next.header() == run.header(),
                        None => r is Err && views(r->Err_0.subdomains@) == step.0
                            && r->Err_0.status == end_status(run.found(), *content),
                    }
                },
                (ModuleRun::Search(run), SubscanModule::GenericSearchEngineModule(m)) => r is Err
                    && match m.page_names(run.domain(), *content) {
                    Some(names) => views(r->Err_0.subdomains@) == names && r->Err_0.status
                        == SubscanModuleStatus::Finished,
                    None => r->Err_0.subdomains@.len() == 0 && r->Err_0.status is Failed,
                },
                _ => true,
            },
    {
        match (self, module) {
            (ModuleRun::Integration(mut run), SubscanModule::GenericIntegrationModule(m)) => {
                match run.on_content(m, content) {
                    Some(res) => Err(res),
                    None => Ok(ModuleRun::Integration(run)),
                }
            },
            (ModuleRun::Search(run), SubscanModule::GenericSearchEngineModule(m)) => Err(
                run.on_content(m, content),
            ),
            (run, _) => Ok(run),
        }
    }

    /// Ends the run on a failed fetch or parse; results gathered before the
    /// failure are kept.
    pub fn on_failure(self, err: ModuleErrorKind) -> (r: SubscanModuleResult)
        ensures
            r.status !is Skipped,
            r.status is Failed || r.status is FailedWithResult,
            match self {
                ModuleRun::Integration(run) => views(r.subdomains@) == run.found() && r.status
                    == if run.found().len() > 0 {
                    SubscanModuleStatus::FailedWithResult
                } else {
                    SubscanModuleStatus::Failed(err)
                },
                ModuleRun::Search(_) => r.subdomains@.len() == 0 && r.status
                    == SubscanModuleStatus::Failed(err),
            },
    {
        match self {
            ModuleRun::Integration(run) => run.on_failure(err),
            ModuleRun::Search(run) => run.on_failure(err),
        }
    }
}

/// Feeding `pages` in turn to a run that holds `acc`: the names it ends with
/// and how many pages it took, or nothing when it has not ended by the last.
pub open spec fn drive(
    m: GenericAPIIntegrationModule,
    d: Seq<char>,
    acc: Seq<Seq<char>>,
    pages: Seq<Content>,
) -> Option<(Seq<Seq<char>>, nat)>
    decreases pages.len(),
{
    if pages.len() == 0 {
        None
    } else {
        let step = after_page(m, d, acc, pages[0]);
        match step.1 {
            None => Some((step.0, 1nat)),
            Some(_) => match drive(m, d, step.0, pages.drop_first()) {
                Some((names, n)) => Some((names, n + 1)),
                None => None,
            },
        }
    }
}

/// Every name that the pages yield.
pub open spec fn union_of(m: GenericAPIIntegrationModule, d: Seq<char>, pages: Seq<Content>) -> Set<
    Seq<char>,
>
    decreases pages.len(),
{
    if pages.len() == 0 {
        Set::empty()
    } else {
        m.page_names(d, pages[0]).to_set().union(union_of(m, d, pages.drop_first()))
    }
}

/// Merging keeps every name of both lists and adds no other.
pub proof fn lemma_merge_set(acc: Seq<Seq<char>>, news: Seq<Seq<char>>)
    ensures
        merge(acc, news).to_set() == acc.to_set().union(news.to_set()),
    decreases news.len(),
{
    if news.len() == 0 {
        assert(news.to_set() =~= Set::empty());
        assert(acc.to_set().union(news.to_set()) =~= acc.to_set());
    } else {
        let p = news.drop_last();
        lemma_merge_set(acc, p);
        let m = merge(acc, p);
        assert(news =~= p.push(news.last()));
        p.lemma_push_to_set_commute(news.last());
        m.lemma_push_to_set_commute(news.last());
        if m.contains(news.last()) {
            assert(m.to_set().contains(news.last()));
        }
        assert(merge(acc, news).to_set() =~= acc.to_set().union(news.to_set()));
    }
}

/// Pagination ends as the pages say: when each page but the last yields
/// subdomains and names a next page, and the last yields none, the run ends
/// on the last page, having fetched every page once, with exactly the names
/// that the pages yield added to what it held.
pub proof fn lemma_pagination_ends(
    m: GenericAPIIntegrationModule,
    d: Seq<char>,
    acc: Seq<Seq<char>>,
    pages: Seq<Content>,
)
    requires
        pages.len() >= 1,
        forall|i: int|
            0 <= i < pages.len() - 1 ==> (#[trigger] m.page_names(d, pages[i])).len() > 0
                && m.next_url(pages[i]) is Some,
        m.page_names(d, pages[pages.len() - 1]).len() == 0,
    ensures
        drive(m, d, acc, pages) matches Some((names, n)) && n == pages.len() && names.to_set()
            == acc.to_set().union(union_of(m, d, pages)),
    decreases pages.len(),
{
    if pages.len() == 1 {
        assert(pages.drop_first() =~= Seq::<Content>::empty());
        assert(union_of(m, d, pages.drop_first()) =~= Set::empty());
        assert(m.page_names(d, pages[0]).to_set() =~= Set::empty());
        assert(acc.to_set().union(union_of(m, d, pages)) =~= acc.to_set());
    } else {
        let step = after_page(m, d, acc, pages[0]);
        assert(m.page_names(d, pages[0]).len() > 0);
        let rest = pages.drop_first();
        assert forall|i: int| 0 <= i < rest.len() - 1 implies (#[trigger] m.page_names(
            d,
            rest[i],
        )).len() > 0 && m.next_url(rest[i]) is Some by {
            assert(rest[i] == pages[i + 1]);
            assert(m.page_names(d, pages[i + 1]).len() > 0);
        }
        assert(rest[rest.len() - 1] == pages[pages.len() - 1]);
        lemma_pagination_ends(m, d, step.0, rest);
        lemma_merge_set(acc, m.page_names(d, pages[0]));
        let names = drive(m, d, step.0, rest)->Some_0.0;
        assert(names.to_set() =~= acc.to_set().union(union_of(m, d, pages)));
    }
}

} // verus!
