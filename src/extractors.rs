//! Extractors: pure functions from fetched content and a target domain to
//! the subdomains that the content names.
use crate::hostname::{
    check_subdomain, chars_of, found_in, hit, is_host_char, is_subdomain_of, scan, subdomains_in,
    trimmed,
};
use crate::names::{dedup, dedup_names, views};
use vstd::prelude::*;

verus! {

/// A parsed JSON document.
#[derive(Debug)]
pub enum JsonValue {
    Null,
    Bool(bool),
    /// A number, as the text that writes it.
    Number(String),
    Str(String),
    Array(Vec<JsonValue>),
    /// Members, with names unique, in the order the parser hands them over
    /// (sorted by name for serde_json's default map).
    Object(Vec<(String, JsonValue)>),
}

/// What a requester hands back: nothing, raw text, or a parsed JSON document.
#[derive(Debug)]
pub enum Content {
    Empty,
    Text(String),
    Json(JsonValue),
}

#[verifier::external_type_specification]
#[verifier::external_body]
pub struct ExSerdeJsonValue(serde_json::Value);

/// The JSON document that a text holds, if it holds one.
pub uninterp spec fn parsed_json(text: Seq<char>) -> Option<JsonValue>;

/// Relies on serde_json::from_str::<serde_json::Value>: the document that the
/// text holds, or nothing when it is not JSON; the result depends on the text alone.
#[verifier::external_body]
pub fn parse_json(text: &str) -> (r: Option<JsonValue>)
    ensures
        r == parsed_json(text@),
{
    serde_json::from_str::<serde_json::Value>(text).ok().map(json_from_serde)
}

/// Relies on serde_json::Value's variants: the same document in this
/// library's own type, member for member.
#[verifier::external_body]
fn json_from_serde(v: serde_json::Value) -> JsonValue {
    match v {
        serde_json::Value::Null => JsonValue::Null,
        serde_json::Value::Bool(b) => JsonValue::Bool(b),
        serde_json::Value::Number(n) => JsonValue::Number(n.to_string()),
        serde_json::Value::String(s) => JsonValue::Str(s),
        serde_json::Value::Array(a) => JsonValue::Array(a.into_iter().map(json_from_serde).collect()),
        serde_json::Value::Object(o) => JsonValue::Object(
            o.into_iter().map(|(k, x)| (k, json_from_serde(x))).collect(),
        ),
    }
}

/// Whether the text is a CSS selector group.
pub uninterp spec fn css_selector_valid(selector: Seq<char>) -> bool;

/// The inner markup of each element of the document that the selector
/// matches, in the order the selection yields them.
pub uninterp spec fn selected_inner_html(html: Seq<char>, selector: Seq<char>) -> Seq<Seq<char>>;

/// Relies on scraper::Selector::parse: whether it accepts the selector.
#[verifier::external_body]
fn selector_parses(selector: &str) -> (r: bool)
    ensures
        r == css_selector_valid(selector@),
{
    scraper::Selector::parse(selector).is_ok()
}

/// Relies on scraper::Html::parse_document, Html::select and
/// ElementRef::inner_html: the inner markup of each matching element, in
/// the order the selection yields them.
#[verifier::external_body]
fn select_inner_html(html: &str, selector: &str) -> (r: Vec<String>)
    requires
        css_selector_valid(selector@),
    ensures
        views(r@) == selected_inner_html(html@, selector@),
{
    let document = scraper::Html::parse_document(html);
    let selector = scraper::Selector::parse(selector).unwrap();
    document.select(&selector).map(|e| e.inner_html()).collect()
}

/// `t` with every occurrence of `p` removed, scanning left to right without
/// overlap; an empty `p` removes nothing.
pub open spec fn remove_all(t: Seq<char>, p: Seq<char>) -> Seq<char>
    decreases t.len(),
{
    if p.len() == 0 || t.len() < p.len() {
        t
    } else if t.subrange(0, p.len() as int) == p {
        remove_all(t.subrange(p.len() as int, t.len() as int), p)
    } else {
        seq![t[0]] + remove_all(t.drop_first(), p)
    }
}

/// `t` with each pattern of `ps` removed in turn.
pub open spec fn strip_all(t: Seq<char>, ps: Seq<Seq<char>>) -> Seq<char>
    decreases ps.len(),
{
    if ps.len() == 0 {
        t
    } else {
        strip_all(remove_all(t, ps[0]), ps.drop_first())
    }
}

/// The first element of `s`, if any, as a sequence of at most one element.
pub open spec fn first_of(s: Seq<Seq<char>>) -> Seq<Seq<char>> {
    if s.len() > 0 {
        seq![s[0]]
    } else {
        seq![]
    }
}

/// For each fragment in turn, the first subdomain of `d` it names once the
/// patterns `ps` are stripped from it.
pub open spec fn fragment_names(frags: Seq<Seq<char>>, ps: Seq<Seq<char>>, d: Seq<char>) -> Seq<
    Seq<char>,
>
    decreases frags.len(),
{
    if frags.len() == 0 {
        seq![]
    } else {
        fragment_names(frags.drop_last(), ps, d) + first_of(
            found_in(strip_all(frags.last(), ps), d),
        )
    }
}

/// The elements of `s` that are subdomains of `d`, in order.
pub open spec fn only_subdomains(s: Seq<Seq<char>>, d: Seq<char>) -> Seq<Seq<char>>
    decreases s.len(),
{
    if s.len() == 0 {
        seq![]
    } else {
        only_subdomains(s.drop_last(), d) + if is_subdomain_of(s.last(), d) {
            seq![s.last()]
        } else {
            seq![]
        }
    }
}

/// The value of the first member of `entries` named `key`, or null.
pub open spec fn member(entries: Seq<(String, JsonValue)>, key: Seq<char>) -> JsonValue
    decreases entries.len(),
{
    if entries.len() == 0 {
        JsonValue::Null
    } else if entries[0].0@ == key {
        entries[0].1
    } else {
        member(entries.drop_first(), key)
    }
}

/// The member of an object named `key`; null for anything else.
pub open spec fn field(v: JsonValue, key: Seq<char>) -> JsonValue {
    match v {
        JsonValue::Object(entries) => member(entries@, key),
        _ => JsonValue::Null,
    }
}

/// The value reached from `v` by following the member names of `path` in turn.
pub open spec fn at_path(v: JsonValue, path: Seq<Seq<char>>) -> JsonValue
    decreases path.len(),
{
    if path.len() == 0 {
        v
    } else {
        at_path(field(v, path[0]), path.drop_first())
    }
}

/// The string that an array item holds: the item itself, or its member
/// `key` when there is one.
pub open spec fn item_string(item: JsonValue, key: Option<Seq<char>>) -> Option<Seq<char>> {
    let target = match key {
        Some(k) => field(item, k),
        None => item,
    };
    match target {
        JsonValue::Str(s) => Some(s@),
        _ => None,
    }
}

/// The strings held by the items of an array, in order.
pub open spec fn item_strings(items: Seq<JsonValue>, key: Option<Seq<char>>) -> Seq<Seq<char>>
    decreases items.len(),
{
    if items.len() == 0 {
        seq![]
    } else {
        item_strings(items.drop_last(), key) + match item_string(items.last(), key) {
            Some(s) => seq![s],
            None => seq![],
        }
    }
}

/// The strings listed by the array at `path` in `v`; nothing when there is no
/// array there.
pub open spec fn listed_strings(v: JsonValue, path: Seq<Seq<char>>, key: Option<Seq<char>>) -> Seq<
    Seq<char>,
> {
    match at_path(v, path) {
        JsonValue::Array(items) => item_strings(items@, key),
        _ => seq![],
    }
}

/// The member of an object named `key`, or null.
pub fn json_field<'a>(v: &'a JsonValue, key: &str) -> (r: Option<&'a JsonValue>)
    ensures
        match r {
            Some(x) => *x == field(*v, key@),
            None => field(*v, key@) == JsonValue::Null,
        },
{
    match v {
        JsonValue::Object(entries) => {
            let k = String::from_str(key);
            let mut i: usize = 0;
            assert(entries@.subrange(0, entries@.len() as int) =~= entries@);
            while i < entries.len()
                invariant
                    k@ == key@,
                    field(*v, key@) == member(entries@, key@),
                    i <= entries@.len(),
                    member(entries@, key@) == member(
                        entries@.subrange(i as int, entries@.len() as int),
                        key@,
                    ),
                decreases entries@.len() - i,
            {
                let ghost rest = entries@.subrange(i as int, entries@.len() as int);
                assert(rest[0] == entries@[i as int]);
                assert(rest.drop_first() =~= entries@.subrange(i + 1, entries@.len() as int));
                if entries[i].0 == k {
                    assert(member(rest, key@) == rest[0].1);
                    return Some(&entries[i].1);
                }
                i = i + 1;
            }
            None
        },
        _ => None,
    }
}

proof fn lemma_at_path_null(path: Seq<Seq<char>>)
    ensures
        at_path(JsonValue::Null, path) == JsonValue::Null,
    decreases path.len(),
{
    if path.len() > 0 {
        lemma_at_path_null(path.drop_first());
    }
}

/// The value reached from `v` by following the member names of `path`, or
/// nothing where that is null.
pub fn json_at<'a>(v: &'a JsonValue, path: &Vec<String>) -> (r: Option<&'a JsonValue>)
    ensures
        match r {
            Some(x) => *x == at_path(*v, views(path@)),
            None => at_path(*v, views(path@)) == JsonValue::Null,
        },
{
    let mut cur: &JsonValue = v;
    let mut i: usize = 0;
    assert(views(path@).subrange(0, path@.len() as int) =~= views(path@));
    while i < path.len()
        invariant
            i <= path@.len(),
            at_path(*v, views(path@)) == at_path(
                *cur,
                views(path@).subrange(i as int, path@.len() as int),
            ),
        decreases path@.len() - i,
    {
        let ghost rest = views(path@).subrange(i as int, path@.len() as int);
        assert(rest[0] == path@[i as int]@);
        assert(rest.drop_first() =~= views(path@).subrange(i + 1, path@.len() as int));
        match json_field(cur, path[i].as_str()) {
            Some(x) => {
                cur = x;
            },
            None => {
                proof {
                    lemma_at_path_null(rest.drop_first());
                }
                return None;
            },
        }
        i = i + 1;
    }
    assert(views(path@).subrange(i as int, path@.len() as int) =~= Seq::<Seq<char>>::empty());
    Some(cur)
}

/// The strings held by the items of an array, in order: each item itself, or
/// its member `key` when one is given.
pub fn json_item_strings(items: &Vec<JsonValue>, key: &Option<String>) -> (r: Vec<String>)
    ensures
        views(r@) == item_strings(items@, key_view(*key)),
{
    let mut out: Vec<String> = Vec::new();
    let mut i: usize = 0;
    assert(items@.subrange(0, 0) =~= Seq::<JsonValue>::empty());
    while i < items.len()
        invariant
            i <= items@.len(),
            views(out@) == item_strings(items@.subrange(0, i as int), key_view(*key)),
        decreases items@.len() - i,
    {
        let ghost pre = items@.subrange(0, i + 1);
        assert(pre.drop_last() =~= items@.subrange(0, i as int));
        assert(pre.last() == items@[i as int]);
        let target: Option<&JsonValue> = match key {
            Some(k) => json_field(&items[i], k.as_str()),
            None => Some(&items[i]),
        };
        let ghost before = views(out@);
        match target {
            Some(JsonValue::Str(s)) => {
                out.push(s.clone());
                assert(views(out@) =~= before.push(s@));
            },
            _ => {
                assert(item_string(items@[i as int], key_view(*key)) is None);
                assert(before + Seq::<Seq<char>>::empty() =~= before);
            },
        }
        i = i + 1;
    }
    assert(items@.subrange(0, items@.len() as int) =~= items@);
    out
}

/// The view of an optional member name.
pub open spec fn key_view(key: Option<String>) -> Option<Seq<char>> {
    match key {
        Some(k) => Some(k@),
        None => None,
    }
}

/// The elements of `names` that are subdomains of `domain`, in order.
pub fn keep_subdomains(names: &Vec<String>, domain: &str) -> (r: Vec<String>)
    ensures
        views(r@) == only_subdomains(views(names@), domain@),
{
    let dc = chars_of(domain);
    let mut out: Vec<String> = Vec::new();
    let mut i: usize = 0;
    assert(views(names@).subrange(0, 0) =~= Seq::<Seq<char>>::empty());
    while i < names.len()
        invariant
            dc@ == domain@,
            i <= names@.len(),
            views(out@) == only_subdomains(views(names@).subrange(0, i as int), domain@),
        decreases names@.len() - i,
    {
        let ghost pre = views(names@).subrange(0, i + 1);
        assert(pre.drop_last() =~= views(names@).subrange(0, i as int));
        assert(pre.last() == names@[i as int]@);
        let c = chars_of(names[i].as_str());
        assert(c@.subrange(0, c@.len() as int) =~= c@);
        let ghost before = views(out@);
        if check_subdomain(&c, 0, c.len(), &dc) {
            out.push(names[i].clone());
            assert(views(out@) =~= before + seq![pre.last()]);
        } else {
            assert(before + Seq::<Seq<char>>::empty() =~= before);
        }
        i = i + 1;
    }
    assert(views(names@).subrange(0, names@.len() as int) =~= views(names@));
    out
}

/// Finds subdomain names in a JSON document: the strings listed by the array
/// found at a path of member names, each item a string or an object whose
/// named member is one; only valid subdomains of the target are kept.
#[derive(Debug)]
pub struct JSONExtractor {
    path: Vec<String>,
    item_key: Option<String>,
}

impl JSONExtractor {
    pub fn new(path: Vec<String>, item_key: Option<String>) -> (r: Self)
        ensures
            r.path() == views(path@),
            r.item_key() == key_view(item_key),
    {
        JSONExtractor { path, item_key }
    }

    pub closed spec fn path(&self) -> Seq<Seq<char>> {
        views(self.path@)
    }

    pub closed spec fn item_key(&self) -> Option<Seq<char>> {
        key_view(self.item_key)
    }

    /// The strings that the document lists where this extractor looks, in
    /// order, before any check against the target domain.
    pub fn listed(&self, v: &JsonValue) -> (r: Vec<String>)
        ensures
            views(r@) == listed_strings(*v, self.path(), self.item_key()),
    {
        match json_at(v, &self.path) {
            Some(JsonValue::Array(items)) => json_item_strings(items, &self.item_key),
            _ => Vec::new(),
        }
    }

    /// The subdomains of `domain` that the document lists, once each, in
    /// order of first appearance.
    pub fn extract_value(&self, v: &JsonValue, domain: &str) -> (r: Vec<String>)
        ensures
            views(r@) == json_names(*v, self.path(), self.item_key(), domain@),
    {
        let listed = self.listed(v);
        let kept = keep_subdomains(&listed, domain);
        dedup_names(&kept)
    }

    /// The subdomains of `domain` in fetched content: from the document
    /// itself, or from the text once parsed as JSON; nothing from text that
    /// is not JSON, or from empty content.
    pub fn extract(&self, content: &Content, domain: &str) -> (r: Vec<String>)
        ensures
            views(r@) == content_json_names(*content, self.path(), self.item_key(), domain@),
    {
        match content {
            Content::Json(v) => self.extract_value(v, domain),
            Content::Text(t) => match parse_json(t.as_str()) {
                Some(v) => self.extract_value(&v, domain),
                None => Vec::new(),
            },
            Content::Empty => Vec::new(),
        }
    }
}

/// The subdomains of `d` listed in `v` at `path`, once each, in order of
/// first appearance.
pub open spec fn json_names(
    v: JsonValue,
    path: Seq<Seq<char>>,
    key: Option<Seq<char>>,
    d: Seq<char>,
) -> Seq<Seq<char>> {
    dedup(only_subdomains(listed_strings(v, path, key), d))
}

/// What a JSON extractor finds in fetched content.
pub open spec fn content_json_names(
    c: Content,
    path: Seq<Seq<char>>,
    key: Option<Seq<char>>,
    d: Seq<char>,
) -> Seq<Seq<char>> {
    match c {
        Content::Json(v) => json_names(v, path, key, d),
        Content::Text(t) => match parsed_json(t@) {
            Some(v) => json_names(v, path, key, d),
            None => seq![],
        },
        Content::Empty => seq![],
    }
}

/// `text` with every occurrence of `pat` removed.
pub fn remove_pattern(text: &str, pat: &str) -> (r: String)
    ensures
        r@ == remove_all(text@, pat@),
{
    let c = chars_of(text);
    let p = chars_of(pat);
    let n: usize = c.len();
    let mut out = String::new();
    if p.len() == 0 {
        out.append(text);
        return out;
    }
    let mut seg: usize = 0;
    let mut i: usize = 0;
    assert(c@.subrange(0, n as int) =~= c@);
    assert(c@.subrange(0, 0) =~= Seq::<char>::empty());
    assert(out@ + Seq::<char>::empty() + remove_all(c@, p@) =~= remove_all(c@, p@));
    while i < n
        invariant
            c@ == text@,
            p@ == pat@,
            n == c@.len(),
            p@.len() > 0,
            seg <= i <= n,
            out@ + c@.subrange(seg as int, i as int) + remove_all(c@.subrange(i as int, n as int), p@)
                == remove_all(text@, pat@),
        decreases n - i,
    {
        let ghost rest = c@.subrange(i as int, n as int);
        let ghost kept = c@.subrange(seg as int, i as int);
        if p.len() <= n - i && range_matches(&c, i, &p) {
            assert(rest.subrange(0, p@.len() as int) =~= c@.subrange(i as int, i + p@.len()));
            assert(rest.subrange(p@.len() as int, rest.len() as int) =~= c@.subrange(
                i + p@.len(),
                n as int,
            ));
            let piece = text.substring_char(seg, i);
            out.append(piece);
            i = i + p.len();
            seg = i;
            assert(c@.subrange(seg as int, i as int) =~= Seq::<char>::empty());
            assert(out@ + c@.subrange(seg as int, i as int) =~= out@);
        } else {
            assert(rest.drop_first() =~= c@.subrange(i + 1, n as int));
            if p.len() <= n - i {
                assert(rest.subrange(0, p@.len() as int) =~= c@.subrange(i as int, i + p@.len()));
            }
            assert(remove_all(rest, p@) == seq![rest[0]] + remove_all(rest.drop_first(), p@));
            assert(c@.subrange(seg as int, i + 1) =~= kept.push(c@[i as int]));
            assert(kept.push(c@[i as int]) + remove_all(rest.drop_first(), p@) =~= kept + (seq![
                rest[0],
            ] + remove_all(rest.drop_first(), p@)));
            i = i + 1;
        }
    }
    let piece = text.substring_char(seg, n);
    out.append(piece);
    assert(c@.subrange(n as int, n as int) =~= Seq::<char>::empty());
    assert(out@ =~= out@ + remove_all(Seq::<char>::empty(), p@));
    out
}

/// Whether `p` occurs in `c` at position `i`.
fn range_matches(c: &Vec<char>, i: usize, p: &Vec<char>) -> (r: bool)
    requires
        i + p@.len() <= c@.len(),
    ensures
        r == (c@.subrange(i as int, i + p@.len()) == p@),
{
    let mut k: usize = 0;
    let cl: usize = c.len();
    while k < p.len()
        invariant
            cl == c@.len(),
            i + p@.len() <= c@.len(),
            k <= p@.len(),
            forall|j: int| 0 <= j < k ==> c@[i + j] == p@[j],
        decreases p@.len() - k,
    {
        if c[i + k] != p[k] {
            assert(c@.subrange(i as int, i + p@.len())[k as int] != p@[k as int]);
            return false;
        }
        k = k + 1;
    }
    assert(c@.subrange(i as int, i + p@.len()) =~= p@);
    true
}

/// Finds subdomain names in free text by their shape: each maximal run of
/// hostname characters, trimmed of edge dots and hyphens, that equals the
/// target domain or is a labelled child of it.
#[derive(Debug)]
pub struct RegexExtractor {}

impl Default for RegexExtractor {
    fn default() -> (r: Self)
        ensures
            r == (RegexExtractor {  }),
    {
        RegexExtractor {  }
    }
}

impl RegexExtractor {
    /// The first subdomain of `domain` named in `content`, if any.
    pub fn extract_one(&self, content: &str, domain: &str) -> (r: Option<String>)
        ensures
            r is Some <==> found_in(content@, domain@).len() > 0,
            r is Some ==> r->0@ == found_in(content@, domain@)[0],
    {
        let mut all = subdomains_in(content, domain);
        if all.len() > 0 {
            assert(views(all@)[0] == all@[0]@);
            Some(all.swap_remove(0))
        } else {
            None
        }
    }

    /// Every subdomain of `domain` named in `content`, once each, in order of
    /// first appearance.
    pub fn extract(&self, content: &str, domain: &str) -> (r: Vec<String>)
        ensures
            views(r@) == dedup(found_in(content@, domain@)),
    {
        let all = subdomains_in(content, domain);
        dedup_names(&all)
    }
}

/// Finds subdomain names in the markup of the elements that a CSS selector
/// matches, after removing configured substrings from each.
#[derive(Debug)]
pub struct HTMLExtractor {
    selector: String,
    removes: Vec<String>,
    regextractor: RegexExtractor,
}

impl HTMLExtractor {
    pub fn new(selector: String, removes: Vec<String>) -> (r: Self)
        ensures
            r.selector() == selector@,
            r.removes() == views(removes@),
    {
        HTMLExtractor { selector, removes, regextractor: RegexExtractor {  } }
    }

    pub closed spec fn selector(&self) -> Seq<char> {
        self.selector@
    }

    pub closed spec fn removes(&self) -> Seq<Seq<char>> {
        views(self.removes@)
    }

    /// Whether the selector is a valid CSS selector group.
    pub fn selector_valid(&self) -> (r: bool)
        ensures
            r == css_selector_valid(self.selector()),
    {
        selector_parses(self.selector.as_str())
    }

    /// `text` with each configured substring removed in turn.
    fn strip(&self, text: &String) -> (r: String)
        ensures
            r@ == strip_all(text@, self.removes()),
    {
        let mut t = text.clone();
        let mut i: usize = 0;
        assert(self.removes().subrange(0, self.removes().len() as int) =~= self.removes());
        while i < self.removes.len()
            invariant
                i <= self.removes@.len(),
                strip_all(t@, self.removes().subrange(i as int, self.removes().len() as int))
                    == strip_all(text@, self.removes()),
            decreases self.removes@.len() - i,
        {
            let ghost rest = self.removes().subrange(i as int, self.removes().len() as int);
            assert(rest[0] == self.removes@[i as int]@);
            assert(rest.drop_first() =~= self.removes().subrange(
                i + 1,
                self.removes().len() as int,
            ));
            t = remove_pattern(t.as_str(), self.removes[i].as_str());
            i = i + 1;
        }
        assert(self.removes().subrange(i as int, self.removes().len() as int) =~= Seq::<
            Seq<char>,
        >::empty());
        t
    }

    /// The subdomains of `domain` named by the given element markups: from
    /// each, once the configured substrings are removed, its first subdomain
    /// name; every name once, in order of first appearance.
    pub fn extract_from_fragments(&self, fragments: &Vec<String>, domain: &str) -> (r: Vec<
        String,
    >)
        ensures
            views(r@) == dedup(fragment_names(views(fragments@), self.removes(), domain@)),
    {
        let mut all: Vec<String> = Vec::new();
        let mut i: usize = 0;
        assert(views(fragments@).subrange(0, 0) =~= Seq::<Seq<char>>::empty());
        while i < fragments.len()
            invariant
                i <= fragments@.len(),
                views(all@) == fragment_names(
                    views(fragments@).subrange(0, i as int),
                    self.removes(),
                    domain@,
                ),
            decreases fragments@.len() - i,
        {
            let ghost pre = views(fragments@).subrange(0, i + 1);
            assert(pre.drop_last() =~= views(fragments@).subrange(0, i as int));
            assert(pre.last() == fragments@[i as int]@);
            let text = self.strip(&fragments[i]);
            let one = self.regextractor.extract_one(text.as_str(), domain);
            let ghost before = views(all@);
            match one {
                Some(x) => {
                    all.push(x);
                    assert(views(all@) =~= before + first_of(
                        found_in(strip_all(pre.last(), self.removes()), domain@),
                    ));
                },
                None => {
                    assert(before =~= before + first_of(
                        found_in(strip_all(pre.last(), self.removes()), domain@),
                    ));
                },
            }
            i = i + 1;
        }
        assert(views(fragments@).subrange(0, fragments@.len() as int) =~= views(fragments@));
        dedup_names(&all)
    }

    /// The subdomains of `domain` in the HTML document `content`, taken from
    /// the elements that the selector matches. A selector that is not a
    /// valid CSS selector group is a configuration error: callers test
    /// `selector_valid` before any extraction.
    pub fn extract(&self, content: &str, domain: &str) -> (r: Vec<String>)
        requires
            css_selector_valid(self.selector()),
        ensures
            views(r@) == dedup(
                fragment_names(
                    selected_inner_html(content@, self.selector()),
                    self.removes(),
                    domain@,
                ),
            ),
    {
        let fragments = select_inner_html(content, self.selector.as_str());
        self.extract_from_fragments(&fragments, domain)
    }
}

/// Extraction keeps no state: the names that an extractor returns are fixed
/// by the content and the domain, so any two extractions of the same content
/// for the same domain, by the same extractor, return the same names in the
/// same order.
pub proof fn lemma_extraction_repeatable(
    html: HTMLExtractor,
    json: JSONExtractor,
    text: Seq<char>,
    content: Content,
    d: Seq<char>,
    first: Seq<Seq<char>>,
    second: Seq<Seq<char>>,
)
    requires
        ({
            ||| first == dedup(found_in(text, d)) && second == dedup(found_in(text, d))
            ||| first == dedup(fragment_names(selected_inner_html(text, html.selector()), html.removes(), d))
                && second == dedup(
                fragment_names(selected_inner_html(text, html.selector()), html.removes(), d),
            )
            ||| first == content_json_names(content, json.path(), json.item_key(), d) && second
                == content_json_names(content, json.path(), json.item_key(), d)
        }),
    ensures
        first == second,
        first.no_duplicates(),
{
    if first == dedup(found_in(text, d)) {
        crate::names::lemma_dedup(found_in(text, d));
    } else if first == dedup(fragment_names(selected_inner_html(text, html.selector()), html.removes(), d)) {
        crate::names::lemma_dedup(fragment_names(selected_inner_html(text, html.selector()), html.removes(), d));
    } else {
        match content {
            Content::Json(v) => {
                crate::names::lemma_dedup(only_subdomains(listed_strings(v, json.path(), json.item_key()), d));
            },
            Content::Text(t) => {
                match parsed_json(t@) {
                    Some(v) => {
                        crate::names::lemma_dedup(only_subdomains(listed_strings(v, json.path(), json.item_key()), d));
                    },
                    None => {},
                }
            },
            Content::Empty => {},
        }
    }
}

/// Every name that a text scan yields is a subdomain of `d`.
proof fn lemma_scan_subdomains(c: Seq<char>, cur: Seq<char>, d: Seq<char>)
    ensures
        forall|i: int|
            0 <= i < scan(c, cur, d).len() ==> is_subdomain_of(#[trigger] scan(c, cur, d)[i], d),
    decreases c.len(),
{
    let h = hit(cur, d);
    assert forall|i: int| 0 <= i < h.len() implies is_subdomain_of(#[trigger] h[i], d) by {
        assert(h[i] == trimmed(cur));
    }
    if c.len() == 0 {
        assert(scan(c, cur, d) == h);
    } else {
        if is_host_char(c[0]) {
            lemma_scan_subdomains(c.drop_first(), cur.push(c[0]), d);
            assert(scan(c, cur, d) == scan(c.drop_first(), cur.push(c[0]), d));
        } else {
            lemma_scan_subdomains(c.drop_first(), seq![], d);
            let rest = scan(c.drop_first(), seq![], d);
            assert(scan(c, cur, d) == h + rest);
            assert forall|i: int| 0 <= i < (h + rest).len() implies is_subdomain_of(
                #[trigger] (h + rest)[i],
                d,
            ) by {
                if i >= h.len() {
                    assert((h + rest)[i] == rest[i - h.len()]);
                } else {
                    assert((h + rest)[i] == h[i]);
                }
            }
        }
    }
}

/// Removing repetitions adds no element.
proof fn lemma_dedup_within(s: Seq<Seq<char>>)
    ensures
        forall|i: int| 0 <= i < dedup(s).len() ==> s.contains(#[trigger] dedup(s)[i]),
    decreases s.len(),
{
    if s.len() > 0 {
        lemma_dedup_within(s.drop_last());
        let p = dedup(s.drop_last());
        assert forall|i: int| 0 <= i < dedup(s).len() implies s.contains(#[trigger] dedup(s)[i]) by {
            if i < p.len() {
                let x = p[i];
                assert(s.drop_last().contains(x));
                let k = choose|k: int| 0 <= k < s.drop_last().len() && s.drop_last()[k] == x;
                assert(s[k] == x);
            } else {
                assert(s[s.len() - 1] == s.last());
            }
        }
    }
}

/// Every name of a fragment scan is a subdomain of `d`.
proof fn lemma_fragment_subdomains(frags: Seq<Seq<char>>, ps: Seq<Seq<char>>, d: Seq<char>)
    ensures
        forall|i: int|
            0 <= i < fragment_names(frags, ps, d).len() ==> is_subdomain_of(
                #[trigger] fragment_names(frags, ps, d)[i],
                d,
            ),
    decreases frags.len(),
{
    if frags.len() > 0 {
        lemma_fragment_subdomains(frags.drop_last(), ps, d);
        let f = found_in(strip_all(frags.last(), ps), d);
        lemma_scan_subdomains(strip_all(frags.last(), ps), seq![], d);
        let a = fragment_names(frags.drop_last(), ps, d);
        let b = first_of(f);
        assert forall|i: int| 0 <= i < (a + b).len() implies is_subdomain_of(#[trigger] (a + b)[i], d) by {
            if i >= a.len() {
                assert((a + b)[i] == f[0]);
            }
        }
    }
}

/// Every element kept by the subdomain filter is a subdomain of `d`.
proof fn lemma_only_subdomains(s: Seq<Seq<char>>, d: Seq<char>)
    ensures
        forall|i: int|
            0 <= i < only_subdomains(s, d).len() ==> is_subdomain_of(
                #[trigger] only_subdomains(s, d)[i],
                d,
            ),
    decreases s.len(),
{
    if s.len() > 0 {
        lemma_only_subdomains(s.drop_last(), d);
        let a = only_subdomains(s.drop_last(), d);
        let b: Seq<Seq<char>> = if is_subdomain_of(s.last(), d) {
            seq![s.last()]
        } else {
            seq![]
        };
        assert forall|i: int| 0 <= i < (a + b).len() implies is_subdomain_of(#[trigger] (a + b)[i], d) by {
            if i >= a.len() {
                assert((a + b)[i] == b[i - a.len()]);
            }
        }
    }
}

/// Extraction only ever yields valid subdomains of the target domain: each
/// name that the text, HTML and JSON extractors return names `d` itself or a
/// labelled child of it.
pub proof fn lemma_extracted_are_subdomains(
    html: HTMLExtractor,
    json: JSONExtractor,
    text: Seq<char>,
    content: Content,
    d: Seq<char>,
    name: Seq<char>,
)
    requires
        ({
            ||| dedup(found_in(text, d)).contains(name)
            ||| dedup(fragment_names(selected_inner_html(text, html.selector()), html.removes(), d)).contains(name)
            ||| content_json_names(content, json.path(), json.item_key(), d).contains(name)
        }),
    ensures
        is_subdomain_of(name, d),
{
    let from_text = found_in(text, d);
    let from_html = fragment_names(selected_inner_html(text, html.selector()), html.removes(), d);
    if dedup(from_text).contains(name) {
        lemma_dedup_within(from_text);
        lemma_scan_subdomains(text, seq![], d);
        let i = choose|i: int| 0 <= i < dedup(from_text).len() && dedup(from_text)[i] == name;
        assert(from_text.contains(dedup(from_text)[i]));
    } else if dedup(from_html).contains(name) {
        lemma_dedup_within(from_html);
        lemma_fragment_subdomains(selected_inner_html(text, html.selector()), html.removes(), d);
        let i = choose|i: int| 0 <= i < dedup(from_html).len() && dedup(from_html)[i] == name;
        assert(from_html.contains(dedup(from_html)[i]));
    } else {
        let v = match content {
            Content::Json(v) => v,
            Content::Text(t) => match parsed_json(t@) {
                Some(v) => v,
                None => JsonValue::Null,
            },
            Content::Empty => JsonValue::Null,
        };
        let kept = only_subdomains(listed_strings(v, json.path(), json.item_key()), d);
        assert(dedup(kept).contains(name));
        lemma_dedup_within(kept);
        lemma_only_subdomains(listed_strings(v, json.path(), json.item_key()), d);
        let i = choose|i: int| 0 <= i < dedup(kept).len() && dedup(kept)[i] == name;
        assert(kept.contains(dedup(kept)[i]));
    }
}

} // verus!
