//! The bookkeeping of one scan: which modules run, which discovered names
//! still wait for resolution, and the result gathered so far. Workers that
//! fetch and resolve report here; the pool decides what is recorded.
use crate::modules::{merge, SubscanModuleResult};
use crate::names::{contains_name, views};
use crate::results::{
    item_view, with_status, IpAddress, ItemSet, ModuleStat, ModuleStats, ScanResultItem,
    item_views, lemma_sorted_items_unique, lemma_sorted_stats_unique, stat_views,
};
use crate::status::{SkipReason, SubscanModuleStatus};
use vstd::prelude::*;

verus! {

/// Names of modules to run, and names of modules never to run.
#[derive(Debug)]
pub struct ModuleNameFilter {
    pub valids: Vec<String>,
    pub invalids: Vec<String>,
}

/// Which submitted modules a scan runs.
#[derive(Debug)]
pub enum CacheFilter {
    NoFilter,
    FilterByName(ModuleNameFilter),
}

impl Default for CacheFilter {
    fn default() -> (r: Self)
        ensures
            r is NoFilter,
    {
        CacheFilter::NoFilter
    }
}

impl CacheFilter {
    /// The module `name` runs: it is not among the invalid names, and the
    /// valid names are none or include it. An invalid name always wins.
    pub open spec fn allows(&self, name: Seq<char>) -> bool {
        match self {
            CacheFilter::NoFilter => true,
            CacheFilter::FilterByName(f) => !views(f.invalids@).contains(name) && (f.valids@.len()
                == 0 || views(f.valids@).contains(name)),
        }
    }

    /// Whether the module `name` is kept from running.
    pub fn is_filtered(&self, name: &str) -> (r: bool)
        ensures
            r == !self.allows(name@),
    {
        match self {
            CacheFilter::NoFilter => false,
            CacheFilter::FilterByName(f) => {
                let k = String::from_str(name);
                if contains_name(&f.invalids, &k) {
                    return true;
                }
                f.valids.len() > 0 && !contains_name(&f.valids, &k)
            },
        }
    }
}

/// The outcome of a scan: the items found, sorted by name and address, and
/// one status per submitted module, sorted by module name.
#[derive(Debug)]
pub struct ScanResult {
    pub items: Vec<ScanResultItem>,
    pub statistics: Vec<ModuleStat>,
}

/// The position of `name` in `v`, if it is there.
fn position(v: &Vec<String>, name: &str) -> (r: Option<usize>)
    ensures
        match r {
            Some(i) => i < v@.len() && v@[i as int]@ == name@,
            None => !views(v@).contains(name@),
        },
{
    let k = String::from_str(name);
    let mut i: usize = 0;
    while i < v.len()
        invariant
            k@ == name@,
            i <= v@.len(),
            forall|j: int| 0 <= j < i ==> v@[j]@ != name@,
        decreases v@.len() - i,
    {
        if v[i] == k {
            return Some(i);
        }
        i = i + 1;
    }
    assert forall|j: int| 0 <= j < views(v@).len() implies views(v@)[j] != name@ by {
        assert(views(v@)[j] == v@[j]@);
    }
    None
}

/// The names of `news` that merging them into `seen` adds, in order: each
/// one that neither `seen` nor an earlier name of `news` holds.
pub open spec fn fresh(seen: Seq<Seq<char>>, news: Seq<Seq<char>>) -> Seq<Seq<char>>
    decreases news.len(),
{
    if news.len() == 0 {
        seq![]
    } else {
        let f = fresh(seen, news.drop_last());
        if merge(seen, news.drop_last()).contains(news.last()) {
            f
        } else {
            f.push(news.last())
        }
    }
}

/// The state of one scan.
#[derive(Debug)]
pub struct SubscanModulePool {
    domain: String,
    filter: CacheFilter,
    running: Vec<String>,
    queue: Vec<String>,
    seen: Vec<String>,
    resolving: Vec<String>,
    items: ItemSet,
    stats: ModuleStats,
}

impl SubscanModulePool {
    /// Modules started and not yet finished.
    pub closed spec fn running(&self) -> Seq<Seq<char>> {
        views(self.running@)
    }

    /// Names waiting for a resolver.
    pub closed spec fn queued(&self) -> Seq<Seq<char>> {
        views(self.queue@)
    }

    /// Every name a module has handed over so far, once each.
    pub closed spec fn seen(&self) -> Seq<Seq<char>> {
        views(self.seen@)
    }

    /// Names handed to a resolver and not yet back.
    pub closed spec fn resolving(&self) -> Seq<Seq<char>> {
        views(self.resolving@)
    }

    /// The items found, in order.
    pub closed spec fn item_seq(&self) -> Seq<(Seq<char>, Option<IpAddress>)> {
        self.items.view_seq()
    }

    /// The module statuses, in order of module name.
    pub closed spec fn stat_seq(&self) -> Seq<(Seq<char>, SubscanModuleStatus)> {
        self.stats.view_seq()
    }

    pub closed spec fn domain(&self) -> Seq<char> {
        self.domain@
    }

    pub closed spec fn admits(&self, name: Seq<char>) -> bool {
        self.filter.allows(name)
    }

    pub closed spec fn wf(&self) -> bool {
        self.items.wf() && self.stats.wf()
    }

    /// A pool for a scan of `domain` that runs the modules `filter` allows.
    pub fn new(domain: String, filter: CacheFilter) -> (r: Self)
        ensures
            r.wf(),
            r.domain() == domain@,
            forall|n: Seq<char>| r.admits(n) == filter.allows(n),
            r.running().len() == 0,
            r.queued().len() == 0,
            r.seen().len() == 0,
            r.resolving().len() == 0,
            r.item_seq().len() == 0,
            r.stat_seq().len() == 0,
    {
        let r = SubscanModulePool {
            domain,
            filter,
            running: Vec::new(),
            queue: Vec::new(),
            seen: Vec::new(),
            resolving: Vec::new(),
            items: ItemSet::new(),
            stats: ModuleStats::new(),
        };
        assert(views(r.running@) =~= Seq::<Seq<char>>::empty());
        assert(views(r.queue@) =~= Seq::<Seq<char>>::empty());
        assert(views(r.seen@) =~= Seq::<Seq<char>>::empty());
        assert(views(r.resolving@) =~= Seq::<Seq<char>>::empty());
        r
    }

    /// The target domain of the scan.
    pub fn domain_name(&self) -> (r: &String)
        ensures
            r@ == self.domain(),
    {
        &self.domain
    }

    /// Submits the module `name`: a module the filter allows is recorded as
    /// started and its run is owed; any other is recorded as skipped by the
    /// user and must not run. Returns whether it runs.
    pub fn submit(&mut self, name: &str) -> (r: bool)
        requires
            old(self).wf(),
        ensures
            final(self).wf(),
            r == old(self).admits(name@),
            final(self).stat_seq().to_set() == with_status(
                old(self).stat_seq().to_set(),
                name@,
                if r {
                    SubscanModuleStatus::Started
                } else {
                    SubscanModuleStatus::Skipped(SkipReason::SkippedByUser)
                },
            ),
            final(self).running() == if r {
                old(self).running().push(name@)
            } else {
                old(self).running()
            },
            final(self).queued() == old(self).queued(),
            final(self).seen() == old(self).seen(),
            final(self).resolving() == old(self).resolving(),
            final(self).item_seq() == old(self).item_seq(),
            final(self).domain() == old(self).domain(),
            forall|n: Seq<char>| final(self).admits(n) == old(self).admits(n),
    {
        if self.filter.is_filtered(name) {
            self.stats.set(
                String::from_str(name),
                SubscanModuleStatus::Skipped(SkipReason::SkippedByUser),
            );
            false
        } else {
            self.stats.set(String::from_str(name), SubscanModuleStatus::Started);
            let ghost before = views(self.running@);
            self.running.push(String::from_str(name));
            assert(views(self.running@) =~= before.push(name@));
            true
        }
    }

    /// Queues each of `names` that no module handed over before.
    fn queue_names(&mut self, names: &Vec<String>)
        requires
            old(self).wf(),
        ensures
            final(self).wf(),
            final(self).seen() == merge(old(self).seen(), views(names@)),
            final(self).queued() == old(self).queued() + fresh(old(self).seen(), views(names@)),
            final(self).running() == old(self).running(),
            final(self).resolving() == old(self).resolving(),
            final(self).item_seq() == old(self).item_seq(),
            final(self).stat_seq() == old(self).stat_seq(),
            final(self).domain() == old(self).domain(),
            final(self).filter == old(self).filter,
    {
        let mut k: usize = 0;
        let ghost start = views(self.seen@);
        let ghost q0 = views(self.queue@);
        let ghost mid = *self;
        assert(views(names@).subrange(0, 0) =~= Seq::<Seq<char>>::empty());
        assert(q0 + Seq::<Seq<char>>::empty() =~= q0);
        while k < names.len()
            invariant
                self.wf(),
                self.running() == mid.running(),
                self.resolving() == mid.resolving(),
                self.item_seq() == mid.item_seq(),
                self.stat_seq() == mid.stat_seq(),
                self.domain() == mid.domain(),
                self.filter == mid.filter,
                k <= names@.len(),
                views(self.seen@) == merge(start, views(names@).subrange(0, k as int)),
                views(self.queue@) == q0 + fresh(start, views(names@).subrange(0, k as int)),
            decreases names@.len() - k,
        {
            let ghost pre = views(names@).subrange(0, k + 1);
            assert(pre.drop_last() =~= views(names@).subrange(0, k as int));
            assert(pre.last() == names@[k as int]@);
            if !contains_name(&self.seen, &names[k]) {
                let ghost before = views(self.seen@);
                self.seen.push(names[k].clone());
                assert(views(self.seen@) =~= before.push(names@[k as int]@));
                let ghost qb = views(self.queue@);
                self.queue.push(names[k].clone());
                assert(views(self.queue@) =~= qb.push(names@[k as int]@));
                assert(q0 + fresh(start, pre.drop_last()).push(pre.last()) =~= (q0 + fresh(
                    start,
                    pre.drop_last(),
                )).push(pre.last()));
            }
            k = k + 1;
        }
        assert(views(names@).subrange(0, names@.len() as int) =~= views(names@));
    }

    /// Takes in names that the running module `name` has found so far, so
    /// that resolution starts before the module ends: each one no module
    /// handed over before is queued. Names from a module that is not running
    /// change nothing. Returns whether they were taken.
    pub fn discovered(&mut self, name: &str, names: &Vec<String>) -> (r: bool)
        requires
            old(self).wf(),
        ensures
            final(self).wf(),
            r == old(self).running().contains(name@),
            r ==> final(self).seen() == merge(old(self).seen(), views(names@)),
            r ==> final(self).queued() == old(self).queued() + fresh(old(self).seen(), views(names@)),
            !r ==> final(self).seen() == old(self).seen() && final(self).queued() == old(
                self,
            ).queued(),
            final(self).running() == old(self).running(),
            final(self).resolving() == old(self).resolving(),
            final(self).item_seq() == old(self).item_seq(),
            final(self).stat_seq() == old(self).stat_seq(),
            final(self).domain() == old(self).domain(),
            forall|n: Seq<char>| final(self).admits(n) == old(self).admits(n),
    {
        match position(&self.running, name) {
            Some(i) => {
                assert(views(self.running@)[i as int] == name@);
                self.queue_names(names);
                true
            },
            None => false,
        }
    }

    /// Takes in the final record of the running module `name`: records its
    /// status and queues each name it found that no module handed over
    /// before. A record for a module that is not running changes nothing.
    /// Returns whether the record was taken.
    pub fn finish(&mut self, name: &str, result: SubscanModuleResult) -> (r: bool)
        requires
            old(self).wf(),
        ensures
            final(self).wf(),
            r == old(self).running().contains(name@),
            !r ==> final(self).stat_seq() == old(self).stat_seq() && final(self).seen()
                == old(self).seen() && final(self).queued() == old(self).queued()
                && final(self).running() == old(self).running(),
            r ==> final(self).stat_seq().to_set() == with_status(
                old(self).stat_seq().to_set(),
                name@,
                result.status,
            ),
            r ==> final(self).seen() == merge(old(self).seen(), views(result.subdomains@)),
            r ==> final(self).queued() == old(self).queued() + fresh(
                old(self).seen(),
                views(result.subdomains@),
            ),
            r ==> final(self).running().len() + 1 == old(self).running().len(),
            final(self).resolving() == old(self).resolving(),
            final(self).item_seq() == old(self).item_seq(),
            final(self).domain() == old(self).domain(),
            forall|n: Seq<char>| final(self).admits(n) == old(self).admits(n),
    {
        let i = match position(&self.running, name) {
            Some(i) => i,
            None => {
                return false;
            },
        };
        proof {
            assert(views(self.running@)[i as int] == name@);
        }
        self.running.remove(i);
        self.stats.set(String::from_str(name), result.status);
        self.queue_names(&result.subdomains);
        true
    }

    /// Hands the next queued name to a resolver, if one is waiting.
    pub fn next_name(&mut self) -> (r: Option<String>)
        requires
            old(self).wf(),
        ensures
            final(self).wf(),
            old(self).queued().len() == 0 <==> r is None,
            r is Some ==> old(self).queued().contains(r->0@) && final(self).queued()
                == old(self).queued().drop_last() && final(self).resolving() == old(
                self,
            ).resolving().push(r->0@),
            r is None ==> final(self).resolving() == old(self).resolving(),
            final(self).running() == old(self).running(),
            final(self).seen() == old(self).seen(),
            final(self).item_seq() == old(self).item_seq(),
            final(self).stat_seq() == old(self).stat_seq(),
            final(self).domain() == old(self).domain(),
            forall|n: Seq<char>| final(self).admits(n) == old(self).admits(n),
    {
        let ghost q = views(self.queue@);
        match self.queue.pop() {
            Some(n) => {
                assert(views(self.queue@) =~= q.drop_last());
                assert(q[q.len() - 1] == n@);
                let ghost before = views(self.resolving@);
                self.resolving.push(n.clone());
                assert(views(self.resolving@) =~= before.push(n@));
                Some(n)
            },
            None => None,
        }
    }

    /// Takes in what a resolver found for `name`: the address it resolved
    /// to, or none when resolution failed. The pair joins the items.
    pub fn resolved(&mut self, name: String, ip: Option<IpAddress>)
        requires
            old(self).wf(),
        ensures
            final(self).wf(),
            final(self).item_seq().to_set() == old(self).item_seq().to_set().insert((name@, ip)),
            old(self).resolving().contains(name@) ==> exists|i: int|
                0 <= i < old(self).resolving().len() && old(self).resolving()[i] == name@
                    && final(self).resolving() == old(self).resolving().remove(i),
            !old(self).resolving().contains(name@) ==> final(self).resolving() == old(
                self,
            ).resolving(),
            final(self).running() == old(self).running(),
            final(self).queued() == old(self).queued(),
            final(self).seen() == old(self).seen(),
            final(self).stat_seq() == old(self).stat_seq(),
            final(self).domain() == old(self).domain(),
            forall|n: Seq<char>| final(self).admits(n) == old(self).admits(n),
    {
        match position(&self.resolving, name.as_str()) {
            Some(i) => {
                let ghost before = views(self.resolving@);
                self.resolving.remove(i);
                assert(views(self.resolving@) =~= before.remove(i as int));
                assert(before[i as int] == name@);
            },
            None => {},
        }
        let item = ScanResultItem { subdomain: name, ip };
        assert(item_view(item) == (name@, ip));
        self.items.insert(item);
    }

    /// How many submitted modules are still running.
    pub fn len(&self) -> (r: usize)
        ensures
            r == self.running().len(),
    {
        self.running.len()
    }

    /// Whether no submitted module is still running.
    pub fn is_empty(&self) -> (r: bool)
        ensures
            r == (self.running().len() == 0),
    {
        self.running.len() == 0
    }

    /// Whether the scan is quiet: every module has finished, and every name
    /// found has been resolved or has failed to resolve.
    pub fn is_done(&self) -> (r: bool)
        ensures
            r == (self.running().len() == 0 && self.queued().len() == 0
                && self.resolving().len() == 0),
    {
        self.running.len() == 0 && self.queue.len() == 0 && self.resolving.len() == 0
    }

    /// The result gathered so far.
    pub fn result(&self) -> (r: ScanResult)
        ensures
            item_views(r.items@) == self.item_seq(),
            stat_views(r.statistics@) == self.stat_seq(),
    {
        let mut items: Vec<ScanResultItem> = Vec::new();
        let src = self.items.items();
        let mut i: usize = 0;
        while i < src.len()
            invariant
                i <= src@.len(),
                items@.len() == i,
                item_views(items@) == item_views(src@).subrange(0, i as int),
            decreases src@.len() - i,
        {
            let ghost before = item_views(items@);
            items.push(ScanResultItem { subdomain: src[i].subdomain.clone(), ip: src[i].ip });
            assert(item_views(items@) =~= before.push(item_view(src@[i as int])));
            assert(item_views(src@).subrange(0, i + 1) =~= item_views(src@).subrange(0, i as int).push(
                item_view(src@[i as int]),
            ));
            i = i + 1;
        }
        assert(item_views(src@).subrange(0, src@.len() as int) =~= item_views(src@));
        let mut statistics: Vec<ModuleStat> = Vec::new();
        let es = self.stats.entries();
        let mut j: usize = 0;
        while j < es.len()
            invariant
                j <= es@.len(),
                statistics@.len() == j,
                stat_views(statistics@) == stat_views(es@).subrange(0, j as int),
            decreases es@.len() - j,
        {
            let ghost before = stat_views(statistics@);
            statistics.push(
                ModuleStat { module: es[j].module.clone(), status: es[j].status.duplicate() },
            );
            assert(stat_views(statistics@) =~= before.push((es@[j as int].module@, es@[j as int].status)));
            assert(stat_views(es@).subrange(0, j + 1) =~= stat_views(es@).subrange(0, j as int).push(
                (es@[j as int].module@, es@[j as int].status),
            ));
            j = j + 1;
        }
        assert(stat_views(es@).subrange(0, es@.len() as int) =~= stat_views(es@));
        ScanResult { items, statistics }
    }
}

/// A scan's result does not depend on the order in which modules end or
/// names resolve: two pools that hold the same items list them in the same
/// order, and two that hold the same statuses list those in the same order.
pub proof fn lemma_result_order_free(a: SubscanModulePool, b: SubscanModulePool)
    requires
        a.wf(),
        b.wf(),
    ensures
        a.item_seq().to_set() == b.item_seq().to_set() ==> a.item_seq() == b.item_seq(),
        a.stat_seq().to_set() == b.stat_seq().to_set() ==> a.stat_seq() == b.stat_seq(),
{
    if a.item_seq().to_set() == b.item_seq().to_set() {
        lemma_sorted_items_unique(a.item_seq(), b.item_seq());
    }
    if a.stat_seq().to_set() == b.stat_seq().to_set() {
        lemma_sorted_stats_unique(a.stat_seq(), b.stat_seq());
    }
}

} // verus!
