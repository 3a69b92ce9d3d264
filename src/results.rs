//! Scan results: discovered names with their addresses, and one status per
//! module, each kept as a set in one canonical order.
use crate::order::{lemma_lex_irreflexive, lemma_lex_total, lemma_lex_transitive, lex_less, lex_lt};
use crate::hostname::chars_of;
use crate::status::SubscanModuleStatus;
use vstd::prelude::*;

verus! {

/// An IP address: a version 4 address as its 32-bit value, a version 6
/// address as its 128-bit value.
#[derive(Clone, Copy, Debug, PartialEq, Eq, Structural, Hash)]
pub enum IpAddress {
    V4(u32),
    V6(u128),
}

/// A discovered subdomain and the address it resolved to, if any.
#[derive(Debug)]
pub struct ScanResultItem {
    pub subdomain: String,
    pub ip: Option<IpAddress>,
}

/// What an item is: its name and its address.
pub open spec fn item_view(x: ScanResultItem) -> (Seq<char>, Option<IpAddress>) {
    (x.subdomain@, x.ip)
}

pub open spec fn item_views(s: Seq<ScanResultItem>) -> Seq<(Seq<char>, Option<IpAddress>)> {
    s.map_values(|x: ScanResultItem| item_view(x))
}

/// Addresses in order: none first, then version 4 before version 6, each by value.
pub open spec fn ip_lt(a: Option<IpAddress>, b: Option<IpAddress>) -> bool {
    match (a, b) {
        (None, Some(_)) => true,
        (Some(IpAddress::V4(x)), Some(IpAddress::V4(y))) => x < y,
        (Some(IpAddress::V4(_)), Some(IpAddress::V6(_))) => true,
        (Some(IpAddress::V6(x)), Some(IpAddress::V6(y))) => x < y,
        _ => false,
    }
}

/// Items in order: by name, then by address.
pub open spec fn item_lt(a: (Seq<char>, Option<IpAddress>), b: (Seq<char>, Option<IpAddress>)) -> bool {
    lex_lt(a.0, b.0) || (a.0 == b.0 && ip_lt(a.1, b.1))
}

/// Each element comes strictly before the next.
pub open spec fn items_sorted(s: Seq<(Seq<char>, Option<IpAddress>)>) -> bool {
    forall|i: int, j: int| 0 <= i < j < s.len() ==> item_lt(#[trigger] s[i], #[trigger] s[j])
}

pub proof fn lemma_item_order(
    a: (Seq<char>, Option<IpAddress>),
    b: (Seq<char>, Option<IpAddress>),
    c: (Seq<char>, Option<IpAddress>),
)
    ensures
        !item_lt(a, a),
        a != b ==> item_lt(a, b) || item_lt(b, a),
        !(item_lt(a, b) && item_lt(b, a)),
        item_lt(a, b) && item_lt(b, c) ==> item_lt(a, c),
{
    lemma_lex_irreflexive(a.0);
    lemma_lex_total(a.0, b.0);
    lemma_lex_total(b.0, c.0);
    lemma_lex_total(a.0, c.0);
    if lex_lt(a.0, b.0) && lex_lt(b.0, c.0) {
        lemma_lex_transitive(a.0, b.0, c.0);
    }
}

/// Two sorted sequences that hold the same elements are the same sequence:
/// the order in which items arrive cannot change a result.
pub proof fn lemma_sorted_items_unique(
    a: Seq<(Seq<char>, Option<IpAddress>)>,
    b: Seq<(Seq<char>, Option<IpAddress>)>,
)
    requires
        items_sorted(a),
        items_sorted(b),
        a.to_set() == b.to_set(),
    ensures
        a == b,
    decreases a.len(),
{
    if a.len() == 0 {
        if b.len() > 0 {
            assert(b.to_set().contains(b[0]));
        }
        assert(a =~= b);
    } else if b.len() == 0 {
        assert(a.to_set().contains(a[0]));
    } else {
        // the first elements are both the least element of the set
        assert(b.to_set().contains(a[0]));
        assert(a.to_set().contains(b[0]));
        let i = choose|i: int| 0 <= i < b.len() && b[i] == a[0];
        let j = choose|j: int| 0 <= j < a.len() && a[j] == b[0];
        lemma_item_order(a[0], b[0], a[0]);
        if a[0] != b[0] {
            assert(i > 0 && j > 0);
            assert(item_lt(b[0], b[i]));
            assert(item_lt(a[0], a[j]));
        }
        let ra = a.drop_first();
        let rb = b.drop_first();
        assert forall|x| ra.to_set().contains(x) implies rb.to_set().contains(x) by {
            let k = choose|k: int| 0 <= k < ra.len() && ra[k] == x;
            assert(a[k + 1] == x);
            assert(a.to_set().contains(x));
            let m = choose|m: int| 0 <= m < b.len() && b[m] == x;
            lemma_item_order(a[0], x, a[0]);
            if m == 0 {
                assert(item_lt(a[0], a[k + 1]));
            }
            assert(rb[m - 1] == x);
        }
        assert forall|x| rb.to_set().contains(x) implies ra.to_set().contains(x) by {
            let k = choose|k: int| 0 <= k < rb.len() && rb[k] == x;
            assert(b[k + 1] == x);
            assert(b.to_set().contains(x));
            let m = choose|m: int| 0 <= m < a.len() && a[m] == x;
            lemma_item_order(b[0], x, b[0]);
            if m == 0 {
                assert(item_lt(b[0], b[k + 1]));
            }
            assert(ra[m - 1] == x);
        }
        assert(ra.to_set() =~= rb.to_set());
        lemma_sorted_items_unique(ra, rb);
        assert(a =~= seq![a[0]] + ra);
        assert(b =~= seq![b[0]] + rb);
    }
}

fn ip_less(a: Option<IpAddress>, b: Option<IpAddress>) -> (r: bool)
    ensures
        r == ip_lt(a, b),
{
    match (a, b) {
        (None, Some(_)) => true,
        (Some(IpAddress::V4(x)), Some(IpAddress::V4(y))) => x < y,
        (Some(IpAddress::V4(_)), Some(IpAddress::V6(_))) => true,
        (Some(IpAddress::V6(x)), Some(IpAddress::V6(y))) => x < y,
        _ => false,
    }
}

/// A set of result items, kept sorted by name and then by address.
#[derive(Debug)]
pub struct ItemSet {
    items: Vec<ScanResultItem>,
}

impl ItemSet {
    /// The items, in order.
    pub closed spec fn view_seq(&self) -> Seq<(Seq<char>, Option<IpAddress>)> {
        item_views(self.items@)
    }

    pub open spec fn wf(&self) -> bool {
        items_sorted(self.view_seq())
    }

    pub fn new() -> (r: Self)
        ensures
            r.wf(),
            r.view_seq() == Seq::<(Seq<char>, Option<IpAddress>)>::empty(),
    {
        let r = ItemSet { items: Vec::new() };
        assert(r.view_seq() =~= Seq::<(Seq<char>, Option<IpAddress>)>::empty());
        r
    }

    /// Adds an item unless an equal one is there, keeping the order.
    pub fn insert(&mut self, item: ScanResultItem)
        requires
            old(self).wf(),
        ensures
            final(self).wf(),
            final(self).view_seq().to_set() == old(self).view_seq().to_set().insert(
                item_view(item),
            ),
    {
        let ghost s = self.view_seq();
        let ghost x = item_view(item);
        let key = chars_of(item.subdomain.as_str());
        let mut k: usize = 0;
        while k < self.items.len()
            invariant
                s == item_views(self.items@),
                items_sorted(s),
                x == item_view(item),
                key@ == item.subdomain@,
                k <= self.items@.len(),
                forall|i: int| 0 <= i < k ==> item_lt(#[trigger] s[i], x),
            ensures
                s == item_views(self.items@),
                k <= self.items@.len(),
                forall|i: int| 0 <= i < k ==> item_lt(#[trigger] s[i], x),
                k < self.items@.len() ==> !item_lt(s[k as int], x),
            decreases self.items@.len() - k,
        {
            let other = chars_of(self.items[k].subdomain.as_str());
            assert(s[k as int] == item_view(self.items@[k as int]));
            let before = lex_less(&other, &key);
            let same = !before && !lex_less(&key, &other);
            if before || (same && ip_less(self.items[k].ip, item.ip)) {
                proof {
                    if same {
                        lemma_lex_total(other@, key@);
                    }
                }
                assert(item_lt(s[k as int], x));
                k = k + 1;
            } else {
                proof {
                    lemma_lex_total(other@, key@);
                }
                break;
            }
        }
        if k < self.items.len() {
            assert(s[k as int] == item_view(self.items@[k as int]));
            let other = chars_of(self.items[k].subdomain.as_str());
            proof {
                lemma_lex_total(other@, key@);
            }
            if !lex_less(&other, &key) && !lex_less(&key, &other) && self.items[k].ip == item.ip {
                assert(s[k as int] == x);
                assert(s.to_set().contains(x));
                assert(s.to_set().insert(x) =~= s.to_set());
                return;
            }
        }
        proof {
            assert forall|j: int| k <= j < s.len() implies item_lt(x, #[trigger] s[j]) by {
                lemma_item_order(s[k as int], x, s[j]);
                lemma_item_order(x, s[k as int], s[j]);
                assert(!item_lt(s[k as int], x));
                assert(s[k as int] != x);
                if j > k {
                    assert(item_lt(s[k as int], s[j]));
                }
            }
        }
        self.items.insert(k, item);
        let ghost t = self.view_seq();
        assert(t =~= s.insert(k as int, x));
        proof {
            assert forall|i: int, j: int| 0 <= i < j < t.len() implies item_lt(
                #[trigger] t[i],
                #[trigger] t[j],
            ) by {
                if j < k {
                } else if j == k {
                    assert(t[i] == s[i]);
                } else if i < k {
                    assert(t[j] == s[j - 1]);
                    lemma_item_order(s[i], x, s[j - 1]);
                } else if i == k {
                    assert(t[j] == s[j - 1]);
                } else {
                    assert(t[i] == s[i - 1] && t[j] == s[j - 1]);
                }
            }
            assert forall|y| t.to_set().contains(y) <==> s.to_set().insert(x).contains(y) by {
                if t.to_set().contains(y) {
                    let m = choose|m: int| 0 <= m < t.len() && t[m] == y;
                    if m < k {
                        assert(s[m] == y);
                    } else if m > k {
                        assert(s[m - 1] == y);
                    }
                }
                if s.to_set().contains(y) {
                    let m = choose|m: int| 0 <= m < s.len() && s[m] == y;
                    if m < k {
                        assert(t[m] == y);
                    } else {
                        assert(t[m + 1] == y);
                    }
                }
                if y == x {
                    assert(t[k as int] == x);
                }
            }
            assert(t.to_set() =~= s.to_set().insert(x));
        }
    }

    /// The items, in order.
    pub fn items(&self) -> (r: &Vec<ScanResultItem>)
        ensures
            item_views(r@) == self.view_seq(),
    {
        &self.items
    }
}

/// One module's entry in the statistics of a scan.
#[derive(Debug)]
pub struct ModuleStat {
    pub module: String,
    pub status: SubscanModuleStatus,
}

pub open spec fn stat_views(s: Seq<ModuleStat>) -> Seq<(Seq<char>, SubscanModuleStatus)> {
    s.map_values(|e: ModuleStat| (e.module@, e.status))
}

/// Each entry's module name comes strictly before the next one's.
pub open spec fn stats_sorted(s: Seq<(Seq<char>, SubscanModuleStatus)>) -> bool {
    forall|i: int, j: int| 0 <= i < j < s.len() ==> lex_lt((#[trigger] s[i]).0, (#[trigger] s[j]).0)
}

/// The entries of `s` for modules other than `name`, with `(name, status)` added.
pub open spec fn with_status(
    s: Set<(Seq<char>, SubscanModuleStatus)>,
    name: Seq<char>,
    status: SubscanModuleStatus,
) -> Set<(Seq<char>, SubscanModuleStatus)> {
    s.filter(|e: (Seq<char>, SubscanModuleStatus)| e.0 != name).insert((name, status))
}

/// One status per module, kept sorted by module name.
#[derive(Debug)]
pub struct ModuleStats {
    entries: Vec<ModuleStat>,
}

impl ModuleStats {
    /// The entries, in order.
    pub closed spec fn view_seq(&self) -> Seq<(Seq<char>, SubscanModuleStatus)> {
        stat_views(self.entries@)
    }

    pub open spec fn wf(&self) -> bool {
        stats_sorted(self.view_seq())
    }

    pub fn new() -> (r: Self)
        ensures
            r.wf(),
            r.view_seq() == Seq::<(Seq<char>, SubscanModuleStatus)>::empty(),
    {
        let r = ModuleStats { entries: Vec::new() };
        assert(r.view_seq() =~= Seq::<(Seq<char>, SubscanModuleStatus)>::empty());
        r
    }

    /// Records `status` as the status of `module`, replacing an earlier one.
    pub fn set(&mut self, module: String, status: SubscanModuleStatus)
        requires
            old(self).wf(),
        ensures
            final(self).wf(),
            final(self).view_seq().to_set() == with_status(
                old(self).view_seq().to_set(),
                module@,
                status,
            ),
    {
        let ghost s = self.view_seq();
        let ghost name = module@;
        let key = chars_of(module.as_str());
        let mut k: usize = 0;
        while k < self.entries.len()
            invariant
                s == stat_views(self.entries@),
                stats_sorted(s),
                name == module@,
                key@ == name,
                k <= self.entries@.len(),
                forall|i: int| 0 <= i < k ==> lex_lt((#[trigger] s[i]).0, name),
            ensures
                s == stat_views(self.entries@),
                k <= self.entries@.len(),
                forall|i: int| 0 <= i < k ==> lex_lt((#[trigger] s[i]).0, name),
                k < self.entries@.len() ==> !lex_lt(s[k as int].0, name),
            decreases self.entries@.len() - k,
        {
            let other = chars_of(self.entries[k].module.as_str());
            assert(s[k as int].0 == self.entries@[k as int].module@);
            if lex_less(&other, &key) {
                k = k + 1;
            } else {
                break;
            }
        }
        let ghost x = (name, status);
        let mut replace = false;
        if k < self.entries.len() {
            assert(s[k as int].0 == self.entries@[k as int].module@);
            let other = chars_of(self.entries[k].module.as_str());
            replace = !lex_less(&key, &other);
            proof {
                lemma_lex_total(other@, key@);
            }
        }
        let ghost old_set = s.to_set();
        if replace {
            assert(s[k as int].0 == name);
            self.entries.set(k, ModuleStat { module, status });
            let ghost t = self.view_seq();
            assert(t =~= s.update(k as int, x));
            proof {
                assert forall|i: int, j: int| 0 <= i < j < t.len() implies lex_lt(
                    (#[trigger] t[i]).0,
                    (#[trigger] t[j]).0,
                ) by {
                    assert(t[i].0 == s[i].0 && t[j].0 == s[j].0);
                }
                assert forall|y| t.to_set().contains(y) <==> with_status(old_set, name, status).contains(y) by {
                    if t.to_set().contains(y) {
                        let m = choose|m: int| 0 <= m < t.len() && t[m] == y;
                        if m != k {
                            assert(s[m] == y);
                            assert(y.0 != name) by {
                                if m < k {
                                    lemma_lex_irreflexive(name);
                                } else {
                                    lemma_lex_irreflexive(name);
                                }
                            }
                        }
                    }
                    if old_set.contains(y) && y.0 != name {
                        let m = choose|m: int| 0 <= m < s.len() && s[m] == y;
                        assert(m != k);
                        assert(t[m] == y);
                    }
                    if y == x {
                        assert(t[k as int] == x);
                    }
                }
                assert(t.to_set() =~= with_status(old_set, name, status));
            }
        } else {
            proof {
                assert forall|j: int| k <= j < s.len() implies lex_lt(name, (#[trigger] s[j]).0) by {
                    lemma_lex_total(s[k as int].0, name);
                    if j > k {
                        assert(lex_lt(s[k as int].0, s[j].0));
                        lemma_lex_transitive(name, s[k as int].0, s[j].0);
                    }
                }
            }
            self.entries.insert(k, ModuleStat { module, status });
            let ghost t = self.view_seq();
            assert(t =~= s.insert(k as int, x));
            proof {
                assert forall|i: int, j: int| 0 <= i < j < t.len() implies lex_lt(
                    (#[trigger] t[i]).0,
                    (#[trigger] t[j]).0,
                ) by {
                    if j < k {
                    } else if j == k {
                        assert(t[i] == s[i]);
                    } else if i < k {
                        assert(t[j] == s[j - 1]);
                        lemma_lex_transitive(s[i].0, name, s[j - 1].0);
                    } else if i == k {
                        assert(t[j] == s[j - 1]);
                    } else {
                        assert(t[i] == s[i - 1] && t[j] == s[j - 1]);
                    }
                }
                assert forall|y| t.to_set().contains(y) <==> with_status(old_set, name, status).contains(y) by {
                    if t.to_set().contains(y) {
                        let m = choose|m: int| 0 <= m < t.len() && t[m] == y;
                        if m < k {
                            assert(s[m] == y);
                            lemma_lex_irreflexive(name);
                        } else if m > k {
                            assert(s[m - 1] == y);
                            lemma_lex_irreflexive(name);
                        }
                    }
                    if old_set.contains(y) && y.0 != name {
                        let m = choose|m: int| 0 <= m < s.len() && s[m] == y;
                        if m < k {
                            assert(t[m] == y);
                        } else {
                            assert(t[m + 1] == y);
                        }
                    }
                    if y == x {
                        assert(t[k as int] == x);
                    }
                }
                assert(t.to_set() =~= with_status(old_set, name, status));
            }
        }
    }

    /// The entries, in order of module name.
    pub fn entries(&self) -> (r: &Vec<ModuleStat>)
        ensures
            stat_views(r@) == self.view_seq(),
    {
        &self.entries
    }
}

/// Two sequences of statuses sorted by module name that hold the same
/// entries are the same sequence: the order in which modules end cannot
/// change the statistics.
pub proof fn lemma_sorted_stats_unique(
    a: Seq<(Seq<char>, SubscanModuleStatus)>,
    b: Seq<(Seq<char>, SubscanModuleStatus)>,
)
    requires
        stats_sorted(a),
        stats_sorted(b),
        a.to_set() == b.to_set(),
    ensures
        a == b,
    decreases a.len(),
{
    if a.len() == 0 {
        if b.len() > 0 {
            assert(b.to_set().contains(b[0]));
        }
        assert(a =~= b);
    } else if b.len() == 0 {
        assert(a.to_set().contains(a[0]));
    } else {
        assert(b.to_set().contains(a[0]));
        assert(a.to_set().contains(b[0]));
        let i = choose|i: int| 0 <= i < b.len() && b[i] == a[0];
        let j = choose|j: int| 0 <= j < a.len() && a[j] == b[0];
        lemma_lex_irreflexive(a[0].0);
        lemma_lex_total(a[0].0, b[0].0);
        if a[0] != b[0] {
            if i > 0 {
                assert(lex_lt(b[0].0, b[i].0));
            }
            if j > 0 {
                assert(lex_lt(a[0].0, a[j].0));
            }
        }
        let ra = a.drop_first();
        let rb = b.drop_first();
        assert forall|x| ra.to_set().contains(x) implies rb.to_set().contains(x) by {
            let k = choose|k: int| 0 <= k < ra.len() && ra[k] == x;
            assert(a[k + 1] == x);
            assert(a.to_set().contains(x));
            let m = choose|m: int| 0 <= m < b.len() && b[m] == x;
            if m == 0 {
                assert(lex_lt(a[0].0, a[k + 1].0));
            }
            assert(rb[m - 1] == x);
        }
        assert forall|x| rb.to_set().contains(x) implies ra.to_set().contains(x) by {
            let k = choose|k: int| 0 <= k < rb.len() && rb[k] == x;
            assert(b[k + 1] == x);
            assert(b.to_set().contains(x));
            let m = choose|m: int| 0 <= m < a.len() && a[m] == x;
            if m == 0 {
                assert(lex_lt(b[0].0, b[k + 1].0));
            }
            assert(ra[m - 1] == x);
        }
        assert(ra.to_set() =~= rb.to_set());
        lemma_sorted_stats_unique(ra, rb);
        assert(a =~= seq![a[0]] + ra);
        assert(b =~= seq![b[0]] + rb);
    }
}

} // verus!
