use subscan::modules::SubscanModuleResult;
use subscan::pool::{CacheFilter, ModuleNameFilter, SubscanModulePool};
use subscan::results::{IpAddress, ItemSet, ScanResultItem};
use subscan::status::{ModuleErrorKind, SkipReason, SubscanModuleStatus};
use subscan::zonetransfer::zone_transfer_result;

const TEST_DOMAIN: &str = "foo.com";
const TEST_BAR_SUBDOMAIN: &str = "bar.foo.com";
const LOCAL_HOST: u32 = 0x7f00_0001;

fn found(names: &[&str]) -> SubscanModuleResult {
    SubscanModuleResult {
        subdomains: names.iter().map(|n| n.to_string()).collect(),
        status: SubscanModuleStatus::Finished,
    }
}

/// Resolves every queued name: `bar.foo.com` to the local host, others to nothing.
fn resolve_all(pool: &mut SubscanModulePool) {
    while let Some(name) = pool.next_name() {
        let ip = if name == TEST_BAR_SUBDOMAIN { Some(IpAddress::V4(LOCAL_HOST)) } else { None };
        pool.resolved(name, ip);
    }
}

#[test]
fn module_test_submit_test() {
    let mut pool = SubscanModulePool::new(TEST_DOMAIN.to_string(), CacheFilter::default());

    assert!(pool.is_empty());
    assert!(pool.submit("google"));
    assert_eq!(pool.len(), 1);
    assert!(pool.finish("google", found(&[TEST_BAR_SUBDOMAIN])));
    assert_eq!(pool.len(), 0);
    resolve_all(&mut pool);
    assert!(pool.is_done());

    let result = pool.result();
    assert_eq!(result.items.len(), 1);
    assert_eq!(result.items[0].subdomain, TEST_BAR_SUBDOMAIN);
    assert_eq!(result.items[0].ip, Some(IpAddress::V4(LOCAL_HOST)));
    assert_eq!(result.statistics.len(), 1);
    assert_eq!(result.statistics[0].module, "google");
    assert_eq!(result.statistics[0].status, SubscanModuleStatus::Finished);
}

#[test]
fn result_test_with_filter() {
    let filter = CacheFilter::FilterByName(ModuleNameFilter {
        valids: vec!["google".to_string()],
        invalids: vec!["alienvault".to_string()],
    });
    let mut pool = SubscanModulePool::new(TEST_DOMAIN.to_string(), filter);

    assert!(pool.submit("google"));
    assert!(!pool.submit("alienvault"));
    assert!(pool.finish("google", found(&[TEST_BAR_SUBDOMAIN])));
    assert!(!pool.finish("alienvault", found(&["baz.foo.com"])));
    resolve_all(&mut pool);

    let result = pool.result();
    assert_eq!(result.items.len(), 1);
    assert_eq!(result.items[0].subdomain, TEST_BAR_SUBDOMAIN);
    assert_eq!(result.items[0].ip, Some(IpAddress::V4(LOCAL_HOST)));
    assert_eq!(result.statistics.len(), 2);
    assert_eq!(result.statistics[0].module, "alienvault");
    assert_eq!(
        result.statistics[0].status,
        SubscanModuleStatus::Skipped(SkipReason::SkippedByUser)
    );
    assert_eq!(result.statistics[1].module, "google");
}

#[test]
fn invalid_name_wins_over_valid_name() {
    let filter = CacheFilter::FilterByName(ModuleNameFilter {
        valids: vec!["google".to_string()],
        invalids: vec!["google".to_string()],
    });
    assert!(filter.is_filtered("google"));
    assert!(filter.is_filtered("bing"));
    let open = CacheFilter::FilterByName(ModuleNameFilter { valids: vec![], invalids: vec![] });
    assert!(!open.is_filtered("bing"));
    assert!(!CacheFilter::NoFilter.is_filtered("bing"));
}

#[test]
fn resolver_mapping_decides_the_address() {
    let mut pool = SubscanModulePool::new(TEST_DOMAIN.to_string(), CacheFilter::NoFilter);
    assert!(pool.submit("bing"));
    assert!(pool.finish("bing", found(&[TEST_BAR_SUBDOMAIN, "baz.foo.com"])));
    resolve_all(&mut pool);

    let result = pool.result();
    assert_eq!(result.items.len(), 2);
    assert_eq!(result.items[0].subdomain, TEST_BAR_SUBDOMAIN);
    assert_eq!(result.items[0].ip, Some(IpAddress::V4(LOCAL_HOST)));
    assert_eq!(result.items[1].subdomain, "baz.foo.com");
    assert_eq!(result.items[1].ip, None);
}

#[test]
fn result_test_with_error() {
    let mut pool = SubscanModulePool::new(TEST_DOMAIN.to_string(), CacheFilter::NoFilter);
    assert!(pool.submit("alienvault"));
    let failed = SubscanModuleResult {
        subdomains: vec![],
        status: ModuleErrorKind::UrlParse.into(),
    };
    assert!(pool.finish("alienvault", failed));
    assert!(pool.is_done());

    let result = pool.result();
    assert_eq!(result.statistics.len(), 1);
    assert_eq!(result.statistics[0].status, ModuleErrorKind::UrlParse.into());
    assert!(result.items.is_empty());
}

#[test]
fn names_from_several_modules_are_resolved_once() {
    let mut pool = SubscanModulePool::new(TEST_DOMAIN.to_string(), CacheFilter::NoFilter);
    assert!(pool.submit("a"));
    assert!(pool.submit("b"));
    assert_eq!(pool.len(), 2);
    assert!(pool.finish("a", found(&["x.foo.com", "y.foo.com"])));
    assert!(!pool.is_done());
    let first = pool.next_name();
    assert_eq!(first, Some("y.foo.com".to_string()));
    assert!(pool.finish("b", found(&["y.foo.com", "z.foo.com"])));
    pool.resolved(first.unwrap(), None);
    let mut resolved = 1;
    while let Some(name) = pool.next_name() {
        pool.resolved(name, None);
        resolved += 1;
    }
    assert_eq!(resolved, 3);
    assert!(pool.is_done());
}

#[test]
fn item_order_does_not_depend_on_arrival() {
    let items = [
        ("b.foo.com", Some(IpAddress::V4(2))),
        ("a.foo.com", None),
        ("b.foo.com", Some(IpAddress::V6(1))),
        ("b.foo.com", Some(IpAddress::V4(1))),
        ("a.foo.com", None),
    ];
    let mut forward = ItemSet::new();
    for (name, ip) in items.iter() {
        forward.insert(ScanResultItem { subdomain: name.to_string(), ip: *ip });
    }
    let mut backward = ItemSet::new();
    for (name, ip) in items.iter().rev() {
        backward.insert(ScanResultItem { subdomain: name.to_string(), ip: *ip });
    }
    let pairs = |set: &ItemSet| -> Vec<(String, Option<IpAddress>)> {
        set.items().iter().map(|i| (i.subdomain.clone(), i.ip)).collect()
    };
    assert_eq!(pairs(&forward), pairs(&backward));
    assert_eq!(
        pairs(&forward),
        vec![
            ("a.foo.com".to_string(), None),
            ("b.foo.com".to_string(), Some(IpAddress::V4(1))),
            ("b.foo.com".to_string(), Some(IpAddress::V4(2))),
            ("b.foo.com".to_string(), Some(IpAddress::V6(1))),
        ]
    );
}

#[test]
fn zone_transfer_skips_refusals() {
    let answers = vec![
        None,
        Some(vec!["bar.foo.com".to_string(), "foo.com".to_string(), "other.org".to_string()]),
        Some(vec!["bar.foo.com".to_string(), "ns1.foo.com".to_string()]),
    ];
    let result = zone_transfer_result(TEST_DOMAIN, &answers);
    assert_eq!(result.status, SubscanModuleStatus::Finished);
    assert_eq!(
        result.subdomains,
        vec!["bar.foo.com".to_string(), "foo.com".to_string(), "ns1.foo.com".to_string()]
    );
    let none = zone_transfer_result(TEST_DOMAIN, &vec![None, None]);
    assert!(none.subdomains.is_empty());
    assert_eq!(none.status, SubscanModuleStatus::Finished);
}

#[test]
fn result_test() {
    let mut pool = SubscanModulePool::new(TEST_DOMAIN.to_string(), CacheFilter::NoFilter);
    assert!(pool.submit("google"));
    assert!(pool.finish("google", found(&[TEST_BAR_SUBDOMAIN])));
    resolve_all(&mut pool);

    let binding = pool.result();
    let result = binding.items.first();

    assert!(result.is_some());
    assert!(result.unwrap().ip.is_some());
    assert_eq!(result.unwrap().subdomain, TEST_BAR_SUBDOMAIN);
    assert_eq!(result.unwrap().ip.unwrap(), IpAddress::V4(LOCAL_HOST));
}

#[test]
fn runner_test_submit_test() {
    let mut pool = SubscanModulePool::new(TEST_DOMAIN.to_string(), CacheFilter::NoFilter);
    assert!(pool.is_empty());
    assert!(pool.submit("google"));
    assert_eq!(pool.len(), 1);
    assert!(pool.finish("google", found(&[TEST_BAR_SUBDOMAIN])));
    resolve_all(&mut pool);
    let result = pool.result();
    assert_eq!(result.items.len(), 1);
    assert_eq!(result.items[0].subdomain, TEST_BAR_SUBDOMAIN);
    assert_eq!(result.items[0].ip, Some(IpAddress::V4(LOCAL_HOST)));
}

#[test]
fn names_stream_before_module_ends() {
    let mut pool = SubscanModulePool::new(TEST_DOMAIN.to_string(), CacheFilter::NoFilter);
    assert!(pool.submit("paged"));
    assert!(pool.discovered("paged", &vec![TEST_BAR_SUBDOMAIN.to_string()]));
    assert!(!pool.discovered("other", &vec!["x.foo.com".to_string()]));
    assert_eq!(pool.next_name(), Some(TEST_BAR_SUBDOMAIN.to_string()));
    assert_eq!(pool.next_name(), None);
    assert!(!pool.is_done());
    pool.resolved(TEST_BAR_SUBDOMAIN.to_string(), Some(IpAddress::V4(LOCAL_HOST)));
    assert!(pool.finish("paged", found(&[TEST_BAR_SUBDOMAIN, "baz.foo.com"])));
    assert_eq!(pool.next_name(), Some("baz.foo.com".to_string()));
    pool.resolved("baz.foo.com".to_string(), None);
    assert!(pool.is_done());
    assert_eq!(pool.result().items.len(), 2);
}

#[test]
fn one_status_per_module() {
    let mut pool = SubscanModulePool::new(TEST_DOMAIN.to_string(), CacheFilter::NoFilter);
    assert!(pool.submit("google"));
    assert!(pool.submit("google"));
    assert!(pool.finish("google", found(&[])));
    let result = pool.result();
    assert_eq!(result.statistics.len(), 1);
    assert_eq!(result.statistics[0].status, SubscanModuleStatus::Finished);
}

#[test]
fn results_test() {
    let mut pool = SubscanModulePool::new(TEST_DOMAIN.to_string(), CacheFilter::NoFilter);
    assert!(pool.submit("google"));
    assert!(pool.finish("google", found(&[TEST_BAR_SUBDOMAIN])));
    resolve_all(&mut pool);

    let binding = pool.result();
    let result = binding.items.first();

    assert!(result.is_some());
    assert!(result.unwrap().ip.is_some());
    assert_eq!(result.unwrap().subdomain, TEST_BAR_SUBDOMAIN);
    assert_eq!(result.unwrap().ip, Some(IpAddress::V4(LOCAL_HOST)));
}

#[test]
fn every_new_name_is_queued_once() {
    let mut pool = SubscanModulePool::new(TEST_DOMAIN.to_string(), CacheFilter::NoFilter);
    assert!(pool.submit("a"));
    assert!(pool.discovered("a", &vec!["x.foo.com".to_string(), "x.foo.com".to_string()]));
    assert!(pool.finish("a", found(&["x.foo.com", "y.foo.com"])));
    let mut queued = Vec::new();
    while let Some(name) = pool.next_name() {
        queued.push(name.clone());
        pool.resolved(name, None);
    }
    queued.sort();
    assert_eq!(queued, vec!["x.foo.com".to_string(), "y.foo.com".to_string()]);
    assert!(pool.is_done());
}
