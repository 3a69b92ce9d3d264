//! The registry of every module, built once for the process.
use crate::modules::{RequesterConfig, SubscanModule};
use crate::sources::{
    Anubis, Bing, Google, SubdomainCenter, WhoisXMLAPI, Yahoo, ANUBIS_MODULE_NAME, BING_MODULE_NAME,
    GOOGLE_MODULE_NAME, SUBDOMAINCENTER_MODULE_NAME, WHOISXMLAPI_MODULE_NAME, YAHOO_MODULE_NAME,
};
use vstd::prelude::*;

verus! {

/// Holds every module of the process and applies settings to all of them.
#[derive(Debug)]
pub struct CacheManager {
    modules: Vec<SubscanModule>,
}

impl Default for CacheManager {
    /// The registry of every built-in source.
    fn default() -> (r: Self)
        ensures
            r.names() == seq![
                BING_MODULE_NAME@,
                GOOGLE_MODULE_NAME@,
                YAHOO_MODULE_NAME@,
                ANUBIS_MODULE_NAME@,
                SUBDOMAINCENTER_MODULE_NAME@,
                WHOISXMLAPI_MODULE_NAME@,
            ],
            r.names().no_duplicates(),
    {
        let modules: Vec<SubscanModule> = vec![
            Bing::dispatcher(),
            Google::dispatcher(),
            Yahoo::dispatcher(),
            Anubis::dispatcher(),
            SubdomainCenter::dispatcher(),
            WhoisXMLAPI::dispatcher(),
        ];
        proof {
            reveal_strlit("bing");
            reveal_strlit("google");
            reveal_strlit("yahoo");
            reveal_strlit("anubis");
            reveal_strlit("subdomaincenter");
            reveal_strlit("whoisxmlapi");
            let n = modules@.map_values(|m: SubscanModule| m.name_view());
            assert(n[0].len() == 4 && n[1].len() == 6 && n[2].len() == 5 && n[3].len() == 6);
            assert(n[4].len() == 15 && n[5].len() == 11);
            assert(n[1][0] != n[3][0]);
            assert forall|i: int, j: int| 0 <= i < n.len() && 0 <= j < n.len() && i != j implies n[i]
                != n[j] by {
                if n[i] == n[j] {
                    assert(n[i].len() == n[j].len());
                    assert(n[i][0] == n[j][0]);
                }
            }
        }
        let r = CacheManager { modules };
        assert(r.names() =~= seq![
            BING_MODULE_NAME@,
            GOOGLE_MODULE_NAME@,
            YAHOO_MODULE_NAME@,
            ANUBIS_MODULE_NAME@,
            SUBDOMAINCENTER_MODULE_NAME@,
            WHOISXMLAPI_MODULE_NAME@,
        ]);
        r
    }
}

impl CacheManager {
    /// The names of the modules, in registry order.
    pub closed spec fn names(&self) -> Seq<Seq<char>> {
        self.modules@.map_values(|m: SubscanModule| m.name_view())
    }

    /// The modules, in registry order.
    pub closed spec fn module_seq(&self) -> Seq<SubscanModule> {
        self.modules@
    }

    /// No two modules of the registry share a name.
    #[verifier::type_invariant]
    spec fn names_unique(&self) -> bool {
        self.names().no_duplicates()
    }

    /// A registry of the given modules, which must have names of their own.
    pub fn new(modules: Vec<SubscanModule>) -> (r: Self)
        requires
            modules@.map_values(|m: SubscanModule| m.name_view()).no_duplicates(),
        ensures
            r.module_seq() == modules@,
    {
        CacheManager { modules }
    }

    /// Every module, in registry order; no two share a name.
    pub fn modules(&self) -> (r: &Vec<SubscanModule>)
        ensures
            r@ == self.module_seq(),
            r@.map_values(|m: SubscanModule| m.name_view()).no_duplicates(),
    {
        proof {
            use_type_invariant(self);
        }
        &self.modules
    }

    /// The first module named `name`, if there is one.
    pub fn module(&self, name: &str) -> (r: Option<&SubscanModule>)
        ensures
            match r {
                Some(m) => exists|i: int|
                    0 <= i < self.module_seq().len() && self.module_seq()[i] == *m && m.name_view()
                        == name@ && forall|j: int|
                        0 <= j < i ==> (#[trigger] self.module_seq()[j]).name_view() != name@,
                None => forall|j: int|
                    0 <= j < self.module_seq().len() ==> (#[trigger] self.module_seq()[j]).name_view()
                        != name@,
            },
    {
        let key = String::from_str(name);
        let mut i: usize = 0;
        while i < self.modules.len()
            invariant
                key@ == name@,
                i <= self.modules@.len(),
                forall|j: int| 0 <= j < i ==> (#[trigger] self.modules@[j]).name_view() != name@,
            decreases self.modules@.len() - i,
        {
            if *self.modules[i].name() == key {
                assert(self.module_seq()[i as int] == self.modules@[i as int]);
                assert(forall|j: int| 0 <= j < i ==> (#[trigger] self.module_seq()[j]).name_view() != name@);
                return Some(&self.modules[i]);
            }
            i = i + 1;
        }
        None
    }

    /// Gives every module the same requester settings, one module at a time.
    pub fn configure(&mut self, config: &RequesterConfig)
        ensures
            final(self).module_seq().len() == old(self).module_seq().len(),
            forall|i: int|
                0 <= i < final(self).module_seq().len() ==> {
                    let m = #[trigger] final(self).module_seq()[i];
                    &&& m.config_view().view_parts() == config.view_parts()
                    &&& m.name_view() == old(self).module_seq()[i].name_view()
                    &&& m.needs_key() == old(self).module_seq()[i].needs_key()
                },
    {
        proof {
            use_type_invariant(&*self);
        }
        let ghost start = self.modules@;
        let mut rest: Vec<SubscanModule> = Vec::new();
        std::mem::swap(&mut self.modules, &mut rest);
        let mut out: Vec<SubscanModule> = Vec::new();
        while rest.len() > 0
            invariant
                out@.len() + rest@.len() == start.len(),
                forall|j: int| 0 <= j < rest@.len() ==> rest@[j] == start[out@.len() + j],
                forall|j: int|
                    0 <= j < out@.len() ==> {
                        let m = #[trigger] out@[j];
                        &&& m.config_view().view_parts() == config.view_parts()
                        &&& m.name_view() == start[j].name_view()
                        &&& m.needs_key() == start[j].needs_key()
                    },
            decreases rest@.len(),
        {
            let mut m = rest.remove(0);
            m.configure(config.duplicate());
            out.push(m);
        }
        let ghost names = start.map_values(|m: SubscanModule| m.name_view());
        assert(out@.map_values(|m: SubscanModule| m.name_view()) =~= names);
        self.modules = out;
    }
}

} // verus!
