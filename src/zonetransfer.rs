//! Zone transfer: what a scan learns from asking each of a domain's name
//! servers for its whole zone.
use crate::extractors::{keep_subdomains, only_subdomains};
use crate::modules::SubscanModuleResult;
use crate::names::{append_names, dedup, dedup_names, views};
use crate::status::SubscanModuleStatus;
use vstd::prelude::*;

verus! {

/// The record names of each answer, or nothing for a server that refused.
pub open spec fn answer_views(a: Seq<Option<Vec<String>>>) -> Seq<Option<Seq<Seq<char>>>> {
    a.map_values(
        |x: Option<Vec<String>>|
            match x {
                Some(v) => Some(views(v@)),
                None => None,
            },
    )
}

/// The record names of every server that granted the transfer, in order.
pub open spec fn transferred(a: Seq<Option<Seq<Seq<char>>>>) -> Seq<Seq<char>>
    decreases a.len(),
{
    if a.len() == 0 {
        seq![]
    } else {
        transferred(a.drop_last()) + match a.last() {
            Some(names) => names,
            None => seq![],
        }
    }
}

/// The outcome of a zone-transfer run over every name server of `domain`.
/// `answers` holds, for each server in turn, the names of the records it
/// transferred, or nothing when it refused or timed out. A refusal is no
/// failure: the run finishes with the subdomains of `domain` among the
/// transferred records, once each, in order of first appearance.
pub fn zone_transfer_result(domain: &str, answers: &Vec<Option<Vec<String>>>) -> (r:
    SubscanModuleResult)
    ensures
        r.status == SubscanModuleStatus::Finished,
        views(r.subdomains@) == dedup(only_subdomains(transferred(answer_views(answers@)), domain@)),
{
    let mut all: Vec<String> = Vec::new();
    let mut i: usize = 0;
    assert(answer_views(answers@).subrange(0, 0) =~= Seq::<Option<Seq<Seq<char>>>>::empty());
    while i < answers.len()
        invariant
            i <= answers@.len(),
            views(all@) == transferred(answer_views(answers@).subrange(0, i as int)),
        decreases answers@.len() - i,
    {
        let ghost pre = answer_views(answers@).subrange(0, i + 1);
        assert(pre.drop_last() =~= answer_views(answers@).subrange(0, i as int));
        assert(pre.last() == answer_views(answers@)[i as int]);
        let ghost before = views(all@);
        match &answers[i] {
            Some(names) => {
                append_names(&mut all, names);
            },
            None => {
                assert(before + Seq::<Seq<char>>::empty() =~= before);
            },
        }
        i = i + 1;
    }
    assert(answer_views(answers@).subrange(0, answers@.len() as int) =~= answer_views(answers@));
    let kept = keep_subdomains(&all, domain);
    SubscanModuleResult { subdomains: dedup_names(&kept), status: SubscanModuleStatus::Finished }
}

} // verus!
