//! The orchestrator: fans a query out to every selected provider and
//! fans the heterogeneous results back in.
//!
//! `plan_all` produces one plan per selected provider, in selection
//! order; the caller runs each probe as its own concurrently scheduled
//! unit. `join_results` takes every unit's outcome: a unit that
//! terminated abnormally is replaced by a synthetic parse-failure record
//! naming its provider, all records are flattened, and the batch is
//! sorted into the deterministic order. Partial provider failure never
//! fails the batch.

use vstd::prelude::*;
use crate::ip_addr::IpAddress;
use crate::ip_result::{
    IpResult, is_json_parse_failure, json_parse_error_ip_result, sort_records, spec_sort,
    spec_sorted, lemma_sort_sorted, lemma_sort_permutes,
};
use crate::ipip_net::{IpIpNet, CheckPlan, ipip_plan};

verus! {

/// The closed set of providers a query can select.
#[derive(Debug, Clone, Copy, PartialEq, Eq)]
pub enum ProviderId {
    IpIpNet,
}

/// What one concurrently scheduled unit came back with: the records its
/// adapter delivered, or abnormal termination.
pub enum UnitOutcome {
    Delivered(Vec<IpResult>),
    Crashed,
}

pub open spec fn spec_provider_name(p: ProviderId) -> Seq<char> {
    match p {
        ProviderId::IpIpNet => "Ipip.Net"@,
    }
}

/// The stable identifier of a provider.
pub fn provider_name(p: ProviderId) -> (s: &'static str)
    ensures
        s@ == spec_provider_name(p),
{
    match p {
        ProviderId::IpIpNet => "Ipip.Net",
    }
}

/// The plan a provider answers a query with.
pub open spec fn plan_matches(p: ProviderId, target: Option<IpAddress>, plan: CheckPlan) -> bool {
    match p {
        ProviderId::IpIpNet => ipip_plan(target, plan),
    }
}

/// `flat` is the concatenation of every unit's records in selection
/// order, with one synthetic parse-failure record standing in for each
/// crashed unit.
pub open spec fn spec_gathered(
    sel: Seq<ProviderId>,
    outs: Seq<UnitOutcome>,
    flat: Seq<IpResult>,
) -> bool
    decreases sel.len(),
{
    if sel.len() == 0 {
        flat.len() == 0
    } else if outs.len() == 0 {
        false
    } else {
        match outs[0] {
            UnitOutcome::Delivered(v) => {
                &&& flat.len() >= v@.len()
                &&& flat.take(v@.len() as int) == v@
                &&& spec_gathered(sel.drop_first(), outs.drop_first(), flat.skip(v@.len() as int))
            },
            UnitOutcome::Crashed => {
                &&& flat.len() >= 1
                &&& is_json_parse_failure(
                    flat[0],
                    spec_provider_name(sel[0]),
                    "Unable to parse json"@,
                )
                &&& flat[0].used_time is None
                &&& flat[0].is_canonical()
                &&& spec_gathered(sel.drop_first(), outs.drop_first(), flat.drop_first())
            },
        }
    }
}

/// Every delivered unit holds at least one record.
pub open spec fn units_nonempty(outs: Seq<UnitOutcome>) -> bool {
    forall|i: int|
        0 <= i < outs.len() ==> (#[trigger] outs[i] matches UnitOutcome::Delivered(v) ==> v@.len()
            >= 1)
}

/// Every delivered record satisfies the record invariant.
pub open spec fn units_canonical(outs: Seq<UnitOutcome>) -> bool {
    forall|i: int|
        0 <= i < outs.len() ==> (#[trigger] outs[i] matches UnitOutcome::Delivered(v) ==> forall|
            k: int,
        | 0 <= k < v@.len() ==> (#[trigger] v@[k]).is_canonical())
}

proof fn lemma_gathered_snoc(
    sel: Seq<ProviderId>,
    outs: Seq<UnitOutcome>,
    flat: Seq<IpResult>,
    p: ProviderId,
    o: UnitOutcome,
    u: Seq<IpResult>,
)
    requires
        spec_gathered(sel, outs, flat),
        sel.len() == outs.len(),
        match o {
            UnitOutcome::Delivered(v) => u == v@,
            UnitOutcome::Crashed => u.len() == 1 && is_json_parse_failure(
                u[0],
                spec_provider_name(p),
                "Unable to parse json"@,
            ) && u[0].used_time is None && u[0].is_canonical(),
        },
    ensures
        spec_gathered(sel.push(p), outs.push(o), flat + u),
    decreases sel.len(),
{
    let sel2 = sel.push(p);
    let outs2 = outs.push(o);
    let flat2 = flat + u;
    if sel.len() == 0 {
        assert(flat.len() == 0);
        assert(flat2 =~= u);
        assert(sel2[0] == p);
        assert(outs2[0] == o);
        assert(sel2.drop_first() =~= Seq::<ProviderId>::empty());
        assert(outs2.drop_first() =~= Seq::<UnitOutcome>::empty());
        assert(spec_gathered(
            Seq::<ProviderId>::empty(),
            Seq::<UnitOutcome>::empty(),
            Seq::<IpResult>::empty(),
        ));
        match o {
            UnitOutcome::Delivered(v) => {
                assert(flat2.take(v@.len() as int) =~= v@);
                assert(flat2.skip(v@.len() as int) =~= Seq::<IpResult>::empty());
                assert(spec_gathered(sel2, outs2, flat2));
            },
            UnitOutcome::Crashed => {
                assert(flat2.drop_first() =~= Seq::<IpResult>::empty());
                assert(flat2[0] == u[0]);
                assert(spec_gathered(sel2, outs2, flat2));
            },
        }
    } else {
        assert(sel2.drop_first() =~= sel.drop_first().push(p));
        assert(outs2.drop_first() =~= outs.drop_first().push(o));
        match outs[0] {
            UnitOutcome::Delivered(v) => {
                let k = v@.len() as int;
                assert(flat2.take(k) =~= flat.take(k));
                assert(flat2.skip(k) =~= flat.skip(k) + u);
                lemma_gathered_snoc(sel.drop_first(), outs.drop_first(), flat.skip(k), p, o, u);
                assert(outs2[0] == outs[0]);
                assert(sel2[0] == sel[0]);
            },
            UnitOutcome::Crashed => {
                assert(flat2[0] == flat[0]);
                assert(flat2.drop_first() =~= flat.drop_first() + u);
                lemma_gathered_snoc(
                    sel.drop_first(),
                    outs.drop_first(),
                    flat.drop_first(),
                    p,
                    o,
                    u,
                );
                assert(outs2[0] == outs[0]);
                assert(sel2[0] == sel[0]);
            },
        }
    }
}

proof fn lemma_gathered_len(sel: Seq<ProviderId>, outs: Seq<UnitOutcome>, flat: Seq<IpResult>)
    requires
        spec_gathered(sel, outs, flat),
        units_nonempty(outs),
    ensures
        flat.len() >= sel.len(),
    decreases sel.len(),
{
    if sel.len() != 0 {
        assert(units_nonempty(outs.drop_first())) by {
            assert(forall|i: int|
                0 <= i < outs.drop_first().len() ==> outs.drop_first()[i] == outs[i + 1]);
        }
        match outs[0] {
            UnitOutcome::Delivered(v) => {
                lemma_gathered_len(sel.drop_first(), outs.drop_first(), flat.skip(v@.len() as int));
            },
            UnitOutcome::Crashed => {
                lemma_gathered_len(sel.drop_first(), outs.drop_first(), flat.drop_first());
            },
        }
    }
}

proof fn lemma_gathered_canonical(sel: Seq<ProviderId>, outs: Seq<UnitOutcome>, flat: Seq<IpResult>)
    requires
        spec_gathered(sel, outs, flat),
        units_canonical(outs),
    ensures
        forall|k: int| 0 <= k < flat.len() ==> (#[trigger] flat[k]).is_canonical(),
    decreases sel.len(),
{
    if sel.len() != 0 {
        assert(units_canonical(outs.drop_first())) by {
            assert(forall|i: int|
                0 <= i < outs.drop_first().len() ==> outs.drop_first()[i] == outs[i + 1]);
        }
        match outs[0] {
            UnitOutcome::Delivered(v) => {
                let k = v@.len() as int;
                lemma_gathered_canonical(sel.drop_first(), outs.drop_first(), flat.skip(k));
                assert forall|m: int| 0 <= m < flat.len() implies (
                #[trigger] flat[m]).is_canonical() by {
                    if m < k {
                        assert(flat[m] == flat.take(k)[m]);
                        assert(outs[0] matches UnitOutcome::Delivered(w) ==> w@[m].is_canonical());
                    } else {
                        assert(flat[m] == flat.skip(k)[m - k]);
                    }
                }
            },
            UnitOutcome::Crashed => {
                lemma_gathered_canonical(sel.drop_first(), outs.drop_first(), flat.drop_first());
                assert forall|m: int| 0 <= m < flat.len() implies (
                #[trigger] flat[m]).is_canonical() by {
                    if m > 0 {
                        assert(flat[m] == flat.drop_first()[m - 1]);
                    }
                }
            },
        }
    }
}

/// Fans a query out: one plan per selected provider, in selection order.
pub fn plan_all(target: &Option<IpAddress>, selection: &Vec<ProviderId>) -> (plans: Vec<CheckPlan>)
    ensures
        plans@.len() == selection@.len(),
        forall|i: int|
            0 <= i < selection@.len() ==> plan_matches(selection@[i], *target, #[trigger] plans@[i]),
{
    let mut plans: Vec<CheckPlan> = Vec::new();
    let mut i: usize = 0;
    while i < selection.len()
        invariant
            i <= selection@.len(),
            plans@.len() == i,
            forall|j: int|
                0 <= j < i ==> plan_matches(selection@[j], *target, #[trigger] plans@[j]),
        decreases selection@.len() - i,
    {
        let plan = match selection[i] {
            ProviderId::IpIpNet => (IpIpNet).plan(target),
        };
        plans.push(plan);
        i = i + 1;
    }
    plans
}

/// Fans results back in: substitutes a synthetic record for each crashed
/// unit, flattens every unit's records in selection order, and sorts the
/// batch into the deterministic order.
///
/// The batch always accounts for every selected provider: when each
/// delivered unit holds at least one record, the batch holds at least
/// one record per selected provider. When every delivered record is
/// canonical, so is every record of the batch.
pub fn join_results(selection: &Vec<ProviderId>, outcomes: Vec<UnitOutcome>) -> (res: Vec<IpResult>)
    requires
        outcomes@.len() == selection@.len(),
    ensures
        exists|flat: Seq<IpResult>|
            #[trigger] spec_gathered(selection@, outcomes@, flat) && res@ == spec_sort(flat),
        spec_sorted(res@),
        units_nonempty(outcomes@) ==> res@.len() >= selection@.len(),
        units_canonical(outcomes@) ==> forall|k: int|
            0 <= k < res@.len() ==> (#[trigger] res@[k]).is_canonical(),
{
    let ghost orig_outs = outcomes@;
    let ghost sel = selection@;
    let mut outcomes = outcomes;
    let mut flat: Vec<IpResult> = Vec::new();
    let mut i: usize = 0;
    proof {
        assert(sel.take(0) =~= Seq::<ProviderId>::empty());
        assert(orig_outs.take(0) =~= Seq::<UnitOutcome>::empty());
    }
    while i < selection.len()
        invariant
            i <= selection@.len(),
            selection@ == sel,
            outcomes@ == orig_outs.skip(i as int),
            orig_outs.len() == sel.len(),
            spec_gathered(sel.take(i as int), orig_outs.take(i as int), flat@),
        decreases selection@.len() - i,
    {
        let ghost flat0 = flat@;
        let o = outcomes.remove(0);
        proof {
            assert(orig_outs.skip(i as int)[0] == orig_outs[i as int]);
            assert(outcomes@ =~= orig_outs.skip(i as int + 1));
        }
        let ghost u: Seq<IpResult>;
        match o {
            UnitOutcome::Delivered(v) => {
                proof {
                    u = v@;
                }
                let mut v = v;
                flat.append(&mut v);
            },
            UnitOutcome::Crashed => {
                let name = provider_name(selection[i]);
                let rec = json_parse_error_ip_result(name, "Unable to parse json");
                proof {
                    u = seq![rec];
                }
                flat.push(rec);
            },
        }
        proof {
            assert(flat@ =~= flat0 + u);
            assert(sel.take(i as int + 1) =~= sel.take(i as int).push(sel[i as int]));
            assert(orig_outs.take(i as int + 1) =~= orig_outs.take(i as int).push(
                orig_outs[i as int],
            ));
            lemma_gathered_snoc(
                sel.take(i as int),
                orig_outs.take(i as int),
                flat0,
                sel[i as int],
                orig_outs[i as int],
                u,
            );
        }
        i = i + 1;
    }
    proof {
        assert(sel.take(sel.len() as int) =~= sel);
        assert(orig_outs.take(sel.len() as int) =~= orig_outs);
    }
    let ghost gathered_flat = flat@;
    sort_records(&mut flat);
    proof {
        lemma_sort_sorted(gathered_flat);
        lemma_sort_permutes(gathered_flat);
        if units_nonempty(orig_outs) {
            lemma_gathered_len(sel, orig_outs, gathered_flat);
        }
        if units_canonical(orig_outs) {
            lemma_gathered_canonical(sel, orig_outs, gathered_flat);
            broadcast use vstd::seq_lib::group_to_multiset_ensures;

            assert forall|k: int| 0 <= k < flat@.len() implies (
            #[trigger] flat@[k]).is_canonical() by {
                assert(flat@.to_multiset().contains(flat@[k]));
                assert(gathered_flat.to_multiset().contains(flat@[k]));
            }
        }
    }
    flat
}

} // verus!
