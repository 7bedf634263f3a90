//! The Ipip.Net provider adapter: a self-lookup-only service answering
//! over HTTPS with `{"data":{"ip":...,"location":[country,region,city]}}`.
//!
//! The adapter is split around the network call: `plan` decides, without
//! any transport work, whether the query is supported and what one probe
//! would need; `conclude` turns the probe's outcome into the probe's
//! record. The caller performs the probe itself and measures its elapsed
//! time.

use vstd::prelude::*;
use vstd::string::StringExecFns;
use crate::ip_addr::{IpAddress, spec_parse_ip, parse_ip};
use crate::ip_result::{
    IpResult, IpCheckError, Region, is_parse_ip_failure, is_request_failure, is_client_failure,
    is_not_support_failure, parse_ip_error_ip_result, request_error_ip_result,
    create_reqwest_client_error, not_support_error,
};
use crate::json::{JsonModel, obj_get, json_of, value_model, parse_json, value_get, value_as_str,
    value_as_array};

verus! {

/// What one probe needs from the transport: the endpoint, the address
/// family to pin, and an optional identity header.
pub struct ProbeSpec {
    pub url: String,
    /// `Some(true)` pins the probe to the version-6 source family,
    /// `Some(false)` to version 4; `None` leaves the choice to the
    /// system.
    pub ipv6: Option<bool>,
    pub identity: Option<String>,
}

/// An adapter's answer to a query: records produced without any network
/// work, or a request for one probe.
pub enum CheckPlan {
    Finished(Vec<IpResult>),
    Probe(ProbeSpec),
}

/// What the transport observed for one probe.
pub enum FetchOutcome {
    /// No client could be built.
    ClientFailed,
    /// The request could not be sent or answered in time.
    ConnectFailed,
    /// The response body, as text.
    Body(String),
}

/// The Ipip.Net provider.
pub struct IpIpNet;

/// The string element at `i`, absent outside the array or on any other
/// kind of element.
pub open spec fn elem_str(items: Seq<JsonModel>, i: int) -> Option<Seq<char>> {
    if 0 <= i < items.len() {
        match items[i] {
            JsonModel::Str(t) => Option::Some(t),
            _ => Option::None,
        }
    } else {
        Option::None
    }
}

pub open spec fn opt_str_matches(o: Option<String>, t: Option<Seq<char>>) -> bool {
    match (o, t) {
        (Option::None, Option::None) => true,
        (Option::Some(s), Option::Some(u)) => s@ == u,
        _ => false,
    }
}

/// The success record for a parsed self-lookup answer: the reported
/// address, and country, region and city from the location array.
pub open spec fn ipip_success(r: IpResult, addr: IpAddress, items: Seq<JsonModel>) -> bool {
    &&& r.success
    &&& r.error is No
    &&& r.provider@ == "Ipip.Net"@
    &&& r.ip == Option::Some(addr)
    &&& r.autonomous_system is None
    &&& r.risk is None
    &&& r.region matches Option::Some(reg) && {
        &&& opt_str_matches(reg.country, elem_str(items, 0))
        &&& opt_str_matches(reg.region, elem_str(items, 1))
        &&& opt_str_matches(reg.city, elem_str(items, 2))
        &&& reg.coordinates is None
        &&& reg.time_zone is None
    }
}

/// The record a parsed response body yields, field by field: every
/// missing or mistyped field gives the failure naming the sub-step.
pub open spec fn ipip_parsed(r: IpResult, m: JsonModel, t: Option<u64>) -> bool {
    &&& r.used_time == t
    &&& match obj_get(m, "data"@) {
        Option::None => is_parse_ip_failure(r, "Ipip.Net"@, "Unable to parse json"@),
        Option::Some(data) => match obj_get(data, "ip"@) {
            Option::None => is_parse_ip_failure(r, "Ipip.Net"@, "Unable to parse ip"@),
            Option::Some(ipm) => match ipm {
                JsonModel::Str(iptext) => match spec_parse_ip(iptext) {
                    Option::None => is_parse_ip_failure(r, "Ipip.Net"@, "Unable to parse ip"@),
                    Option::Some(addr) => match obj_get(data, "location"@) {
                        Option::None => is_parse_ip_failure(
                            r,
                            "Ipip.Net"@,
                            "Unable to parse location"@,
                        ),
                        Option::Some(locm) => match locm {
                            JsonModel::Arr(items) => ipip_success(r, addr, items),
                            _ => is_parse_ip_failure(r, "Ipip.Net"@, "Unable to parse location"@),
                        },
                    },
                },
                _ => is_parse_ip_failure(r, "Ipip.Net"@, "Unable to parse ip"@),
            },
        },
    }
}

/// The plan the adapter answers a query with.
pub open spec fn ipip_plan(target: Option<IpAddress>, p: CheckPlan) -> bool {
    &&& target is Some ==> (p matches CheckPlan::Finished(v) && v@.len() == 1
        && is_not_support_failure(v@[0], "Ipip.Net"@) && v@[0].used_time is None
        && v@[0].is_canonical())
    &&& target is None ==> (p matches CheckPlan::Probe(ps) && ps.url@
        == "https://myip.ipip.net/json"@ && ps.ipv6 == Option::Some(false) && ps.identity is None)
}

/// The record one probe outcome concludes to.
pub open spec fn ipip_concluded(r: IpResult, outcome: FetchOutcome, elapsed_ms: u64) -> bool {
    &&& outcome is ClientFailed ==> is_client_failure(r, "Ipip.Net"@) && r.used_time is None
    &&& outcome is ConnectFailed ==> is_request_failure(r, "Ipip.Net"@, "Unable to connect"@)
        && r.used_time is None
    &&& outcome matches FetchOutcome::Body(s) ==> match json_of(s@) {
        Option::None => is_request_failure(r, "Ipip.Net"@, "Unable to parse json"@)
            && r.used_time is None,
        Option::Some(m) => ipip_parsed(r, m, Option::Some(elapsed_ms)),
    }
}

fn read_str_at(items: &Vec<serde_json::Value>, i: usize) -> (r: Option<String>)
    ensures
        r matches Some(s) ==> i < items@.len() && value_model(items@[i as int]) == JsonModel::Str(
            s@,
        ),
        r is None ==> !(i < items@.len() && value_model(items@[i as int]) is Str),
{
    if i < items.len() {
        match value_as_str(&items[i]) {
            Some(s) => Some(s.to_owned()),
            None => None,
        }
    } else {
        None
    }
}

/// Normalizes one parsed response body into the canonical record, with
/// every expected field validated before use.
pub fn get_ipip_net_info(json: &serde_json::Value) -> (r: IpResult)
    ensures
        ipip_parsed(r, value_model(*json), Option::None),
        r.is_canonical(),
{
    let data = match value_get(json, "data") {
        Some(d) => d,
        None => {
            return parse_ip_error_ip_result("Ipip.Net", "Unable to parse json");
        },
    };
    let ipv = match value_get(data, "ip") {
        Some(v) => v,
        None => {
            return parse_ip_error_ip_result("Ipip.Net", "Unable to parse ip");
        },
    };
    let ip_str = match value_as_str(ipv) {
        Some(s) => s,
        None => {
            return parse_ip_error_ip_result("Ipip.Net", "Unable to parse ip");
        },
    };
    let addr = match parse_ip(ip_str) {
        Some(a) => a,
        None => {
            return parse_ip_error_ip_result("Ipip.Net", "Unable to parse ip");
        },
    };
    let locv = match value_get(data, "location") {
        Some(v) => v,
        None => {
            return parse_ip_error_ip_result("Ipip.Net", "Unable to parse location");
        },
    };
    let items = match value_as_array(locv) {
        Some(a) => a,
        None => {
            return parse_ip_error_ip_result("Ipip.Net", "Unable to parse location");
        },
    };
    let country = read_str_at(items, 0);
    let region = read_str_at(items, 1);
    let city = read_str_at(items, 2);
    IpResult {
        success: true,
        error: IpCheckError::No,
        provider: "Ipip.Net".to_owned(),
        ip: Some(addr),
        autonomous_system: None,
        region: Some(
            Region { country, region, city, coordinates: None, time_zone: None },
        ),
        risk: None,
        used_time: None,
    }
}

impl IpIpNet {
    /// Plans a query: an explicit target is refused outright, with no
    /// network call; a self-lookup asks for one version-4-pinned probe
    /// of the provider's endpoint.
    pub fn plan(&self, target: &Option<IpAddress>) -> (p: CheckPlan)
        ensures
            ipip_plan(*target, p),
    {
        match target {
            Some(_) => CheckPlan::Finished(vec![not_support_error("Ipip.Net")]),
            None => CheckPlan::Probe(
                ProbeSpec {
                    url: String::from_str("https://myip.ipip.net/json"),
                    ipv6: Some(false),
                    identity: None,
                },
            ),
        }
    }

    /// Concludes one probe: every transport or parse failure becomes the
    /// record naming the failing sub-step; a parsed body is normalized
    /// and stamped with the probe's elapsed time.
    pub fn conclude(&self, outcome: FetchOutcome, elapsed_ms: u64) -> (v: Vec<IpResult>)
        ensures
            v@.len() == 1,
            v@[0].is_canonical(),
            ipip_concluded(v@[0], outcome, elapsed_ms),
    {
        match outcome {
            FetchOutcome::ClientFailed => vec![create_reqwest_client_error("Ipip.Net")],
            FetchOutcome::ConnectFailed => vec![
                request_error_ip_result("Ipip.Net", "Unable to connect"),
            ],
            FetchOutcome::Body(s) => match parse_json(s.as_str()) {
                None => vec![request_error_ip_result("Ipip.Net", "Unable to parse json")],
                Some(val) => {
                    let mut r = get_ipip_net_info(&val);
                    r.used_time = Some(elapsed_ms);
                    vec![r]
                },
            },
        }
    }
}

} // verus!
