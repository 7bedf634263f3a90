//! A self-inverse machine encoding of the canonical record.
//!
//! A record encodes to a compact positional JSON document of the crate's
//! own `JsonValue` form: one array of eight fields, with absent parts as
//! `null`, addresses and elapsed times as arrays of integers, and every
//! string carried verbatim. The decoder accepts exactly what the encoder
//! emits and rebuilds a structurally equal record; `lemma_round_trip`
//! proves that inverse for every record.

use vstd::prelude::*;
use vstd::arithmetic::div_mod::{lemma_fundamental_div_mod, lemma_div_is_ordered};
use crate::ip_addr::IpAddress;
use crate::ip_result::{
    IpResult, IpCheckError, AS, Region, Coordinates, Risk, RiskTag, IpResultView, IpCheckErrorView,
    AsView, RegionView, CoordinatesView, RiskView, RiskTagView, view_opt_str,
};
use crate::json::{JsonValue, JsonModel, models_of};

verus! {

// The encoding, field kind by field kind.

pub open spec fn spec_enc_opt_str(o: Option<Seq<char>>) -> JsonModel {
    match o {
        Option::None => JsonModel::Null,
        Option::Some(t) => JsonModel::Str(t),
    }
}

pub open spec fn spec_dec_opt_str(m: JsonModel) -> Option<Option<Seq<char>>> {
    match m {
        JsonModel::Null => Option::Some(Option::None),
        JsonModel::Str(t) => Option::Some(Option::Some(t)),
        _ => Option::None,
    }
}

pub open spec fn spec_enc_ip(ip: IpAddress) -> JsonModel {
    match ip {
        IpAddress::V4(a, b, c, d) => JsonModel::Arr(
            seq![
                JsonModel::Int(4),
                JsonModel::Int(a as i64),
                JsonModel::Int(b as i64),
                JsonModel::Int(c as i64),
                JsonModel::Int(d as i64),
            ],
        ),
        IpAddress::V6(g0, g1, g2, g3, g4, g5, g6, g7) => JsonModel::Arr(
            seq![
                JsonModel::Int(6),
                JsonModel::Int(g0 as i64),
                JsonModel::Int(g1 as i64),
                JsonModel::Int(g2 as i64),
                JsonModel::Int(g3 as i64),
                JsonModel::Int(g4 as i64),
                JsonModel::Int(g5 as i64),
                JsonModel::Int(g6 as i64),
                JsonModel::Int(g7 as i64),
            ],
        ),
    }
}

pub open spec fn dec_octet_m(m: JsonModel) -> Option<u8> {
    match m {
        JsonModel::Int(x) => if 0 <= x <= 255 {
            Option::Some(x as u8)
        } else {
            Option::None
        },
        _ => Option::None,
    }
}

pub open spec fn dec_group_m(m: JsonModel) -> Option<u16> {
    match m {
        JsonModel::Int(x) => if 0 <= x <= 0xffff {
            Option::Some(x as u16)
        } else {
            Option::None
        },
        _ => Option::None,
    }
}

pub open spec fn spec_dec_ip(m: JsonModel) -> Option<IpAddress> {
    match m {
        JsonModel::Arr(es) => if es.len() == 5 && es[0] == JsonModel::Int(4) {
            match (dec_octet_m(es[1]), dec_octet_m(es[2]), dec_octet_m(es[3]), dec_octet_m(es[4])) {
                (Option::Some(a), Option::Some(b), Option::Some(c), Option::Some(d)) => Option::Some(
                    IpAddress::V4(a, b, c, d),
                ),
                _ => Option::None,
            }
        } else if es.len() == 9 && es[0] == JsonModel::Int(6) {
            match (
                dec_group_m(es[1]),
                dec_group_m(es[2]),
                dec_group_m(es[3]),
                dec_group_m(es[4]),
                dec_group_m(es[5]),
                dec_group_m(es[6]),
                dec_group_m(es[7]),
                dec_group_m(es[8]),
            ) {
                (
                    Option::Some(g0),
                    Option::Some(g1),
                    Option::Some(g2),
                    Option::Some(g3),
                    Option::Some(g4),
                    Option::Some(g5),
                    Option::Some(g6),
                    Option::Some(g7),
                ) => Option::Some(IpAddress::V6(g0, g1, g2, g3, g4, g5, g6, g7)),
                _ => Option::None,
            }
        } else {
            Option::None
        },
        _ => Option::None,
    }
}

pub open spec fn spec_enc_opt_ip(o: Option<IpAddress>) -> JsonModel {
    match o {
        Option::None => JsonModel::Null,
        Option::Some(ip) => spec_enc_ip(ip),
    }
}

pub open spec fn spec_dec_opt_ip(m: JsonModel) -> Option<Option<IpAddress>> {
    match m {
        JsonModel::Null => Option::Some(Option::None),
        _ => match spec_dec_ip(m) {
            Option::Some(ip) => Option::Some(Option::Some(ip)),
            Option::None => Option::None,
        },
    }
}

pub open spec fn spec_enc_error(e: IpCheckErrorView) -> JsonModel {
    match e {
        IpCheckErrorView::No => JsonModel::Arr(seq![JsonModel::Int(0)]),
        IpCheckErrorView::JsonParse(t) => JsonModel::Arr(seq![JsonModel::Int(1), JsonModel::Str(t)]),
        IpCheckErrorView::Request(t) => JsonModel::Arr(seq![JsonModel::Int(2), JsonModel::Str(t)]),
        IpCheckErrorView::ParseIP(t) => JsonModel::Arr(seq![JsonModel::Int(3), JsonModel::Str(t)]),
        IpCheckErrorView::CreateReqwestClient => JsonModel::Arr(seq![JsonModel::Int(4)]),
        IpCheckErrorView::NotSupport => JsonModel::Arr(seq![JsonModel::Int(5)]),
    }
}

pub open spec fn spec_dec_error(m: JsonModel) -> Option<IpCheckErrorView> {
    match m {
        JsonModel::Arr(es) => if es.len() == 1 && es[0] == JsonModel::Int(0) {
            Option::Some(IpCheckErrorView::No)
        } else if es.len() == 1 && es[0] == JsonModel::Int(4) {
            Option::Some(IpCheckErrorView::CreateReqwestClient)
        } else if es.len() == 1 && es[0] == JsonModel::Int(5) {
            Option::Some(IpCheckErrorView::NotSupport)
        } else if es.len() == 2 && es[0] == JsonModel::Int(1) {
            match es[1] {
                JsonModel::Str(t) => Option::Some(IpCheckErrorView::JsonParse(t)),
                _ => Option::None,
            }
        } else if es.len() == 2 && es[0] == JsonModel::Int(2) {
            match es[1] {
                JsonModel::Str(t) => Option::Some(IpCheckErrorView::Request(t)),
                _ => Option::None,
            }
        } else if es.len() == 2 && es[0] == JsonModel::Int(3) {
            match es[1] {
                JsonModel::Str(t) => Option::Some(IpCheckErrorView::ParseIP(t)),
                _ => Option::None,
            }
        } else {
            Option::None
        },
        _ => Option::None,
    }
}

pub open spec fn spec_enc_as(o: Option<AsView>) -> JsonModel {
    match o {
        Option::None => JsonModel::Null,
        Option::Some(a) => JsonModel::Arr(
            seq![JsonModel::Int(a.number as i64), JsonModel::Str(a.name)],
        ),
    }
}

pub open spec fn spec_dec_as(m: JsonModel) -> Option<Option<AsView>> {
    match m {
        JsonModel::Null => Option::Some(Option::None),
        JsonModel::Arr(es) => if es.len() == 2 {
            match (es[0], es[1]) {
                (JsonModel::Int(x), JsonModel::Str(t)) => if 0 <= x <= 0xffffffff {
                    Option::Some(Option::Some(AsView { number: x as u32, name: t }))
                } else {
                    Option::None
                },
                _ => Option::None,
            }
        } else {
            Option::None
        },
        _ => Option::None,
    }
}

pub open spec fn spec_enc_coords(o: Option<CoordinatesView>) -> JsonModel {
    match o {
        Option::None => JsonModel::Null,
        Option::Some(c) => JsonModel::Arr(seq![JsonModel::Str(c.lat), JsonModel::Str(c.lon)]),
    }
}

pub open spec fn spec_dec_coords(m: JsonModel) -> Option<Option<CoordinatesView>> {
    match m {
        JsonModel::Null => Option::Some(Option::None),
        JsonModel::Arr(es) => if es.len() == 2 {
            match (es[0], es[1]) {
                (JsonModel::Str(lat), JsonModel::Str(lon)) => Option::Some(
                    Option::Some(CoordinatesView { lat, lon }),
                ),
                _ => Option::None,
            }
        } else {
            Option::None
        },
        _ => Option::None,
    }
}

pub open spec fn spec_enc_region(o: Option<RegionView>) -> JsonModel {
    match o {
        Option::None => JsonModel::Null,
        Option::Some(r) => JsonModel::Arr(
            seq![
                spec_enc_opt_str(r.country),
                spec_enc_opt_str(r.region),
                spec_enc_opt_str(r.city),
                spec_enc_coords(r.coordinates),
                spec_enc_opt_str(r.time_zone),
            ],
        ),
    }
}

pub open spec fn spec_dec_region(m: JsonModel) -> Option<Option<RegionView>> {
    match m {
        JsonModel::Null => Option::Some(Option::None),
        JsonModel::Arr(es) => if es.len() == 5 {
            match (
                spec_dec_opt_str(es[0]),
                spec_dec_opt_str(es[1]),
                spec_dec_opt_str(es[2]),
                spec_dec_coords(es[3]),
                spec_dec_opt_str(es[4]),
            ) {
                (
                    Option::Some(country),
                    Option::Some(region),
                    Option::Some(city),
                    Option::Some(coordinates),
                    Option::Some(time_zone),
                ) => Option::Some(
                    Option::Some(RegionView { country, region, city, coordinates, time_zone }),
                ),
                _ => Option::None,
            }
        } else {
            Option::None
        },
        _ => Option::None,
    }
}

pub open spec fn spec_enc_tag(t: RiskTagView) -> JsonModel {
    match t {
        RiskTagView::Tor => JsonModel::Int(0),
        RiskTagView::Proxy => JsonModel::Int(1),
        RiskTagView::Hosting => JsonModel::Int(2),
        RiskTagView::Relay => JsonModel::Int(3),
        RiskTagView::Mobile => JsonModel::Int(4),
        RiskTagView::Other(t) => JsonModel::Str(t),
    }
}

pub open spec fn spec_dec_tag(m: JsonModel) -> Option<RiskTagView> {
    match m {
        JsonModel::Int(x) => if x == 0 {
            Option::Some(RiskTagView::Tor)
        } else if x == 1 {
            Option::Some(RiskTagView::Proxy)
        } else if x == 2 {
            Option::Some(RiskTagView::Hosting)
        } else if x == 3 {
            Option::Some(RiskTagView::Relay)
        } else if x == 4 {
            Option::Some(RiskTagView::Mobile)
        } else {
            Option::None
        },
        JsonModel::Str(t) => Option::Some(RiskTagView::Other(t)),
        _ => Option::None,
    }
}

pub open spec fn spec_enc_tags(ts: Seq<RiskTagView>) -> Seq<JsonModel> {
    Seq::new(ts.len(), |i: int| spec_enc_tag(ts[i]))
}

pub open spec fn spec_dec_tags(ms: Seq<JsonModel>) -> Option<Seq<RiskTagView>>
    decreases ms.len(),
{
    if ms.len() == 0 {
        Option::Some(Seq::empty())
    } else {
        match spec_dec_tag(ms[0]) {
            Option::Some(t) => match spec_dec_tags(ms.drop_first()) {
                Option::Some(rest) => Option::Some(seq![t] + rest),
                Option::None => Option::None,
            },
            Option::None => Option::None,
        }
    }
}

pub open spec fn spec_enc_opt_tags(o: Option<Seq<RiskTagView>>) -> JsonModel {
    match o {
        Option::None => JsonModel::Null,
        Option::Some(ts) => JsonModel::Arr(spec_enc_tags(ts)),
    }
}

pub open spec fn spec_dec_opt_tags(m: JsonModel) -> Option<Option<Seq<RiskTagView>>> {
    match m {
        JsonModel::Null => Option::Some(Option::None),
        JsonModel::Arr(ms) => match spec_dec_tags(ms) {
            Option::Some(ts) => Option::Some(Option::Some(ts)),
            Option::None => Option::None,
        },
        _ => Option::None,
    }
}

pub open spec fn spec_enc_opt_u16(o: Option<u16>) -> JsonModel {
    match o {
        Option::None => JsonModel::Null,
        Option::Some(x) => JsonModel::Int(x as i64),
    }
}

pub open spec fn spec_dec_opt_u16(m: JsonModel) -> Option<Option<u16>> {
    match m {
        JsonModel::Null => Option::Some(Option::None),
        JsonModel::Int(x) => if 0 <= x <= 0xffff {
            Option::Some(Option::Some(x as u16))
        } else {
            Option::None
        },
        _ => Option::None,
    }
}

pub open spec fn spec_enc_risk(o: Option<RiskView>) -> JsonModel {
    match o {
        Option::None => JsonModel::Null,
        Option::Some(r) => JsonModel::Arr(
            seq![spec_enc_opt_u16(r.risk), spec_enc_opt_tags(r.tags)],
        ),
    }
}

pub open spec fn spec_dec_risk(m: JsonModel) -> Option<Option<RiskView>> {
    match m {
        JsonModel::Null => Option::Some(Option::None),
        JsonModel::Arr(es) => if es.len() == 2 {
            match (spec_dec_opt_u16(es[0]), spec_dec_opt_tags(es[1])) {
                (Option::Some(risk), Option::Some(tags)) => Option::Some(
                    Option::Some(RiskView { risk, tags }),
                ),
                _ => Option::None,
            }
        } else {
            Option::None
        },
        _ => Option::None,
    }
}

pub open spec fn spec_enc_time(o: Option<u64>) -> JsonModel {
    match o {
        Option::None => JsonModel::Null,
        Option::Some(t) => JsonModel::Arr(
            seq![
                JsonModel::Int((t as int / 0x100000000) as i64),
                JsonModel::Int((t as int % 0x100000000) as i64),
            ],
        ),
    }
}

pub open spec fn spec_dec_time(m: JsonModel) -> Option<Option<u64>> {
    match m {
        JsonModel::Null => Option::Some(Option::None),
        JsonModel::Arr(es) => if es.len() == 2 {
            match (es[0], es[1]) {
                (JsonModel::Int(hi), JsonModel::Int(lo)) => if 0 <= hi < 0x100000000 && 0 <= lo
                    < 0x100000000 {
                    Option::Some(Option::Some((hi * 0x100000000 + lo) as u64))
                } else {
                    Option::None
                },
                _ => Option::None,
            }
        } else {
            Option::None
        },
        _ => Option::None,
    }
}

/// The whole record, as one positional array of its eight fields.
pub open spec fn spec_encode(v: IpResultView) -> JsonModel {
    JsonModel::Arr(
        seq![
            JsonModel::Bool(v.success),
            spec_enc_error(v.error),
            JsonModel::Str(v.provider),
            spec_enc_opt_ip(v.ip),
            spec_enc_as(v.autonomous_system),
            spec_enc_region(v.region),
            spec_enc_risk(v.risk),
            spec_enc_time(v.used_time),
        ],
    )
}

pub open spec fn spec_decode(m: JsonModel) -> Option<IpResultView> {
    match m {
        JsonModel::Arr(es) => if es.len() == 8 {
            match es[0] {
                JsonModel::Bool(success) => match spec_dec_error(es[1]) {
                    Option::Some(error) => match es[2] {
                        JsonModel::Str(provider) => match spec_dec_opt_ip(es[3]) {
                            Option::Some(ip) => match spec_dec_as(es[4]) {
                                Option::Some(autonomous_system) => match spec_dec_region(es[5]) {
                                    Option::Some(region) => match spec_dec_risk(es[6]) {
                                        Option::Some(risk) => match spec_dec_time(es[7]) {
                                            Option::Some(used_time) => Option::Some(
                                                IpResultView {
                                                    success,
                                                    error,
                                                    provider,
                                                    ip,
                                                    autonomous_system,
                                                    region,
                                                    risk,
                                                    used_time,
                                                },
                                            ),
                                            Option::None => Option::None,
                                        },
                                        Option::None => Option::None,
                                    },
                                    Option::None => Option::None,
                                },
                                Option::None => Option::None,
                            },
                            Option::None => Option::None,
                        },
                        _ => Option::None,
                    },
                    Option::None => Option::None,
                },
                _ => Option::None,
            }
        } else {
            Option::None
        },
        _ => Option::None,
    }
}

proof fn lemma_tags_round_trip(ts: Seq<RiskTagView>)
    ensures
        spec_dec_tags(spec_enc_tags(ts)) == Some(ts),
    decreases ts.len(),
{
    let ms = spec_enc_tags(ts);
    if ts.len() == 0 {
        assert(ms =~= Seq::<JsonModel>::empty());
        assert(ts =~= Seq::<RiskTagView>::empty());
    } else {
        lemma_tags_round_trip(ts.drop_first());
        assert(ms.drop_first() =~= spec_enc_tags(ts.drop_first()));
        assert(spec_dec_tag(ms[0]) == Some(ts[0]));
        assert(seq![ts[0]] + ts.drop_first() =~= ts);
    }
}

/// Decoding an encoded record rebuilds that record: the codec loses
/// nothing and invents nothing, for every record value.
pub proof fn lemma_round_trip(v: IpResultView)
    ensures
        spec_decode(spec_encode(v)) == Some(v),
{
    match v.risk {
        Option::Some(r) => match r.tags {
            Option::Some(ts) => lemma_tags_round_trip(ts),
            Option::None => {},
        },
        Option::None => {},
    }
    match v.used_time {
        Option::Some(t) => {
            lemma_fundamental_div_mod(t as int, 0x100000000);
        },
        Option::None => {},
    }
    assert(spec_decode(spec_encode(v)) matches Some(w) && w =~= v);
}

// The executable codec.

/// Wraps elements as a JSON array; its model is the elements' models.
fn arr(items: Vec<JsonValue>) -> (j: JsonValue)
    ensures
        j@ == JsonModel::Arr(models_of(items@)),
{
    let j = JsonValue::Arr(items);
    proof {
        assert(j@ matches JsonModel::Arr(ms) && ms =~= models_of(items@));
    }
    j
}

fn enc_opt_str(o: &Option<String>) -> (j: JsonValue)
    ensures
        j@ == spec_enc_opt_str(view_opt_str(*o)),
{
    match o {
        None => JsonValue::Null,
        Some(s) => JsonValue::Str(s.clone()),
    }
}

fn dec_opt_str(j: &JsonValue) -> (r: Option<Option<String>>)
    ensures
        r matches Some(o) ==> spec_dec_opt_str(j@) == Some(view_opt_str(o)),
        r is None ==> spec_dec_opt_str(j@) is None,
{
    match j {
        JsonValue::Null => Some(None),
        JsonValue::Str(s) => Some(Some(s.clone())),
        _ => None,
    }
}

fn enc_ip(ip: &IpAddress) -> (j: JsonValue)
    ensures
        j@ == spec_enc_ip(*ip),
{
    match ip {
        IpAddress::V4(a, b, c, d) => {
            let items = vec![
                JsonValue::Int(4),
                JsonValue::Int(*a as i64),
                JsonValue::Int(*b as i64),
                JsonValue::Int(*c as i64),
                JsonValue::Int(*d as i64),
            ];
            let ghost gi = items@;
            let j = arr(items);
            proof {
                assert(gi[0]@ == JsonModel::Int(4));
                assert(gi[1]@ == JsonModel::Int(*a as i64));
                assert(gi[2]@ == JsonModel::Int(*b as i64));
                assert(gi[3]@ == JsonModel::Int(*c as i64));
                assert(gi[4]@ == JsonModel::Int(*d as i64));
                assert(spec_enc_ip(*ip) matches JsonModel::Arr(ns) && models_of(gi) =~= ns);
            }
            j
        },
        IpAddress::V6(g0, g1, g2, g3, g4, g5, g6, g7) => {
            let items = vec![
                JsonValue::Int(6),
                JsonValue::Int(*g0 as i64),
                JsonValue::Int(*g1 as i64),
                JsonValue::Int(*g2 as i64),
                JsonValue::Int(*g3 as i64),
                JsonValue::Int(*g4 as i64),
                JsonValue::Int(*g5 as i64),
                JsonValue::Int(*g6 as i64),
                JsonValue::Int(*g7 as i64),
            ];
            let ghost gi = items@;
            let j = arr(items);
            proof {
                assert(gi[0]@ == JsonModel::Int(6));
                assert(gi[1]@ == JsonModel::Int(*g0 as i64));
                assert(gi[2]@ == JsonModel::Int(*g1 as i64));
                assert(gi[3]@ == JsonModel::Int(*g2 as i64));
                assert(gi[4]@ == JsonModel::Int(*g3 as i64));
                assert(gi[5]@ == JsonModel::Int(*g4 as i64));
                assert(gi[6]@ == JsonModel::Int(*g5 as i64));
                assert(gi[7]@ == JsonModel::Int(*g6 as i64));
                assert(gi[8]@ == JsonModel::Int(*g7 as i64));
                assert(spec_enc_ip(*ip) matches JsonModel::Arr(ns) && models_of(gi) =~= ns);
            }
            j
        },
    }
}

pub open spec fn view_opt_as(o: Option<AS>) -> Option<AsView> {
    match o {
        Option::Some(a) => Option::Some(a@),
        Option::None => Option::None,
    }
}

pub open spec fn view_opt_coords(o: Option<Coordinates>) -> Option<CoordinatesView> {
    match o {
        Option::Some(c) => Option::Some(c@),
        Option::None => Option::None,
    }
}

pub open spec fn view_opt_region(o: Option<Region>) -> Option<RegionView> {
    match o {
        Option::Some(r) => Option::Some(r@),
        Option::None => Option::None,
    }
}

pub open spec fn view_opt_risk(o: Option<Risk>) -> Option<RiskView> {
    match o {
        Option::Some(r) => Option::Some(r@),
        Option::None => Option::None,
    }
}

fn enc_opt_ip(o: &Option<IpAddress>) -> (j: JsonValue)
    ensures
        j@ == spec_enc_opt_ip(*o),
{
    match o {
        None => JsonValue::Null,
        Some(ip) => enc_ip(ip),
    }
}

fn dec_opt_ip(j: &JsonValue) -> (r: Option<Option<IpAddress>>)
    ensures
        r matches Some(o) ==> spec_dec_opt_ip(j@) == Some(o),
        r is None ==> spec_dec_opt_ip(j@) is None,
{
    match j {
        JsonValue::Null => Some(None),
        JsonValue::Arr(es) => {
            proof {
                assert(j@ matches JsonModel::Arr(ms) && ms =~= models_of(es@));
            }
            if es.len() == 5 && int_tag(&es[0], 4) {
                let a = match dec_octet(&es[1]) {
                    Some(x) => x,
                    None => {
                        return None;
                    },
                };
                let b = match dec_octet(&es[2]) {
                    Some(x) => x,
                    None => {
                        return None;
                    },
                };
                let c = match dec_octet(&es[3]) {
                    Some(x) => x,
                    None => {
                        return None;
                    },
                };
                let d = match dec_octet(&es[4]) {
                    Some(x) => x,
                    None => {
                        return None;
                    },
                };
                Some(Some(IpAddress::V4(a, b, c, d)))
            } else if es.len() == 9 && int_tag(&es[0], 6) {
                let g0 = match dec_group(&es[1]) {
                    Some(x) => x,
                    None => {
                        return None;
                    },
                };
                let g1 = match dec_group(&es[2]) {
                    Some(x) => x,
                    None => {
                        return None;
                    },
                };
                let g2 = match dec_group(&es[3]) {
                    Some(x) => x,
                    None => {
                        return None;
                    },
                };
                let g3 = match dec_group(&es[4]) {
                    Some(x) => x,
                    None => {
                        return None;
                    },
                };
                let g4 = match dec_group(&es[5]) {
                    Some(x) => x,
                    None => {
                        return None;
                    },
                };
                let g5 = match dec_group(&es[6]) {
                    Some(x) => x,
                    None => {
                        return None;
                    },
                };
                let g6 = match dec_group(&es[7]) {
                    Some(x) => x,
                    None => {
                        return None;
                    },
                };
                let g7 = match dec_group(&es[8]) {
                    Some(x) => x,
                    None => {
                        return None;
                    },
                };
                Some(Some(IpAddress::V6(g0, g1, g2, g3, g4, g5, g6, g7)))
            } else {
                None
            }
        },
        _ => None,
    }
}

/// Tests whether a document is exactly the integer `tag`.
fn int_tag(j: &JsonValue, tag: i64) -> (r: bool)
    ensures
        r == (j@ == JsonModel::Int(tag)),
{
    match j {
        JsonValue::Int(x) => *x == tag,
        _ => false,
    }
}

fn dec_octet(j: &JsonValue) -> (r: Option<u8>)
    ensures
        r == dec_octet_m(j@),
{
    match j {
        JsonValue::Int(x) => if 0 <= *x && *x <= 255 {
            Some(*x as u8)
        } else {
            None
        },
        _ => None,
    }
}

fn dec_group(j: &JsonValue) -> (r: Option<u16>)
    ensures
        r == dec_group_m(j@),
{
    match j {
        JsonValue::Int(x) => if 0 <= *x && *x <= 0xffff {
            Some(*x as u16)
        } else {
            None
        },
        _ => None,
    }
}

fn enc_error(e: &IpCheckError) -> (j: JsonValue)
    ensures
        j@ == spec_enc_error(e@),
{
    match e {
        IpCheckError::No => {
            let items = vec![JsonValue::Int(0)];
            let ghost gi = items@;
            let j = arr(items);
            proof {
                assert(gi[0]@ == JsonModel::Int(0));
                assert(spec_enc_error(e@) matches JsonModel::Arr(ns) && models_of(gi) =~= ns);
            }
            j
        },
        IpCheckError::JsonParse(t) => {
            let items = vec![JsonValue::Int(1), JsonValue::Str(t.clone())];
            let ghost gi = items@;
            let j = arr(items);
            proof {
                assert(gi[0]@ == JsonModel::Int(1));
                assert(gi[1]@ == JsonModel::Str(t@));
                assert(spec_enc_error(e@) matches JsonModel::Arr(ns) && models_of(gi) =~= ns);
            }
            j
        },
        IpCheckError::Request(t) => {
            let items = vec![JsonValue::Int(2), JsonValue::Str(t.clone())];
            let ghost gi = items@;
            let j = arr(items);
            proof {
                assert(gi[0]@ == JsonModel::Int(2));
                assert(gi[1]@ == JsonModel::Str(t@));
                assert(spec_enc_error(e@) matches JsonModel::Arr(ns) && models_of(gi) =~= ns);
            }
            j
        },
        IpCheckError::ParseIP(t) => {
            let items = vec![JsonValue::Int(3), JsonValue::Str(t.clone())];
            let ghost gi = items@;
            let j = arr(items);
            proof {
                assert(gi[0]@ == JsonModel::Int(3));
                assert(gi[1]@ == JsonModel::Str(t@));
                assert(spec_enc_error(e@) matches JsonModel::Arr(ns) && models_of(gi) =~= ns);
            }
            j
        },
        IpCheckError::CreateReqwestClient => {
            let items = vec![JsonValue::Int(4)];
            let ghost gi = items@;
            let j = arr(items);
            proof {
                assert(gi[0]@ == JsonModel::Int(4));
                assert(spec_enc_error(e@) matches JsonModel::Arr(ns) && models_of(gi) =~= ns);
            }
            j
        },
        IpCheckError::NotSupport => {
            let items = vec![JsonValue::Int(5)];
            let ghost gi = items@;
            let j = arr(items);
            proof {
                assert(gi[0]@ == JsonModel::Int(5));
                assert(spec_enc_error(e@) matches JsonModel::Arr(ns) && models_of(gi) =~= ns);
            }
            j
        },
    }
}

fn dec_error(j: &JsonValue) -> (r: Option<IpCheckError>)
    ensures
        r matches Some(e) ==> spec_dec_error(j@) == Some(e@),
        r is None ==> spec_dec_error(j@) is None,
{
    match j {
        JsonValue::Arr(es) => {
            proof {
                assert(j@ matches JsonModel::Arr(ms) && ms =~= models_of(es@));
            }
            if es.len() == 1 {
                match &es[0] {
                    JsonValue::Int(x) => if *x == 0 {
                        Some(IpCheckError::No)
                    } else if *x == 4 {
                        Some(IpCheckError::CreateReqwestClient)
                    } else if *x == 5 {
                        Some(IpCheckError::NotSupport)
                    } else {
                        None
                    },
                    _ => None,
                }
            } else if es.len() == 2 {
                match (&es[0], &es[1]) {
                    (JsonValue::Int(x), JsonValue::Str(t)) => if *x == 1 {
                        Some(IpCheckError::JsonParse(t.clone()))
                    } else if *x == 2 {
                        Some(IpCheckError::Request(t.clone()))
                    } else if *x == 3 {
                        Some(IpCheckError::ParseIP(t.clone()))
                    } else {
                        None
                    },
                    _ => None,
                }
            } else {
                None
            }
        },
        _ => None,
    }
}

fn enc_as(o: &Option<AS>) -> (j: JsonValue)
    ensures
        j@ == spec_enc_as(view_opt_as(*o)),
{
    match o {
        None => JsonValue::Null,
        Some(a) => {
            let items = vec![JsonValue::Int(a.number as i64), JsonValue::Str(a.name.clone())];
            let ghost gi = items@;
            let j = arr(items);
            proof {
                assert(gi[0]@ == JsonModel::Int(a.number as i64));
                assert(gi[1]@ == JsonModel::Str(a.name@));
                assert(spec_enc_as(view_opt_as(*o)) matches JsonModel::Arr(ns) && models_of(gi)
                    =~= ns);
            }
            j
        },
    }
}

fn dec_as(j: &JsonValue) -> (r: Option<Option<AS>>)
    ensures
        r matches Some(o) ==> spec_dec_as(j@) == Some(view_opt_as(o)),
        r is None ==> spec_dec_as(j@) is None,
{
    match j {
        JsonValue::Null => Some(None),
        JsonValue::Arr(es) => {
            proof {
                assert(j@ matches JsonModel::Arr(ms) && ms =~= models_of(es@));
            }
            if es.len() == 2 {
                match (&es[0], &es[1]) {
                    (JsonValue::Int(x), JsonValue::Str(t)) => if 0 <= *x && *x <= 0xffffffff {
                        Some(Some(AS { number: *x as u32, name: t.clone() }))
                    } else {
                        None
                    },
                    _ => None,
                }
            } else {
                None
            }
        },
        _ => None,
    }
}

fn enc_coords(o: &Option<Coordinates>) -> (j: JsonValue)
    ensures
        j@ == spec_enc_coords(view_opt_coords(*o)),
{
    match o {
        None => JsonValue::Null,
        Some(c) => {
            let items = vec![JsonValue::Str(c.lat.clone()), JsonValue::Str(c.lon.clone())];
            let ghost gi = items@;
            let j = arr(items);
            proof {
                assert(gi[0]@ == JsonModel::Str(c.lat@));
                assert(gi[1]@ == JsonModel::Str(c.lon@));
                assert(spec_enc_coords(view_opt_coords(*o)) matches JsonModel::Arr(ns)
                    && models_of(gi) =~= ns);
            }
            j
        },
    }
}

fn dec_coords(j: &JsonValue) -> (r: Option<Option<Coordinates>>)
    ensures
        r matches Some(o) ==> spec_dec_coords(j@) == Some(view_opt_coords(o)),
        r is None ==> spec_dec_coords(j@) is None,
{
    match j {
        JsonValue::Null => Some(None),
        JsonValue::Arr(es) => {
            proof {
                assert(j@ matches JsonModel::Arr(ms) && ms =~= models_of(es@));
            }
            if es.len() == 2 {
                match (&es[0], &es[1]) {
                    (JsonValue::Str(lat), JsonValue::Str(lon)) => Some(
                        Some(Coordinates { lat: lat.clone(), lon: lon.clone() }),
                    ),
                    _ => None,
                }
            } else {
                None
            }
        },
        _ => None,
    }
}

fn enc_region(o: &Option<Region>) -> (j: JsonValue)
    ensures
        j@ == spec_enc_region(view_opt_region(*o)),
{
    match o {
        None => JsonValue::Null,
        Some(r) => {
            let e0 = enc_opt_str(&r.country);
            let e1 = enc_opt_str(&r.region);
            let e2 = enc_opt_str(&r.city);
            let e3 = enc_coords(&r.coordinates);
            let e4 = enc_opt_str(&r.time_zone);
            let ghost m0 = e0@;
            let ghost m1 = e1@;
            let ghost m2 = e2@;
            let ghost m3 = e3@;
            let ghost m4 = e4@;
            let items = vec![e0, e1, e2, e3, e4];
            let ghost gi = items@;
            let j = arr(items);
            proof {
                assert(gi[0]@ == m0);
                assert(gi[1]@ == m1);
                assert(gi[2]@ == m2);
                assert(gi[3]@ == m3);
                assert(gi[4]@ == m4);
                assert(spec_enc_region(view_opt_region(*o)) matches JsonModel::Arr(ns)
                    && models_of(gi) =~= ns);
            }
            j
        },
    }
}

fn dec_region(j: &JsonValue) -> (r: Option<Option<Region>>)
    ensures
        r matches Some(o) ==> spec_dec_region(j@) == Some(view_opt_region(o)),
        r is None ==> spec_dec_region(j@) is None,
{
    match j {
        JsonValue::Null => Some(None),
        JsonValue::Arr(es) => {
            proof {
                assert(j@ matches JsonModel::Arr(ms) && ms =~= models_of(es@));
            }
            if es.len() == 5 {
                let country = match dec_opt_str(&es[0]) {
                    Some(x) => x,
                    None => {
                        return None;
                    },
                };
                let region = match dec_opt_str(&es[1]) {
                    Some(x) => x,
                    None => {
                        return None;
                    },
                };
                let city = match dec_opt_str(&es[2]) {
                    Some(x) => x,
                    None => {
                        return None;
                    },
                };
                let coordinates = match dec_coords(&es[3]) {
                    Some(x) => x,
                    None => {
                        return None;
                    },
                };
                let time_zone = match dec_opt_str(&es[4]) {
                    Some(x) => x,
                    None => {
                        return None;
                    },
                };
                Some(Some(Region { country, region, city, coordinates, time_zone }))
            } else {
                None
            }
        },
        _ => None,
    }
}

fn enc_tag(t: &RiskTag) -> (j: JsonValue)
    ensures
        j@ == spec_enc_tag(t@),
{
    match t {
        RiskTag::Tor => JsonValue::Int(0),
        RiskTag::Proxy => JsonValue::Int(1),
        RiskTag::Hosting => JsonValue::Int(2),
        RiskTag::Relay => JsonValue::Int(3),
        RiskTag::Mobile => JsonValue::Int(4),
        RiskTag::Other(t) => JsonValue::Str(t.clone()),
    }
}

fn dec_tag(j: &JsonValue) -> (r: Option<RiskTag>)
    ensures
        r matches Some(t) ==> spec_dec_tag(j@) == Some(t@),
        r is None ==> spec_dec_tag(j@) is None,
{
    match j {
        JsonValue::Int(x) => if *x == 0 {
            Some(RiskTag::Tor)
        } else if *x == 1 {
            Some(RiskTag::Proxy)
        } else if *x == 2 {
            Some(RiskTag::Hosting)
        } else if *x == 3 {
            Some(RiskTag::Relay)
        } else if *x == 4 {
            Some(RiskTag::Mobile)
        } else {
            None
        },
        JsonValue::Str(t) => Some(RiskTag::Other(t.clone())),
        _ => None,
    }
}

fn enc_tags(ts: &Vec<RiskTag>) -> (out: Vec<JsonValue>)
    ensures
        models_of(out@) == spec_enc_tags(ts@.map_values(|t: RiskTag| t@)),
{
    let mut out: Vec<JsonValue> = Vec::new();
    let mut i: usize = 0;
    while i < ts.len()
        invariant
            i <= ts@.len(),
            out@.len() == i,
            forall|k: int| 0 <= k < i ==> (#[trigger] out@[k])@ == spec_enc_tag(ts@[k]@),
        decreases ts@.len() - i,
    {
        let j = enc_tag(&ts[i]);
        out.push(j);
        i = i + 1;
    }
    proof {
        assert(models_of(out@) =~= spec_enc_tags(ts@.map_values(|t: RiskTag| t@)));
    }
    out
}

fn dec_tags_from(es: &Vec<JsonValue>, i: usize) -> (r: Option<Vec<RiskTag>>)
    requires
        i <= es@.len(),
    ensures
        r matches Some(ts) ==> spec_dec_tags(models_of(es@).skip(i as int)) == Some(
            ts@.map_values(|t: RiskTag| t@),
        ),
        r is None ==> spec_dec_tags(models_of(es@).skip(i as int)) is None,
    decreases es@.len() - i,
{
    let ghost ms = models_of(es@);
    if i == es.len() {
        let out: Vec<RiskTag> = Vec::new();
        proof {
            assert(ms.skip(i as int) =~= Seq::<JsonModel>::empty());
            assert(out@.map_values(|t: RiskTag| t@) =~= Seq::<RiskTagView>::empty());
        }
        Some(out)
    } else {
        proof {
            assert(ms.skip(i as int)[0] == ms[i as int]);
            assert(ms[i as int] == es@[i as int]@);
        }
        match dec_tag(&es[i]) {
            None => None,
            Some(t) => match dec_tags_from(es, i + 1) {
                None => {
                    proof {
                        assert(ms.skip(i as int).drop_first() =~= ms.skip(i as int + 1));
                    }
                    None
                },
                Some(rest) => {
                    let mut out = rest;
                    out.insert(0, t);
                    proof {
                        assert(ms.skip(i as int).drop_first() =~= ms.skip(i as int + 1));
                        assert(out@.map_values(|t: RiskTag| t@) =~= seq![t@] + (
                        out@.drop_first().map_values(|t: RiskTag| t@)));
                    }
                    Some(out)
                },
            },
        }
    }
}

fn enc_risk(o: &Option<Risk>) -> (j: JsonValue)
    ensures
        j@ == spec_enc_risk(view_opt_risk(*o)),
{
    match o {
        None => JsonValue::Null,
        Some(r) => {
            let score = match &r.risk {
                None => JsonValue::Null,
                Some(x) => JsonValue::Int(*x as i64),
            };
            let tags = match &r.tags {
                None => JsonValue::Null,
                Some(ts) => arr(enc_tags(ts)),
            };
            let ghost m0 = score@;
            let ghost m1 = tags@;
            proof {
                assert(m0 == spec_enc_opt_u16(r.risk));
                assert(m1 == spec_enc_opt_tags(r@.tags));
            }
            let items = vec![score, tags];
            let ghost gi = items@;
            let j = arr(items);
            proof {
                assert(gi[0]@ == m0);
                assert(gi[1]@ == m1);
                assert(spec_enc_risk(view_opt_risk(*o)) matches JsonModel::Arr(ns)
                    && models_of(gi) =~= ns);
            }
            j
        },
    }
}

fn dec_risk(j: &JsonValue) -> (r: Option<Option<Risk>>)
    ensures
        r matches Some(o) ==> spec_dec_risk(j@) == Some(view_opt_risk(o)),
        r is None ==> spec_dec_risk(j@) is None,
{
    match j {
        JsonValue::Null => Some(None),
        JsonValue::Arr(es) => {
            proof {
                assert(j@ matches JsonModel::Arr(ms) && ms =~= models_of(es@));
            }
            if es.len() == 2 {
                let score = match &es[0] {
                    JsonValue::Null => None,
                    JsonValue::Int(x) => if 0 <= *x && *x <= 0xffff {
                        Some(*x as u16)
                    } else {
                        return None;
                    },
                    _ => {
                        return None;
                    },
                };
                let tags = match &es[1] {
                    JsonValue::Null => None,
                    JsonValue::Arr(inner) => match dec_tags_from(inner, 0) {
                        Some(ts) => {
                            proof {
                                assert(models_of(inner@).skip(0) =~= models_of(inner@));
                                assert(es@[1]@ matches JsonModel::Arr(ims) && ims =~= models_of(
                                    inner@,
                                ));
                            }
                            Some(ts)
                        },
                        None => {
                            proof {
                                assert(models_of(inner@).skip(0) =~= models_of(inner@));
                                assert(es@[1]@ matches JsonModel::Arr(ims) && ims =~= models_of(
                                    inner@,
                                ));
                            }
                            return None;
                        },
                    },
                    _ => {
                        return None;
                    },
                };
                Some(Some(Risk { risk: score, tags }))
            } else {
                None
            }
        },
        _ => None,
    }
}

fn enc_time(o: &Option<u64>) -> (j: JsonValue)
    ensures
        j@ == spec_enc_time(*o),
{
    match o {
        None => JsonValue::Null,
        Some(t) => {
            proof {
                lemma_div_is_ordered(*t as int, 0xffffffffffffffff, 0x100000000);
            }
            let hi = *t / 0x100000000;
            let lo = *t % 0x100000000;
            let items = vec![JsonValue::Int(hi as i64), JsonValue::Int(lo as i64)];
            let ghost gi = items@;
            let j = arr(items);
            proof {
                assert(gi[0]@ == JsonModel::Int(hi as i64));
                assert(gi[1]@ == JsonModel::Int(lo as i64));
                assert(spec_enc_time(*o) matches JsonModel::Arr(ns) && models_of(gi) =~= ns);
            }
            j
        },
    }
}

fn dec_time(j: &JsonValue) -> (r: Option<Option<u64>>)
    ensures
        r matches Some(o) ==> spec_dec_time(j@) == Some(o),
        r is None ==> spec_dec_time(j@) is None,
{
    match j {
        JsonValue::Null => Some(None),
        JsonValue::Arr(es) => {
            proof {
                assert(j@ matches JsonModel::Arr(ms) && ms =~= models_of(es@));
            }
            if es.len() == 2 {
                match (&es[0], &es[1]) {
                    (JsonValue::Int(hi), JsonValue::Int(lo)) => if 0 <= *hi && *hi < 0x100000000
                        && 0 <= *lo && *lo < 0x100000000 {
                        Some(Some((*hi as u64) * 0x100000000 + (*lo as u64)))
                    } else {
                        None
                    },
                    _ => None,
                }
            } else {
                None
            }
        },
        _ => None,
    }
}

/// Encodes a record into its positional document form.
pub fn encode_record(r: &IpResult) -> (j: JsonValue)
    ensures
        j@ == spec_encode(r@),
{
    let e0 = JsonValue::Bool(r.success);
    let e1 = enc_error(&r.error);
    let e2 = JsonValue::Str(r.provider.clone());
    let e3 = enc_opt_ip(&r.ip);
    let e4 = enc_as(&r.autonomous_system);
    let e5 = enc_region(&r.region);
    let e6 = enc_risk(&r.risk);
    let e7 = enc_time(&r.used_time);
    let ghost ms = seq![e0@, e1@, e2@, e3@, e4@, e5@, e6@, e7@];
    let items = vec![e0, e1, e2, e3, e4, e5, e6, e7];
    let ghost gi = items@;
    let j = arr(items);
    proof {
        assert(gi[0]@ == ms[0]);
        assert(gi[1]@ == ms[1]);
        assert(gi[2]@ == ms[2]);
        assert(gi[3]@ == ms[3]);
        assert(gi[4]@ == ms[4]);
        assert(gi[5]@ == ms[5]);
        assert(gi[6]@ == ms[6]);
        assert(gi[7]@ == ms[7]);
        assert(spec_encode(r@) matches JsonModel::Arr(ns) && models_of(gi) =~= ns);
    }
    j
}

/// Decodes a positional document back into a record; yields nothing on
/// any document the encoder cannot have produced.
pub fn decode_record(j: &JsonValue) -> (r: Option<IpResult>)
    ensures
        r matches Some(rec) ==> spec_decode(j@) == Some(rec@),
        r is None ==> spec_decode(j@) is None,
{
    match j {
        JsonValue::Arr(es) => {
            proof {
                assert(j@ matches JsonModel::Arr(ms) && ms =~= models_of(es@));
            }
            if es.len() == 8 {
                let success = match &es[0] {
                    JsonValue::Bool(b) => *b,
                    _ => {
                        return None;
                    },
                };
                let error = match dec_error(&es[1]) {
                    Some(x) => x,
                    None => {
                        return None;
                    },
                };
                let provider = match &es[2] {
                    JsonValue::Str(s) => s.clone(),
                    _ => {
                        return None;
                    },
                };
                let ip = match dec_opt_ip(&es[3]) {
                    Some(x) => x,
                    None => {
                        return None;
                    },
                };
                let autonomous_system = match dec_as(&es[4]) {
                    Some(x) => x,
                    None => {
                        return None;
                    },
                };
                let region = match dec_region(&es[5]) {
                    Some(x) => x,
                    None => {
                        return None;
                    },
                };
                let risk = match dec_risk(&es[6]) {
                    Some(x) => x,
                    None => {
                        return None;
                    },
                };
                let used_time = match dec_time(&es[7]) {
                    Some(x) => x,
                    None => {
                        return None;
                    },
                };
                let rec = IpResult {
                    success,
                    error,
                    provider,
                    ip,
                    autonomous_system,
                    region,
                    risk,
                    used_time,
                };
                proof {
                    assert(spec_decode(j@) matches Some(w) && w =~= rec@);
                }
                Some(rec)
            } else {
                None
            }
        },
        _ => None,
    }
}

} // verus!
