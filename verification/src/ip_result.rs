//! The canonical result record: one per provider probe, with the closed
//! failure taxonomy, its invariant, and the deterministic batch order.
//!
//! Invariant: a record succeeds exactly when its error is `No`, and a
//! failed record carries no address, network, region or risk data.
//!
//! Batch order: primary key is the length of the address's textual form
//! (absent address counts as length zero), secondary key is the provider
//! name, lexicographic by character scalar value, tertiary key is the
//! elapsed time, ascending with absent before present. The sort is stable.

use vstd::prelude::*;
use vstd::string::*;
use crate::ip_addr::{IpAddress, spec_ip_text, ip_text_len};

verus! {

/// The closed failure taxonomy; `No` means success.
#[derive(Debug, Default, Clone, PartialEq, Eq)]
pub enum IpCheckError {
    #[default]
    No,
    JsonParse(String),
    Request(String),
    ParseIP(String),
    CreateReqwestClient,
    NotSupport,
}

/// The canonical normalized record for one provider probe.
#[derive(Debug, Default, Clone, PartialEq)]
pub struct IpResult {
    pub success: bool,
    pub error: IpCheckError,
    pub provider: String,
    pub ip: Option<IpAddress>,
    pub autonomous_system: Option<AS>,
    pub region: Option<Region>,
    pub risk: Option<Risk>,
    /// Elapsed time of the probe itself, in milliseconds.
    pub used_time: Option<u64>,
}

/// The autonomous system owning an address.
#[derive(Debug, Default, Clone, PartialEq, Eq)]
pub struct AS {
    pub number: u32,
    pub name: String,
}

/// Geographic data for an address.
#[derive(Debug, Default, Clone, PartialEq, Eq)]
pub struct Region {
    pub country: Option<String>,
    pub region: Option<String>,
    pub city: Option<String>,
    pub coordinates: Option<Coordinates>,
    pub time_zone: Option<String>,
}

/// Coordinates as decimal strings, exactly as a provider reported them.
#[derive(Debug, Default, Clone, PartialEq, Eq)]
pub struct Coordinates {
    pub lat: String,
    pub lon: String,
}

/// Abuse and anonymization classification.
#[derive(Debug, Default, Clone, PartialEq, Eq)]
pub struct Risk {
    pub risk: Option<u16>,
    pub tags: Option<Vec<RiskTag>>,
}

/// A categorical label for suspected non-residential or anonymizing use.
#[derive(Debug, Clone, PartialEq, Eq, Hash)]
pub enum RiskTag {
    Tor,
    Proxy,
    Hosting,
    Relay,
    Mobile,
    Other(String),
}

// Ghost mirrors of the record types, with sequences in place of strings,
// so that contracts can speak of whole record values.

#[verifier::ext_equal]
pub enum IpCheckErrorView {
    No,
    JsonParse(Seq<char>),
    Request(Seq<char>),
    ParseIP(Seq<char>),
    CreateReqwestClient,
    NotSupport,
}

#[verifier::ext_equal]
pub struct AsView {
    pub number: u32,
    pub name: Seq<char>,
}

#[verifier::ext_equal]
pub struct CoordinatesView {
    pub lat: Seq<char>,
    pub lon: Seq<char>,
}

#[verifier::ext_equal]
pub struct RegionView {
    pub country: Option<Seq<char>>,
    pub region: Option<Seq<char>>,
    pub city: Option<Seq<char>>,
    pub coordinates: Option<CoordinatesView>,
    pub time_zone: Option<Seq<char>>,
}

#[verifier::ext_equal]
pub enum RiskTagView {
    Tor,
    Proxy,
    Hosting,
    Relay,
    Mobile,
    Other(Seq<char>),
}

#[verifier::ext_equal]
pub struct RiskView {
    pub risk: Option<u16>,
    pub tags: Option<Seq<RiskTagView>>,
}

#[verifier::ext_equal]
pub struct IpResultView {
    pub success: bool,
    pub error: IpCheckErrorView,
    pub provider: Seq<char>,
    pub ip: Option<IpAddress>,
    pub autonomous_system: Option<AsView>,
    pub region: Option<RegionView>,
    pub risk: Option<RiskView>,
    pub used_time: Option<u64>,
}

pub open spec fn view_opt_str(o: Option<String>) -> Option<Seq<char>> {
    match o {
        Option::Some(s) => Option::Some(s@),
        Option::None => Option::None,
    }
}

impl View for IpCheckError {
    type V = IpCheckErrorView;

    open spec fn view(&self) -> IpCheckErrorView {
        match *self {
            IpCheckError::No => IpCheckErrorView::No,
            IpCheckError::JsonParse(m) => IpCheckErrorView::JsonParse(m@),
            IpCheckError::Request(m) => IpCheckErrorView::Request(m@),
            IpCheckError::ParseIP(m) => IpCheckErrorView::ParseIP(m@),
            IpCheckError::CreateReqwestClient => IpCheckErrorView::CreateReqwestClient,
            IpCheckError::NotSupport => IpCheckErrorView::NotSupport,
        }
    }
}

impl View for AS {
    type V = AsView;

    open spec fn view(&self) -> AsView {
        AsView { number: self.number, name: self.name@ }
    }
}

impl View for Coordinates {
    type V = CoordinatesView;

    open spec fn view(&self) -> CoordinatesView {
        CoordinatesView { lat: self.lat@, lon: self.lon@ }
    }
}

impl View for Region {
    type V = RegionView;

    open spec fn view(&self) -> RegionView {
        RegionView {
            country: view_opt_str(self.country),
            region: view_opt_str(self.region),
            city: view_opt_str(self.city),
            coordinates: match self.coordinates {
                Option::Some(c) => Option::Some(c@),
                Option::None => Option::None,
            },
            time_zone: view_opt_str(self.time_zone),
        }
    }
}

impl View for RiskTag {
    type V = RiskTagView;

    open spec fn view(&self) -> RiskTagView {
        match *self {
            RiskTag::Tor => RiskTagView::Tor,
            RiskTag::Proxy => RiskTagView::Proxy,
            RiskTag::Hosting => RiskTagView::Hosting,
            RiskTag::Relay => RiskTagView::Relay,
            RiskTag::Mobile => RiskTagView::Mobile,
            RiskTag::Other(m) => RiskTagView::Other(m@),
        }
    }
}

impl View for Risk {
    type V = RiskView;

    open spec fn view(&self) -> RiskView {
        RiskView {
            risk: self.risk,
            tags: match self.tags {
                Option::Some(ts) => Option::Some(ts@.map_values(|t: RiskTag| t@)),
                Option::None => Option::None,
            },
        }
    }
}

impl View for IpResult {
    type V = IpResultView;

    open spec fn view(&self) -> IpResultView {
        IpResultView {
            success: self.success,
            error: self.error@,
            provider: self.provider@,
            ip: self.ip,
            autonomous_system: match self.autonomous_system {
                Option::Some(a) => Option::Some(a@),
                Option::None => Option::None,
            },
            region: match self.region {
                Option::Some(r) => Option::Some(r@),
                Option::None => Option::None,
            },
            risk: match self.risk {
                Option::Some(r) => Option::Some(r@),
                Option::None => Option::None,
            },
            used_time: self.used_time,
        }
    }
}

impl IpResult {
    /// The record invariant: success exactly when the error is `No`, and
    /// a failed record carries no data fields.
    pub open spec fn is_canonical(self) -> bool {
        &&& self.success <==> self.error is No
        &&& !self.success ==> {
            &&& self.ip is None
            &&& self.autonomous_system is None
            &&& self.region is None
            &&& self.risk is None
        }
    }
}

/// A failure record for `provider`: no data fields.
pub open spec fn is_bare_failure(r: IpResult, provider: Seq<char>) -> bool {
    &&& !r.success
    &&& r.provider@ == provider
    &&& r.ip is None
    &&& r.autonomous_system is None
    &&& r.region is None
    &&& r.risk is None
}

pub open spec fn is_json_parse_failure(r: IpResult, provider: Seq<char>, message: Seq<char>) -> bool {
    &&& is_bare_failure(r, provider)
    &&& r.error matches IpCheckError::JsonParse(m) && m@ == message
}

pub open spec fn is_request_failure(r: IpResult, provider: Seq<char>, message: Seq<char>) -> bool {
    &&& is_bare_failure(r, provider)
    &&& r.error matches IpCheckError::Request(m) && m@ == message
}

pub open spec fn is_parse_ip_failure(r: IpResult, provider: Seq<char>, message: Seq<char>) -> bool {
    &&& is_bare_failure(r, provider)
    &&& r.error matches IpCheckError::ParseIP(m) && m@ == message
}

pub open spec fn is_client_failure(r: IpResult, provider: Seq<char>) -> bool {
    &&& is_bare_failure(r, provider)
    &&& r.error is CreateReqwestClient
}

pub open spec fn is_not_support_failure(r: IpResult, provider: Seq<char>) -> bool {
    &&& is_bare_failure(r, provider)
    &&& r.error is NotSupport
}

/// A failure record reporting an unparseable provider body.
pub fn json_parse_error_ip_result(provider: &str, message: &str) -> (r: IpResult)
    ensures
        is_json_parse_failure(r, provider@, message@),
        r.used_time is None,
        r.is_canonical(),
{
    IpResult {
        success: false,
        error: IpCheckError::JsonParse(message.to_owned()),
        provider: provider.to_owned(),
        ip: None,
        autonomous_system: None,
        region: None,
        risk: None,
        used_time: None,
    }
}

/// A failure record reporting a transport-level failure.
pub fn request_error_ip_result(provider: &str, message: &str) -> (r: IpResult)
    ensures
        is_request_failure(r, provider@, message@),
        r.used_time is None,
        r.is_canonical(),
{
    IpResult {
        success: false,
        error: IpCheckError::Request(message.to_owned()),
        provider: provider.to_owned(),
        ip: None,
        autonomous_system: None,
        region: None,
        risk: None,
        used_time: None,
    }
}

/// A failure record reporting a missing or mistyped field.
pub fn parse_ip_error_ip_result(provider: &str, message: &str) -> (r: IpResult)
    ensures
        is_parse_ip_failure(r, provider@, message@),
        r.used_time is None,
        r.is_canonical(),
{
    IpResult {
        success: false,
        error: IpCheckError::ParseIP(message.to_owned()),
        provider: provider.to_owned(),
        ip: None,
        autonomous_system: None,
        region: None,
        risk: None,
        used_time: None,
    }
}

/// A failure record reporting that no transport client could be built.
pub fn create_reqwest_client_error(provider: &str) -> (r: IpResult)
    ensures
        is_client_failure(r, provider@),
        r.used_time is None,
        r.is_canonical(),
{
    IpResult {
        success: false,
        error: IpCheckError::CreateReqwestClient,
        provider: provider.to_owned(),
        ip: None,
        autonomous_system: None,
        region: None,
        risk: None,
        used_time: None,
    }
}

/// A failure record reporting a lookup mode the provider does not offer.
pub fn not_support_error(provider: &str) -> (r: IpResult)
    ensures
        is_not_support_failure(r, provider@),
        r.used_time is None,
        r.is_canonical(),
{
    IpResult {
        success: false,
        error: IpCheckError::NotSupport,
        provider: provider.to_owned(),
        ip: None,
        autonomous_system: None,
        region: None,
        risk: None,
        used_time: None,
    }
}

// The batch order.

/// Primary sort key: length of the address's textual form, zero if absent.
pub open spec fn spec_ip_len(r: IpResult) -> nat {
    match r.ip {
        Option::Some(ip) => spec_ip_text(ip).len(),
        Option::None => 0,
    }
}

/// Strict lexicographic order on character sequences, by scalar value.
pub open spec fn spec_str_lt(a: Seq<char>, b: Seq<char>) -> bool
    decreases a.len(),
{
    if b.len() == 0 {
        false
    } else if a.len() == 0 {
        true
    } else if a[0] == b[0] {
        spec_str_lt(a.drop_first(), b.drop_first())
    } else {
        (a[0] as u32) < (b[0] as u32)
    }
}

/// Elapsed-time order: absent sorts before present.
pub open spec fn spec_time_le(a: Option<u64>, b: Option<u64>) -> bool {
    match (a, b) {
        (Option::None, _) => true,
        (Option::Some(_), Option::None) => false,
        (Option::Some(x), Option::Some(y)) => x <= y,
    }
}

/// The total batch order: `a` may stand no later than `b`.
pub open spec fn spec_le(a: IpResult, b: IpResult) -> bool {
    if spec_ip_len(a) != spec_ip_len(b) {
        spec_ip_len(a) < spec_ip_len(b)
    } else if a.provider@ != b.provider@ {
        spec_str_lt(a.provider@, b.provider@)
    } else {
        spec_time_le(a.used_time, b.used_time)
    }
}

/// Stable insertion into a sorted sequence: the new record, which arrived
/// last, goes after every record it does not strictly precede.
pub open spec fn spec_insert(s: Seq<IpResult>, x: IpResult) -> Seq<IpResult>
    decreases s.len(),
{
    if s.len() == 0 {
        seq![x]
    } else if spec_le(s[0], x) {
        seq![s[0]] + spec_insert(s.drop_first(), x)
    } else {
        seq![x] + s
    }
}

/// Stable insertion sort: processes records in arrival order.
pub open spec fn spec_sort(s: Seq<IpResult>) -> Seq<IpResult>
    decreases s.len(),
{
    if s.len() == 0 {
        Seq::empty()
    } else {
        spec_insert(spec_sort(s.drop_last()), s.last())
    }
}

/// Strict lexicographic order, decided character by character.
pub fn str_lt(a: &str, b: &str) -> (r: bool)
    ensures
        r == spec_str_lt(a@, b@),
{
    let alen = a.unicode_len();
    let blen = b.unicode_len();
    let mut i: usize = 0;
    proof {
        assert(a@.skip(0) =~= a@);
        assert(b@.skip(0) =~= b@);
    }
    loop
        invariant
            i <= alen,
            i <= blen,
            alen == a@.len(),
            blen == b@.len(),
            spec_str_lt(a@, b@) == spec_str_lt(a@.skip(i as int), b@.skip(i as int)),
        decreases alen - i,
    {
        if i >= blen {
            proof {
                assert(b@.skip(i as int).len() == 0);
            }
            return false;
        }
        if i >= alen {
            proof {
                assert(a@.skip(i as int).len() == 0);
            }
            return true;
        }
        let ca = a.get_char(i);
        let cb = b.get_char(i);
        if ca != cb {
            proof {
                assert(a@.skip(i as int)[0] == ca);
                assert(b@.skip(i as int)[0] == cb);
            }
            return (ca as u32) < (cb as u32);
        }
        proof {
            assert(a@.skip(i as int).drop_first() =~= a@.skip(i as int + 1));
            assert(b@.skip(i as int).drop_first() =~= b@.skip(i as int + 1));
        }
        i = i + 1;
    }
}

/// Decides the batch order between two records.
pub fn record_le(a: &IpResult, b: &IpResult) -> (r: bool)
    ensures
        r == spec_le(*a, *b),
{
    let la = match &a.ip {
        Some(ip) => ip_text_len(ip),
        None => 0,
    };
    let lb = match &b.ip {
        Some(ip) => ip_text_len(ip),
        None => 0,
    };
    if la != lb {
        la < lb
    } else if !(a.provider == b.provider) {
        str_lt(a.provider.as_str(), b.provider.as_str())
    } else {
        match (&a.used_time, &b.used_time) {
            (None, _) => true,
            (Some(_), None) => false,
            (Some(x), Some(y)) => *x <= *y,
        }
    }
}

proof fn lemma_spec_insert_at(s: Seq<IpResult>, x: IpResult, i: int)
    requires
        0 <= i <= s.len(),
        forall|j: int| 0 <= j < i ==> spec_le(s[j], x),
        i < s.len() ==> !spec_le(s[i], x),
    ensures
        spec_insert(s, x) == s.subrange(0, i) + seq![x] + s.subrange(i, s.len() as int),
    decreases i,
{
    if s.len() == 0 {
        assert(spec_insert(s, x) =~= s.subrange(0, i) + seq![x] + s.subrange(i, s.len() as int));
    } else if i == 0 {
        assert(spec_insert(s, x) =~= s.subrange(0, i) + seq![x] + s.subrange(i, s.len() as int));
    } else {
        assert(spec_le(s[0], x));
        lemma_spec_insert_at(s.drop_first(), x, i - 1);
        assert(spec_insert(s, x) =~= s.subrange(0, i) + seq![x] + s.subrange(i, s.len() as int));
    }
}

/// Inserts a record at its stable position in a sorted vector.
fn insert_record(out: &mut Vec<IpResult>, x: IpResult)
    ensures
        final(out)@ == spec_insert(old(out)@, x),
{
    let ghost s = out@;
    let mut i: usize = 0;
    while i < out.len() && record_le(&out[i], &x)
        invariant
            out@ == s,
            i <= out.len(),
            forall|j: int| 0 <= j < i ==> spec_le(s[j], x),
        decreases out.len() - i,
    {
        i = i + 1;
    }
    proof {
        lemma_spec_insert_at(s, x, i as int);
    }
    out.insert(i, x);
    proof {
        assert(out@ =~= s.subrange(0, i as int) + seq![x] + s.subrange(i as int, s.len() as int));
    }
}

/// Sorts records into the batch order; the sort is stable by construction
/// of `spec_sort`.
pub fn sort_records(v: &mut Vec<IpResult>)
    ensures
        final(v)@ == spec_sort(old(v)@),
{
    let ghost orig = v@;
    let mut out: Vec<IpResult> = Vec::new();
    proof {
        assert(orig.take(0) =~= Seq::<IpResult>::empty());
        assert(orig.skip(0) =~= orig);
    }
    loop
        invariant
            v@.len() <= orig.len(),
            out@ == spec_sort(orig.take(orig.len() - v@.len())),
            v@ == orig.skip(orig.len() - v@.len()),
        ensures
            v@.len() == 0,
        decreases v@.len(),
    {
        if v.len() == 0 {
            break;
        }
        let ghost k = orig.len() - v@.len();
        let x = v.remove(0);
        proof {
            assert(orig.skip(k)[0] == orig[k]);
            assert(x == orig[k]);
            assert(v@ =~= orig.skip(k + 1));
            assert(orig.take(k + 1).drop_last() =~= orig.take(k));
            assert(orig.take(k + 1).last() == orig[k]);
        }
        insert_record(&mut out, x);
        proof {
            assert(out@ == spec_insert(spec_sort(orig.take(k)), orig[k]));
            assert(out@ == spec_sort(orig.take(k + 1)));
        }
    }
    proof {
        assert(orig.take(orig.len() as int) =~= orig);
    }
    *v = out;
}

// Laws of the batch order and of the sort.

/// The batch is sorted: no record stands after one it must precede.
pub open spec fn spec_sorted(s: Seq<IpResult>) -> bool {
    forall|i: int, j: int| 0 <= i < j < s.len() ==> spec_le(#[trigger] s[i], #[trigger] s[j])
}

proof fn lemma_str_lt_irrefl(a: Seq<char>)
    ensures
        !spec_str_lt(a, a),
    decreases a.len(),
{
    if a.len() != 0 {
        lemma_str_lt_irrefl(a.drop_first());
    }
}

proof fn lemma_str_lt_total(a: Seq<char>, b: Seq<char>)
    requires
        a != b,
    ensures
        spec_str_lt(a, b) || spec_str_lt(b, a),
    decreases a.len(),
{
    if b.len() == 0 {
        if a.len() == 0 {
            assert(a =~= b);
        }
    } else if a.len() == 0 {
    } else if a[0] == b[0] {
        if a.drop_first() == b.drop_first() {
            assert(a =~= seq![a[0]] + a.drop_first());
            assert(b =~= seq![b[0]] + b.drop_first());
        }
        lemma_str_lt_total(a.drop_first(), b.drop_first());
    } else {
        vstd::utf8::char_u32_cast(a[0], a[0] as u32);
        vstd::utf8::char_u32_cast(b[0], b[0] as u32);
    }
}

proof fn lemma_str_lt_trans(a: Seq<char>, b: Seq<char>, c: Seq<char>)
    requires
        spec_str_lt(a, b),
        spec_str_lt(b, c),
    ensures
        spec_str_lt(a, c),
    decreases a.len() + b.len() + c.len(),
{
    if c.len() == 0 || b.len() == 0 {
    } else if a.len() == 0 {
    } else if a[0] == b[0] && b[0] == c[0] {
        lemma_str_lt_trans(a.drop_first(), b.drop_first(), c.drop_first());
    }
}

/// The batch order is total: of any two records, one may stand first.
pub proof fn lemma_le_total(a: IpResult, b: IpResult)
    ensures
        spec_le(a, b) || spec_le(b, a),
{
    if spec_ip_len(a) == spec_ip_len(b) && a.provider@ != b.provider@ {
        lemma_str_lt_total(a.provider@, b.provider@);
    }
}

/// The batch order is transitive.
pub proof fn lemma_le_trans(a: IpResult, b: IpResult, c: IpResult)
    requires
        spec_le(a, b),
        spec_le(b, c),
    ensures
        spec_le(a, c),
{
    if spec_ip_len(a) == spec_ip_len(b) && spec_ip_len(b) == spec_ip_len(c) {
        if a.provider@ != b.provider@ && b.provider@ != c.provider@ {
            lemma_str_lt_trans(a.provider@, b.provider@, c.provider@);
            if a.provider@ == c.provider@ {
                lemma_str_lt_trans(a.provider@, b.provider@, a.provider@);
                lemma_str_lt_irrefl(a.provider@);
            }
        }
    }
}

proof fn lemma_insert_elems(s: Seq<IpResult>, x: IpResult)
    ensures
        spec_insert(s, x).len() == s.len() + 1,
        forall|k: int|
            0 <= k < spec_insert(s, x).len() ==> (#[trigger] spec_insert(s, x)[k] == x
                || s.contains(spec_insert(s, x)[k])),
    decreases s.len(),
{
    let r = spec_insert(s, x);
    if s.len() == 0 {
        assert(r =~= seq![x]);
    } else if spec_le(s[0], x) {
        lemma_insert_elems(s.drop_first(), x);
        let t = spec_insert(s.drop_first(), x);
        assert(r =~= seq![s[0]] + t);
        assert forall|k: int| 0 <= k < r.len() implies (#[trigger] r[k] == x || s.contains(
            r[k],
        )) by {
            if k == 0 {
                assert(s[0] == r[0]);
                assert(s.contains(s[0]));
            } else {
                assert(r[k] == t[k - 1]);
                if t[k - 1] != x {
                    let j = choose|j: int|
                        0 <= j < s.drop_first().len() && s.drop_first()[j] == t[k - 1];
                    assert(s[j + 1] == t[k - 1]);
                }
            }
        }
    } else {
        assert(r =~= seq![x] + s);
        assert forall|k: int| 0 <= k < r.len() implies (#[trigger] r[k] == x || s.contains(
            r[k],
        )) by {
            if k > 0 {
                assert(r[k] == s[k - 1]);
            }
        }
    }
}

proof fn lemma_insert_preserves_sorted(s: Seq<IpResult>, x: IpResult)
    requires
        spec_sorted(s),
    ensures
        spec_sorted(spec_insert(s, x)),
    decreases s.len(),
{
    let r = spec_insert(s, x);
    if s.len() == 0 {
    } else if spec_le(s[0], x) {
        let rest = s.drop_first();
        assert(spec_sorted(rest)) by {
            assert forall|i: int, j: int| 0 <= i < j < rest.len() implies spec_le(
                #[trigger] rest[i],
                #[trigger] rest[j],
            ) by {
                assert(rest[i] == s[i + 1]);
                assert(rest[j] == s[j + 1]);
            }
        }
        lemma_insert_preserves_sorted(rest, x);
        lemma_insert_elems(rest, x);
        let t = spec_insert(rest, x);
        assert(r =~= seq![s[0]] + t);
        assert forall|i: int, j: int| 0 <= i < j < r.len() implies spec_le(
            #[trigger] r[i],
            #[trigger] r[j],
        ) by {
            if i == 0 {
                assert(r[j] == t[j - 1]);
                if t[j - 1] == x {
                } else {
                    let m = choose|m: int| 0 <= m < rest.len() && rest[m] == t[j - 1];
                    assert(s[m + 1] == t[j - 1]);
                    assert(spec_le(s[0], s[m + 1]));
                }
            } else {
                assert(r[i] == t[i - 1]);
                assert(r[j] == t[j - 1]);
            }
        }
    } else {
        lemma_le_total(s[0], x);
        assert(spec_le(x, s[0]));
        assert(r =~= seq![x] + s);
        assert forall|i: int, j: int| 0 <= i < j < r.len() implies spec_le(
            #[trigger] r[i],
            #[trigger] r[j],
        ) by {
            if i == 0 {
                assert(r[j] == s[j - 1]);
                if j - 1 > 0 {
                    assert(spec_le(s[0], s[j - 1]));
                }
                lemma_le_trans(x, s[0], s[j - 1]);
            } else {
                assert(r[i] == s[i - 1]);
                assert(r[j] == s[j - 1]);
            }
        }
    }
}

proof fn lemma_insert_multiset(s: Seq<IpResult>, x: IpResult)
    ensures
        spec_insert(s, x).to_multiset() == s.to_multiset().insert(x),
    decreases s.len(),
{
    broadcast use vstd::seq_lib::group_to_multiset_ensures;

    let r = spec_insert(s, x);
    if s.len() == 0 {
        assert(r =~= Seq::<IpResult>::empty().push(x));
        assert(s =~= Seq::<IpResult>::empty());
        assert(r.to_multiset() =~= s.to_multiset().insert(x));
    } else if spec_le(s[0], x) {
        lemma_insert_multiset(s.drop_first(), x);
        let t = spec_insert(s.drop_first(), x);
        assert(r =~= seq![s[0]] + t);
        vstd::seq_lib::lemma_multiset_commutative(seq![s[0]], t);
        vstd::seq_lib::lemma_multiset_commutative(seq![s[0]], s.drop_first());
        assert(s =~= seq![s[0]] + s.drop_first());
        assert(r.to_multiset() =~= s.to_multiset().insert(x));
    } else {
        assert(r =~= seq![x] + s);
        vstd::seq_lib::lemma_multiset_commutative(seq![x], s);
        assert(seq![x] =~= Seq::<IpResult>::empty().push(x));
        assert(r.to_multiset() =~= s.to_multiset().insert(x));
    }
}

/// The sorted batch is ordered by the batch order.
pub proof fn lemma_sort_sorted(s: Seq<IpResult>)
    ensures
        spec_sorted(spec_sort(s)),
    decreases s.len(),
{
    if s.len() != 0 {
        lemma_sort_sorted(s.drop_last());
        lemma_insert_preserves_sorted(spec_sort(s.drop_last()), s.last());
    }
}

/// The sort permutes the batch: the same records, each the same number
/// of times, so none is dropped, added or altered.
pub proof fn lemma_sort_permutes(s: Seq<IpResult>)
    ensures
        spec_sort(s).to_multiset() == s.to_multiset(),
        spec_sort(s).len() == s.len(),
    decreases s.len(),
{
    broadcast use vstd::seq_lib::group_to_multiset_ensures;

    if s.len() != 0 {
        lemma_sort_permutes(s.drop_last());
        lemma_insert_multiset(spec_sort(s.drop_last()), s.last());
        assert(s =~= s.drop_last().push(s.last()));
        lemma_insert_elems(spec_sort(s.drop_last()), s.last());
    }
}

/// Two records the batch order cannot tell apart: same primary,
/// secondary and tertiary key.
pub open spec fn spec_key_eq(a: IpResult, b: IpResult) -> bool {
    &&& spec_ip_len(a) == spec_ip_len(b)
    &&& a.provider@ == b.provider@
    &&& a.used_time == b.used_time
}

proof fn lemma_insert_filter(t: Seq<IpResult>, x: IpResult, a: IpResult)
    requires
        spec_sorted(t),
    ensures
        spec_insert(t, x).filter(|r: IpResult| spec_key_eq(r, a)) == if spec_key_eq(x, a) {
            t.filter(|r: IpResult| spec_key_eq(r, a)).push(x)
        } else {
            t.filter(|r: IpResult| spec_key_eq(r, a))
        },
    decreases t.len(),
{
    broadcast use vstd::seq_lib::group_filter_ensures;

    let p = |r: IpResult| spec_key_eq(r, a);
    if t.len() == 0 {
        assert(spec_insert(t, x) =~= seq![x]);
        assert(t =~= Seq::<IpResult>::empty());
        assert(seq![x].filter(p) =~= if p(x) {
            Seq::<IpResult>::empty().push(x)
        } else {
            Seq::<IpResult>::empty()
        }) by {
            reveal_with_fuel(Seq::filter, 2);
            assert(seq![x].drop_last() =~= Seq::<IpResult>::empty());
        }
        assert(Seq::<IpResult>::empty().filter(p) =~= Seq::<IpResult>::empty()) by {
            reveal_with_fuel(Seq::filter, 1);
        }
    } else if spec_le(t[0], x) {
        let rest = t.drop_first();
        assert(spec_sorted(rest)) by {
            assert forall|i: int, j: int| 0 <= i < j < rest.len() implies spec_le(
                #[trigger] rest[i],
                #[trigger] rest[j],
            ) by {
                assert(rest[i] == t[i + 1]);
                assert(rest[j] == t[j + 1]);
            }
        }
        lemma_insert_filter(rest, x, a);
        assert(spec_insert(t, x) == seq![t[0]] + spec_insert(rest, x));
        assert(t =~= seq![t[0]] + rest);
        assert((seq![t[0]] + spec_insert(rest, x)).filter(p) == seq![t[0]].filter(p)
            + spec_insert(rest, x).filter(p));
        assert((seq![t[0]] + rest).filter(p) == seq![t[0]].filter(p) + rest.filter(p));
        if p(x) {
            assert(seq![t[0]].filter(p) + rest.filter(p).push(x) =~= (seq![t[0]].filter(p)
                + rest.filter(p)).push(x));
        }
    } else {
        assert(spec_insert(t, x) == seq![x] + t);
        assert((seq![x] + t).filter(p) == seq![x].filter(p) + t.filter(p));
        assert(seq![x].filter(p) =~= if p(x) {
            Seq::<IpResult>::empty().push(x)
        } else {
            Seq::<IpResult>::empty()
        }) by {
            reveal_with_fuel(Seq::filter, 2);
            assert(seq![x].drop_last() =~= Seq::<IpResult>::empty());
        }
        if p(x) {
            assert forall|k: int| 0 <= k < t.len() implies !p(t[k]) by {
                if p(t[k]) {
                    assert(spec_le(t[k], x));
                    if k > 0 {
                        assert(spec_le(t[0], t[k]));
                        lemma_le_trans(t[0], t[k], x);
                    }
                }
            }
            t.lemma_all_neg_filter_empty(p);
            assert(seq![x].filter(p) + t.filter(p) =~= t.filter(p).push(x));
        } else {
            assert(seq![x].filter(p) + t.filter(p) =~= t.filter(p));
        }
    }
}

/// The sort is stable: records the batch order cannot tell apart keep
/// their arrival order, whichever key they share.
pub proof fn lemma_sort_stable(s: Seq<IpResult>, a: IpResult)
    ensures
        spec_sort(s).filter(|r: IpResult| spec_key_eq(r, a)) == s.filter(
            |r: IpResult| spec_key_eq(r, a),
        ),
    decreases s.len(),
{
    let p = |r: IpResult| spec_key_eq(r, a);
    if s.len() == 0 {
        assert(spec_sort(s) =~= Seq::<IpResult>::empty());
        assert(s =~= Seq::<IpResult>::empty());
    } else {
        lemma_sort_stable(s.drop_last(), a);
        lemma_sort_sorted(s.drop_last());
        lemma_insert_filter(spec_sort(s.drop_last()), s.last(), a);
        assert(s.filter(p) == if p(s.last()) {
            s.drop_last().filter(p).push(s.last())
        } else {
            s.drop_last().filter(p)
        }) by {
            reveal_with_fuel(Seq::filter, 1);
        }
    }
}

/// Among records of equal address-text length with different provider
/// names, the lexicographically smaller name stands first in the sorted
/// batch.
pub proof fn lemma_sort_provider_order(s: Seq<IpResult>, i: int, j: int)
    requires
        0 <= i < j < spec_sort(s).len(),
        spec_ip_len(spec_sort(s)[i]) == spec_ip_len(spec_sort(s)[j]),
        spec_sort(s)[i].provider@ != spec_sort(s)[j].provider@,
    ensures
        spec_str_lt(spec_sort(s)[i].provider@, spec_sort(s)[j].provider@),
{
    lemma_sort_sorted(s);
}

/// Replaces the elapsed time on every record that carries one, leaving
/// the rest untouched. A caller that measures a probe's elapsed time
/// only after the records are built can stamp that measurement here;
/// records whose outcome carries no elapsed time keep none.
pub fn restamp_elapsed(records: &mut Vec<IpResult>, elapsed_ms: u64)
    ensures
        final(records)@.len() == old(records)@.len(),
        forall|i: int|
            0 <= i < old(records)@.len() ==> {
                let r0 = old(records)@[i];
                let r1 = #[trigger] final(records)@[i];
                &&& (r0.used_time is Some ==> r1 == IpResult { used_time: Some(elapsed_ms), ..r0 })
                &&& (r0.used_time is None ==> r1 == r0)
            },
{
    let ghost orig = records@;
    let mut out: Vec<IpResult> = Vec::new();
    proof {
        assert(records@ =~= orig.skip(0));
    }
    while records.len() > 0
        invariant
            records@ == orig.skip(out@.len() as int),
            out@.len() + records@.len() == orig.len(),
            forall|k: int|
                0 <= k < out@.len() ==> {
                    let r0 = orig[k];
                    let r1 = #[trigger] out@[k];
                    &&& (r0.used_time is Some ==> r1 == IpResult {
                        used_time: Some(elapsed_ms),
                        ..r0
                    })
                    &&& (r0.used_time is None ==> r1 == r0)
                },
        decreases records@.len(),
    {
        let ghost i = out@.len() as int;
        let mut r = records.remove(0);
        proof {
            assert(orig.skip(i)[0] == orig[i]);
            assert(records@ =~= orig.skip(i + 1));
        }
        if r.used_time.is_some() {
            r.used_time = Some(elapsed_ms);
        }
        out.push(r);
    }
    *records = out;
}

/// The batch-ordering capability for a collection of records.
pub trait IpResultVecExt: View<V = Seq<IpResult>> {
    /// Sorts the records into the deterministic batch order.
    fn sort_by_name(&mut self)
        ensures
            final(self)@ == spec_sort(old(self)@),
    ;
}

impl IpResultVecExt for Vec<IpResult> {
    fn sort_by_name(&mut self) {
        sort_records(self)
    }
}

} // verus!
