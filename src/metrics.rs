//! The meter's readings, taken from a complete telegram, and the metrics
//! derived from them. Every value is kept in thousandths of its unit.

use vstd::prelude::*;

use crate::decimal::{parse_thousandths, thousandths, LIMIT};
use crate::lookup::{find_line, values_by_id, values_of, ParseError};
use crate::text::{chars_of, string_from_chars};

verus! {

/// Current tariff (1 or 2).
pub const TARIFF_TAG: &'static str = "0-0:96.14.0";

/// Power drawn now, in kW.
pub const USAGE_TAG: &'static str = "1-0:1.7.0";

/// Power delivered now, in kW.
pub const PRODUCTION_TAG: &'static str = "1-0:2.7.0";

/// Energy drawn under tariff 1, in kWh.
pub const USAGE_TARIFF_1_TAG: &'static str = "1-0:1.8.1";

/// Energy drawn under tariff 2, in kWh.
pub const USAGE_TARIFF_2_TAG: &'static str = "1-0:1.8.2";

/// Energy delivered under tariff 1, in kWh.
pub const PRODUCTION_TARIFF_1_TAG: &'static str = "1-0:2.8.1";

/// Energy delivered under tariff 2, in kWh.
pub const PRODUCTION_TARIFF_2_TAG: &'static str = "1-0:2.8.2";

/// Gas delivered in all: a timestamp group, then a quantity in m3.
pub const GAS_TAG: &'static str = "0-1:24.2.1";

/// Time of the telegram.
pub const TIMESTAMP_TAG: &'static str = "0-0:1.0.0";

/// Unit of power.
pub const KW_UNIT: &'static str = "*kW";

/// Unit of energy.
pub const KWH_UNIT: &'static str = "*kWh";

/// Unit of gas volume.
pub const M3_UNIT: &'static str = "*m3";

/// `s` without `suffix`, if it ends with it.
pub open spec fn strip_suffix(s: Seq<char>, suffix: Seq<char>) -> Seq<char> {
    if suffix.is_suffix_of(s) {
        s.take(s.len() - suffix.len())
    } else {
        s
    }
}

/// The value group `index` of tag `tag`.
pub open spec fn value_at(t: Seq<char>, tag: Seq<char>, index: int) -> Result<Seq<char>, ParseError> {
    match values_by_id(tag, t) {
        Err(e) => Err(e),
        Ok(groups) => if index < groups.len() {
            Ok(groups[index])
        } else {
            Err(ParseError::NoValues)
        },
    }
}

/// A value read as a number in thousandths.
pub open spec fn number(s: Seq<char>) -> Result<int, ParseError> {
    match thousandths(s) {
        Some(v) => Ok(v),
        None => Err(ParseError::MalformedNumber),
    }
}

/// The first value of `tag`, its `unit` stripped, in thousandths.
pub open spec fn unit_value(t: Seq<char>, tag: Seq<char>, unit: Seq<char>) -> Result<int, ParseError> {
    match value_at(t, tag, 0) {
        Err(e) => Err(e),
        Ok(v) => number(strip_suffix(v, unit)),
    }
}

/// The current tariff, in thousandths.
pub open spec fn current_tariff(t: Seq<char>) -> Result<int, ParseError> {
    match value_at(t, TARIFF_TAG@, 0) {
        Err(e) => Err(e),
        Ok(v) => number(v),
    }
}

/// Power in thousandths of a W, from a value in kW.
pub open spec fn watts(t: Seq<char>, tag: Seq<char>) -> Result<int, ParseError> {
    match unit_value(t, tag, KW_UNIT@) {
        Err(e) => Err(e),
        Ok(v) => Ok(v * 1000),
    }
}

/// The sum of two tariff counters in kWh, in thousandths. Both tags are
/// looked up before either value is read.
pub open spec fn tariff_sum(t: Seq<char>, tag1: Seq<char>, tag2: Seq<char>) -> Result<
    int,
    ParseError,
> {
    match value_at(t, tag1, 0) {
        Err(e) => Err(e),
        Ok(v1) => match value_at(t, tag2, 0) {
            Err(e) => Err(e),
            Ok(v2) => match number(strip_suffix(v1, KWH_UNIT@)) {
                Err(e) => Err(e),
                Ok(a) => match number(strip_suffix(v2, KWH_UNIT@)) {
                    Err(e) => Err(e),
                    Ok(b) => Ok(a + b),
                },
            },
        },
    }
}

/// Gas delivered in all, in thousandths of a m3: the second value group,
/// which must end in `*m3`.
pub open spec fn gas_usage(t: Seq<char>) -> Result<int, ParseError> {
    match value_at(t, GAS_TAG@, 1) {
        Err(e) => Err(e),
        Ok(v) => if M3_UNIT@.is_suffix_of(v) {
            number(strip_suffix(v, M3_UNIT@))
        } else {
            Err(ParseError::InvalidUnit)
        },
    }
}

/// A reading with its value as a mathematical integer.
pub open spec fn as_int(r: Result<i64, ParseError>) -> Result<int, ParseError> {
    match r {
        Ok(v) => Ok(v as int),
        Err(e) => Err(e),
    }
}

/// Whether `s` ends with `suffix`.
fn ends_with(s: &[char], suffix: &[char]) -> (r: bool)
    ensures
        r == suffix@.is_suffix_of(s@),
{
    if suffix.len() > s.len() {
        return false;
    }
    let off = s.len() - suffix.len();
    let mut i: usize = 0;
    while i < suffix.len()
        invariant
            off + suffix.len() == s.len(),
            i <= suffix.len(),
            forall|j: int| 0 <= j < i ==> suffix@[j] == s@[off + j],
        decreases suffix.len() - i,
    {
        if suffix[i] != s[off + i] {
            assert(s@.subrange(off as int, s@.len() as int)[i as int] == s@[off + i]);
            return false;
        }
        i = i + 1;
    }
    assert(suffix@ =~= s@.subrange(off as int, s@.len() as int));
    true
}

/// `s` without `suffix`, if it ends with it.
fn strip_unit(s: &[char], suffix: &str) -> (r: Vec<char>)
    ensures
        r@ == strip_suffix(s@, suffix@),
{
    let u = chars_of(suffix);
    let keep = if ends_with(s, u.as_slice()) {
        s.len() - u.len()
    } else {
        s.len()
    };
    let mut out: Vec<char> = Vec::new();
    let mut i: usize = 0;
    while i < keep
        invariant
            keep <= s.len(),
            i <= keep,
            out@ =~= s@.take(i as int),
        decreases keep - i,
    {
        out.push(s[i]);
        i = i + 1;
    }
    out
}

/// The value group `index` of `tag` in `t`.
fn value_of(t: &[char], tag: &str, index: usize) -> (r: Result<Vec<char>, ParseError>)
    ensures
        match r {
            Ok(v) => value_at(t@, tag@, index as int) == Ok::<Seq<char>, ParseError>(v@),
            Err(e) => value_at(t@, tag@, index as int) == Err::<Seq<char>, ParseError>(e),
        },
{
    let id = chars_of(tag);
    match values_of(id.as_slice(), t) {
        Err(e) => Err(e),
        Ok(groups) => {
            if index < groups.len() {
                Ok(groups[index].clone())
            } else {
                Err(ParseError::NoValues)
            }
        },
    }
}

/// A value read as a number in thousandths.
fn number_of(s: &[char]) -> (r: Result<i64, ParseError>)
    ensures
        as_int(r) == number(s@),
        r matches Ok(v) ==> -LIMIT < v < LIMIT,
{
    match parse_thousandths(s) {
        Some(v) => Ok(v),
        None => Err(ParseError::MalformedNumber),
    }
}

/// Format of the timestamp value once the daylight-saving marker is gone.
pub const TIMESTAMP_FORMAT: &'static str = "%y%m%d%H%M%S";

/// Seconds since the epoch that chrono reads from `s` in format `fmt`,
/// taken as UTC; `None` where it reads no date and time.
pub uninterp spec fn naive_timestamp(s: Seq<char>, fmt: Seq<char>) -> Option<int>;

/// Relies on chrono's `NaiveDateTime::parse_from_str` and
/// `and_utc().timestamp()`: the result depends on the text and the format
/// alone.
#[verifier::external_body]
fn parse_naive_timestamp(s: &str, fmt: &str) -> (r: Option<i64>)
    ensures
        match r {
            Some(v) => naive_timestamp(s@, fmt@) == Some(v as int),
            None => naive_timestamp(s@, fmt@) is None,
        },
{
    match chrono::NaiveDateTime::parse_from_str(s, fmt) {
        Ok(d) => Some(d.and_utc().timestamp()),
        Err(_) => None,
    }
}

/// A timestamp value without its trailing daylight-saving marker (`W` in
/// winter, `S` in summer), if it has one.
pub open spec fn strip_dst(v: Seq<char>) -> Seq<char> {
    if v.len() > 0 && (v.last() == 'W' || v.last() == 'S') {
        v.drop_last()
    } else {
        v
    }
}

/// The date and time of the telegram as `yyMMddHHmmss` text.
pub open spec fn timestamp_text_of(t: Seq<char>) -> Result<Seq<char>, ParseError> {
    match value_at(t, TIMESTAMP_TAG@, 0) {
        Err(e) => Err(e),
        Ok(v) => Ok(strip_dst(v)),
    }
}

/// The time of the telegram in seconds since the epoch; a value that is no
/// date and time is a `MalformedNumber`.
pub open spec fn timestamp_of(t: Seq<char>) -> Result<int, ParseError> {
    match timestamp_text_of(t) {
        Err(e) => Err(e),
        Ok(s) => match naive_timestamp(s, TIMESTAMP_FORMAT@) {
            Some(v) => Ok(v),
            None => Err(ParseError::MalformedNumber),
        },
    }
}

fn tariff_in(t: &[char]) -> (r: Result<i64, ParseError>)
    ensures
        as_int(r) == current_tariff(t@),
        r matches Ok(v) ==> -LIMIT < v < LIMIT,
{
    match value_of(t, TARIFF_TAG, 0) {
        Err(e) => Err(e),
        Ok(v) => number_of(v.as_slice()),
    }
}

fn watts_in(t: &[char], tag: &str) -> (r: Result<i64, ParseError>)
    ensures
        as_int(r) == watts(t@, tag@),
        r matches Ok(v) ==> -LIMIT * 1000 < v < LIMIT * 1000,
{
    match value_of(t, tag, 0) {
        Err(e) => Err(e),
        Ok(v) => {
            let stripped = strip_unit(v.as_slice(), KW_UNIT);
            match number_of(stripped.as_slice()) {
                Err(e) => Err(e),
                Ok(kw) => Ok(kw * 1000),
            }
        },
    }
}

fn tariff_sum_in(t: &[char], tag1: &str, tag2: &str) -> (r: Result<i64, ParseError>)
    ensures
        as_int(r) == tariff_sum(t@, tag1@, tag2@),
        r matches Ok(v) ==> -2 * LIMIT < v < 2 * LIMIT,
{
    let v1 = match value_of(t, tag1, 0) {
        Err(e) => {
            return Err(e);
        },
        Ok(v) => v,
    };
    let v2 = match value_of(t, tag2, 0) {
        Err(e) => {
            return Err(e);
        },
        Ok(v) => v,
    };
    let s1 = strip_unit(v1.as_slice(), KWH_UNIT);
    let a = match number_of(s1.as_slice()) {
        Err(e) => {
            return Err(e);
        },
        Ok(a) => a,
    };
    let s2 = strip_unit(v2.as_slice(), KWH_UNIT);
    match number_of(s2.as_slice()) {
        Err(e) => Err(e),
        Ok(b) => Ok(a + b),
    }
}

fn gas_in(t: &[char]) -> (r: Result<i64, ParseError>)
    ensures
        as_int(r) == gas_usage(t@),
        r matches Ok(v) ==> -LIMIT < v < LIMIT,
{
    match value_of(t, GAS_TAG, 1) {
        Err(e) => Err(e),
        Ok(v) => {
            let unit = chars_of(M3_UNIT);
            if ends_with(v.as_slice(), unit.as_slice()) {
                let stripped = strip_unit(v.as_slice(), M3_UNIT);
                number_of(stripped.as_slice())
            } else {
                Err(ParseError::InvalidUnit)
            }
        },
    }
}

/// The current tariff (`0-0:96.14.0`, first value, no unit), in
/// thousandths.
pub fn parse_current_tariff(telegram: &str) -> (r: Result<i64, ParseError>)
    ensures
        as_int(r) == current_tariff(telegram@),
{
    tariff_in(chars_of(telegram).as_slice())
}

/// Power drawn now (`1-0:1.7.0`, first value, `*kW` stripped, times 1000),
/// in thousandths of a W.
pub fn parse_w_usage(telegram: &str) -> (r: Result<i64, ParseError>)
    ensures
        as_int(r) == watts(telegram@, USAGE_TAG@),
{
    watts_in(chars_of(telegram).as_slice(), USAGE_TAG)
}

/// Power delivered now (`1-0:2.7.0`, first value, `*kW` stripped, times
/// 1000), in thousandths of a W.
pub fn parse_w_production(telegram: &str) -> (r: Result<i64, ParseError>)
    ensures
        as_int(r) == watts(telegram@, PRODUCTION_TAG@),
{
    watts_in(chars_of(telegram).as_slice(), PRODUCTION_TAG)
}

/// Energy drawn under both tariffs (`1-0:1.8.1` plus `1-0:1.8.2`, `*kWh`
/// stripped), in thousandths of a kWh.
pub fn parse_w_usage_accumulative(telegram: &str) -> (r: Result<i64, ParseError>)
    ensures
        as_int(r) == tariff_sum(telegram@, USAGE_TARIFF_1_TAG@, USAGE_TARIFF_2_TAG@),
{
    tariff_sum_in(chars_of(telegram).as_slice(), USAGE_TARIFF_1_TAG, USAGE_TARIFF_2_TAG)
}

/// Energy delivered under both tariffs (`1-0:2.8.1` plus `1-0:2.8.2`,
/// `*kWh` stripped), in thousandths of a kWh.
pub fn parse_w_production_accumulative(telegram: &str) -> (r: Result<i64, ParseError>)
    ensures
        as_int(r) == tariff_sum(telegram@, PRODUCTION_TARIFF_1_TAG@, PRODUCTION_TARIFF_2_TAG@),
{
    tariff_sum_in(chars_of(telegram).as_slice(), PRODUCTION_TARIFF_1_TAG, PRODUCTION_TARIFF_2_TAG)
}

/// Gas delivered in all (`0-1:24.2.1`, second value, which must end in
/// `*m3`), in thousandths of a m3.
pub fn parse_gas_usage_accumulative(telegram: &str) -> (r: Result<i64, ParseError>)
    ensures
        as_int(r) == gas_usage(telegram@),
{
    gas_in(chars_of(telegram).as_slice())
}

/// The telegram's date and time (`0-0:1.0.0`, first value) without its
/// daylight-saving marker.
pub fn timestamp_text(telegram: &str) -> (r: Result<String, ParseError>)
    ensures
        match r {
            Ok(s) => timestamp_text_of(telegram@) == Ok::<Seq<char>, ParseError>(s@),
            Err(e) => timestamp_text_of(telegram@) == Err::<Seq<char>, ParseError>(e),
        },
{
    let t = chars_of(telegram);
    match value_of(t.as_slice(), TIMESTAMP_TAG, 0) {
        Err(e) => Err(e),
        Ok(v) => {
            let n = v.len();
            let keep = if n > 0 && (v[n - 1] == 'W' || v[n - 1] == 'S') {
                n - 1
            } else {
                n
            };
            proof {
                if keep < n {
                    assert(v@.take(keep as int) =~= v@.drop_last());
                } else {
                    assert(v@.take(keep as int) =~= v@);
                }
            }
            Ok(string_from_chars(&v.as_slice()[0..keep]))
        },
    }
}

/// The telegram's time in seconds since the epoch, its date and time read
/// as UTC.
pub fn parse_timestamp(telegram: &str) -> (r: Result<i64, ParseError>)
    ensures
        as_int(r) == timestamp_of(telegram@),
{
    match timestamp_text(telegram) {
        Err(e) => Err(e),
        Ok(s) => match parse_naive_timestamp(s.as_str(), TIMESTAMP_FORMAT) {
            Some(v) => Ok(v),
            None => Err(ParseError::MalformedNumber),
        },
    }
}

/// What is handed to the sink.
#[derive(PartialEq, Eq, Structural, Clone, Copy, Debug)]
pub enum MetricKey {
    CurrentTariff,
    WattUsage,
    WattUsageAccumulative,
    WattProduction,
    WattNett,
    WattProductionAccumulative,
    WattAccumulativeNett,
    GasUsageAccumulative,
}

impl MetricKey {
    /// The name under which the sink stores the metric.
    pub fn name(&self) -> (r: &'static str)
        ensures
            r@ == key_name(*self),
    {
        match self {
            MetricKey::CurrentTariff => "currentTariff",
            MetricKey::WattUsage => "wattUsage",
            MetricKey::WattUsageAccumulative => "wattUsageAccumulative",
            MetricKey::WattProduction => "wattProduction",
            MetricKey::WattNett => "wattNett",
            MetricKey::WattProductionAccumulative => "wattProductionAccumulative",
            MetricKey::WattAccumulativeNett => "wattAccumulativeNett",
            MetricKey::GasUsageAccumulative => "gasUsageAccumulative",
        }
    }
}

/// The name of each metric.
pub open spec fn key_name(k: MetricKey) -> Seq<char> {
    match k {
        MetricKey::CurrentTariff => "currentTariff"@,
        MetricKey::WattUsage => "wattUsage"@,
        MetricKey::WattUsageAccumulative => "wattUsageAccumulative"@,
        MetricKey::WattProduction => "wattProduction"@,
        MetricKey::WattNett => "wattNett"@,
        MetricKey::WattProductionAccumulative => "wattProductionAccumulative"@,
        MetricKey::WattAccumulativeNett => "wattAccumulativeNett"@,
        MetricKey::GasUsageAccumulative => "gasUsageAccumulative"@,
    }
}

/// One value for the sink, in thousandths of its unit.
#[derive(PartialEq, Eq, Structural, Clone, Copy, Debug)]
pub struct Metric {
    pub key: MetricKey,
    pub thousandths: i64,
}

/// Every reading of one telegram, each taken on its own: one that fails
/// leaves the others as they are.
#[derive(Clone, Copy, Debug)]
pub struct Readings {
    pub current_tariff: Result<i64, ParseError>,
    pub watt_usage: Result<i64, ParseError>,
    pub watt_usage_accumulative: Result<i64, ParseError>,
    pub watt_production: Result<i64, ParseError>,
    pub watt_production_accumulative: Result<i64, ParseError>,
    pub gas_usage_accumulative: Result<i64, ParseError>,
}

/// Nett of two readings: absent unless both were read.
pub open spec fn nett_of(production: Result<i64, ParseError>, usage: Result<i64, ParseError>) -> Option<int> {
    match (production, usage) {
        (Ok(p), Ok(u)) => Some(p - u),
        _ => None,
    }
}

/// The metric of a reading, if it was read.
pub open spec fn metric_if(key: MetricKey, r: Result<i64, ParseError>) -> Seq<Metric> {
    match r {
        Ok(v) => seq![Metric { key, thousandths: v }],
        Err(_) => Seq::empty(),
    }
}

/// The nett metric, where both readings are there: right after the
/// production it is derived from.
pub open spec fn nett_if(key: MetricKey, production: Result<i64, ParseError>, usage: Result<i64, ParseError>) -> Seq<Metric> {
    match nett_of(production, usage) {
        Some(v) => seq![Metric { key, thousandths: v as i64 }],
        None => Seq::empty(),
    }
}

/// The metrics of a telegram in the order they are sent: tariff, usage,
/// cumulative usage, production and the nett power, cumulative production
/// and the nett energy, gas. A reading that failed is left out, and so is
/// a nett value whose operands are not both there.
pub open spec fn metric_seq(r: Readings) -> Seq<Metric> {
    metric_if(MetricKey::CurrentTariff, r.current_tariff)
        + metric_if(MetricKey::WattUsage, r.watt_usage)
        + metric_if(MetricKey::WattUsageAccumulative, r.watt_usage_accumulative)
        + metric_if(MetricKey::WattProduction, r.watt_production)
        + nett_if(MetricKey::WattNett, r.watt_production, r.watt_usage)
        + metric_if(MetricKey::WattProductionAccumulative, r.watt_production_accumulative)
        + nett_if(MetricKey::WattAccumulativeNett, r.watt_production_accumulative, r.watt_usage_accumulative)
        + metric_if(MetricKey::GasUsageAccumulative, r.gas_usage_accumulative)
}

/// Readings within the range that parsing gives.
pub open spec fn bounded(r: Result<i64, ParseError>) -> bool {
    r matches Ok(v) ==> -2 * LIMIT * 1000 < v < 2 * LIMIT * 1000
}

impl Readings {
    /// Readings as parsing gives them: each value in range.
    pub open spec fn well_formed(&self) -> bool {
        &&& bounded(self.current_tariff)
        &&& bounded(self.watt_usage)
        &&& bounded(self.watt_usage_accumulative)
        &&& bounded(self.watt_production)
        &&& bounded(self.watt_production_accumulative)
        &&& bounded(self.gas_usage_accumulative)
    }

    /// Nett power now, production minus usage, in thousandths of a W.
    pub fn watt_nett(&self) -> (r: Option<i64>)
        requires
            self.well_formed(),
        ensures
            r matches Some(v) ==> nett_of(self.watt_production, self.watt_usage) == Some(v as int),
            r is None ==> nett_of(self.watt_production, self.watt_usage) is None,
    {
        match (self.watt_production, self.watt_usage) {
            (Ok(p), Ok(u)) => Some(p - u),
            _ => None,
        }
    }

    /// Nett energy, cumulative production minus cumulative usage, in
    /// thousandths of a kWh.
    pub fn watt_accumulative_nett(&self) -> (r: Option<i64>)
        requires
            self.well_formed(),
        ensures
            r matches Some(v) ==> nett_of(self.watt_production_accumulative, self.watt_usage_accumulative) == Some(v as int),
            r is None ==> nett_of(self.watt_production_accumulative, self.watt_usage_accumulative) is None,
    {
        match (self.watt_production_accumulative, self.watt_usage_accumulative) {
            (Ok(p), Ok(u)) => Some(p - u),
            _ => None,
        }
    }

    /// The metrics to send, in order.
    pub fn metrics(&self) -> (r: Vec<Metric>)
        requires
            self.well_formed(),
        ensures
            r@ == metric_seq(*self),
    {
        let mut out: Vec<Metric> = Vec::new();
        let ghost r = *self;
        if let Ok(v) = self.current_tariff {
            out.push(Metric { key: MetricKey::CurrentTariff, thousandths: v });
        }
        assert(out@ =~= metric_if(MetricKey::CurrentTariff, r.current_tariff));
        let ghost s1 = out@;
        if let Ok(v) = self.watt_usage {
            out.push(Metric { key: MetricKey::WattUsage, thousandths: v });
        }
        assert(out@ =~= s1 + metric_if(MetricKey::WattUsage, r.watt_usage));
        let ghost s2 = out@;
        if let Ok(v) = self.watt_usage_accumulative {
            out.push(Metric { key: MetricKey::WattUsageAccumulative, thousandths: v });
        }
        assert(out@ =~= s2 + metric_if(MetricKey::WattUsageAccumulative, r.watt_usage_accumulative));
        let ghost s3 = out@;
        if let Ok(v) = self.watt_production {
            out.push(Metric { key: MetricKey::WattProduction, thousandths: v });
        }
        assert(out@ =~= s3 + metric_if(MetricKey::WattProduction, r.watt_production));
        let ghost s4 = out@;
        if let Some(v) = self.watt_nett() {
            out.push(Metric { key: MetricKey::WattNett, thousandths: v });
        }
        assert(out@ =~= s4 + nett_if(MetricKey::WattNett, r.watt_production, r.watt_usage));
        let ghost s5 = out@;
        if let Ok(v) = self.watt_production_accumulative {
            out.push(Metric { key: MetricKey::WattProductionAccumulative, thousandths: v });
        }
        assert(out@ =~= s5 + metric_if(MetricKey::WattProductionAccumulative, r.watt_production_accumulative));
        let ghost s6 = out@;
        if let Some(v) = self.watt_accumulative_nett() {
            out.push(Metric { key: MetricKey::WattAccumulativeNett, thousandths: v });
        }
        assert(out@ =~= s6 + nett_if(MetricKey::WattAccumulativeNett, r.watt_production_accumulative, r.watt_usage_accumulative));
        let ghost s7 = out@;
        if let Ok(v) = self.gas_usage_accumulative {
            out.push(Metric { key: MetricKey::GasUsageAccumulative, thousandths: v });
        }
        assert(out@ =~= s7 + metric_if(MetricKey::GasUsageAccumulative, r.gas_usage_accumulative));
        out
    }
}

/// Every reading of a complete telegram.
pub fn parse_telegram(telegram: &str) -> (r: Readings)
    ensures
        r.well_formed(),
        as_int(r.current_tariff) == current_tariff(telegram@),
        as_int(r.watt_usage) == watts(telegram@, USAGE_TAG@),
        as_int(r.watt_usage_accumulative) == tariff_sum(telegram@, USAGE_TARIFF_1_TAG@, USAGE_TARIFF_2_TAG@),
        as_int(r.watt_production) == watts(telegram@, PRODUCTION_TAG@),
        as_int(r.watt_production_accumulative) == tariff_sum(telegram@, PRODUCTION_TARIFF_1_TAG@, PRODUCTION_TARIFF_2_TAG@),
        as_int(r.gas_usage_accumulative) == gas_usage(telegram@),
{
    let t = chars_of(telegram);
    Readings {
        current_tariff: tariff_in(t.as_slice()),
        watt_usage: watts_in(t.as_slice(), USAGE_TAG),
        watt_usage_accumulative: tariff_sum_in(t.as_slice(), USAGE_TARIFF_1_TAG, USAGE_TARIFF_2_TAG),
        watt_production: watts_in(t.as_slice(), PRODUCTION_TAG),
        watt_production_accumulative: tariff_sum_in(t.as_slice(), PRODUCTION_TARIFF_1_TAG, PRODUCTION_TARIFF_2_TAG),
        gas_usage_accumulative: gas_in(t.as_slice()),
    }
}

/// A telegram without a gas line fails the gas reading with `TagNotFound`;
/// the other readings do not look at that line.
pub proof fn lemma_missing_gas_line(t: Seq<char>)
    requires
        find_line(t, GAS_TAG@) is None,
    ensures
        gas_usage(t) == Err::<int, ParseError>(ParseError::TagNotFound),
{
}

} // verus!
