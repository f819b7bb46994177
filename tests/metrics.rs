use p1meter::lookup::ParseError;
use p1meter::metrics::{
    parse_current_tariff, parse_gas_usage_accumulative, parse_telegram, parse_timestamp,
    parse_w_production, parse_w_production_accumulative, parse_w_usage,
    parse_w_usage_accumulative, timestamp_text, Metric, MetricKey, Readings,
};

const TELEGRAM: &str = "/KFM5KAIFA-METER\r\n\r\n1-3:0.2.8(42)\r\n0-0:1.0.0(210212094443W)\r\n1-0:1.8.1(007392.132*kWh)\r\n1-0:1.8.2(007139.800*kWh)\r\n1-0:2.8.1(001795.226*kWh)\r\n1-0:2.8.2(004446.275*kWh)\r\n0-0:96.14.0(0002)\r\n1-0:1.7.0(00.131*kW)\r\n1-0:2.7.0(00.000*kW)\r\n0-1:24.2.1(210205130000W)(07025.512*m3)\r\n!8234\r\n";

#[test]
fn usage_in_watts() {
    assert_eq!(parse_w_usage("1-0:1.7.0(00.131*kW)\r\n"), Ok(131000));
}

#[test]
fn cumulative_usage_sums_tariffs() {
    let t = "1-0:1.8.1(007392.132*kWh)\r\n1-0:1.8.2(007139.800*kWh)\r\n";
    assert_eq!(parse_w_usage_accumulative(t), Ok(14531932));
}

#[test]
fn cumulative_production_sums_tariffs() {
    assert_eq!(parse_w_production_accumulative(TELEGRAM), Ok(6241501));
}

#[test]
fn cumulative_usage_needs_both_tariffs() {
    let t = "1-0:1.8.1(007392.132*kWh)\r\n";
    assert_eq!(parse_w_usage_accumulative(t), Err(ParseError::TagNotFound));
    let t = "1-0:1.8.1(bad*kWh)\r\n";
    assert_eq!(parse_w_usage_accumulative(t), Err(ParseError::TagNotFound));
    let t = "1-0:1.8.1(bad*kWh)\r\n1-0:1.8.2(1*kWh)\r\n";
    assert_eq!(parse_w_usage_accumulative(t), Err(ParseError::MalformedNumber));
}

#[test]
fn gas_uses_second_group() {
    assert_eq!(parse_gas_usage_accumulative("0-1:24.2.1(210205130000W)(07025.512*m3)\r\n"), Ok(7025512));
}

#[test]
fn gas_without_unit_is_invalid() {
    assert_eq!(parse_gas_usage_accumulative("0-1:24.2.1(210205130000W)(07025.512)\r\n"), Err(ParseError::InvalidUnit));
    assert_eq!(parse_gas_usage_accumulative("0-1:24.2.1(210205130000W)(07025.512*kWh)\r\n"), Err(ParseError::InvalidUnit));
}

#[test]
fn gas_with_one_group_has_no_value() {
    assert_eq!(parse_gas_usage_accumulative("0-1:24.2.1(07025.512*m3)\r\n"), Err(ParseError::NoValues));
}

#[test]
fn gas_malformed_number() {
    assert_eq!(parse_gas_usage_accumulative("0-1:24.2.1(x)(7a.1*m3)\r\n"), Err(ParseError::MalformedNumber));
}

#[test]
fn tariff_without_unit() {
    assert_eq!(parse_current_tariff(TELEGRAM), Ok(2000));
    assert_eq!(parse_current_tariff("0-0:96.14.0(2*kW)\r\n"), Err(ParseError::MalformedNumber));
}

#[test]
fn production_in_watts() {
    assert_eq!(parse_w_production(TELEGRAM), Ok(0));
    assert_eq!(parse_w_production("1-0:2.7.0(01.500*kW)\n"), Ok(1500000));
}

#[test]
fn usage_unit_is_matched_exactly() {
    assert_eq!(parse_w_usage("1-0:1.7.0(00.123*kW)\r\n"), Ok(123000));
    assert_eq!(parse_w_usage("1-0:1.7.0(00.123*kVA)\r\n"), Err(ParseError::MalformedNumber));
    assert_eq!(parse_w_usage("1-0:1.7.0(00.123*kWh)\r\n"), Err(ParseError::MalformedNumber));
}

#[test]
fn nett_power_is_production_minus_usage() {
    let r = Readings {
        current_tariff: Err(ParseError::TagNotFound),
        watt_usage: Ok(131000),
        watt_usage_accumulative: Err(ParseError::TagNotFound),
        watt_production: Ok(0),
        watt_production_accumulative: Err(ParseError::TagNotFound),
        gas_usage_accumulative: Err(ParseError::TagNotFound),
    };
    assert_eq!(r.watt_nett(), Some(-131000));
    assert_eq!(r.watt_accumulative_nett(), None);
}

#[test]
fn missing_gas_line_affects_gas_only() {
    let t = TELEGRAM.replace("0-1:24.2.1(210205130000W)(07025.512*m3)\r\n", "");
    let r = parse_telegram(&t);
    assert_eq!(r.gas_usage_accumulative, Err(ParseError::TagNotFound));
    assert_eq!(r.current_tariff, Ok(2000));
    assert_eq!(r.watt_usage, Ok(131000));
    assert_eq!(r.watt_usage_accumulative, Ok(14531932));
    assert_eq!(r.watt_production, Ok(0));
    assert_eq!(r.watt_production_accumulative, Ok(6241501));
    assert_eq!(r.metrics().len(), 7);
}

#[test]
fn metrics_in_fixed_order() {
    let r = parse_telegram(TELEGRAM);
    let m = r.metrics();
    let expected = vec![
        Metric { key: MetricKey::CurrentTariff, thousandths: 2000 },
        Metric { key: MetricKey::WattUsage, thousandths: 131000 },
        Metric { key: MetricKey::WattUsageAccumulative, thousandths: 14531932 },
        Metric { key: MetricKey::WattProduction, thousandths: 0 },
        Metric { key: MetricKey::WattNett, thousandths: -131000 },
        Metric { key: MetricKey::WattProductionAccumulative, thousandths: 6241501 },
        Metric { key: MetricKey::WattAccumulativeNett, thousandths: 6241501 - 14531932 },
        Metric { key: MetricKey::GasUsageAccumulative, thousandths: 7025512 },
    ];
    assert_eq!(m, expected);
}

#[test]
fn nett_skipped_without_usage() {
    let t = "1-0:2.7.0(00.200*kW)\r\n";
    let m = parse_telegram(t).metrics();
    assert_eq!(m, vec![Metric { key: MetricKey::WattProduction, thousandths: 200000 }]);
}

#[test]
fn metric_key_names() {
    assert_eq!(MetricKey::CurrentTariff.name(), "currentTariff");
    assert_eq!(MetricKey::WattNett.name(), "wattNett");
    assert_eq!(MetricKey::WattAccumulativeNett.name(), "wattAccumulativeNett");
    assert_eq!(MetricKey::GasUsageAccumulative.name(), "gasUsageAccumulative");
}

#[test]
fn timestamp_without_dst_marker() {
    assert_eq!(timestamp_text(TELEGRAM), Ok("210212094443".to_string()));
    assert_eq!(timestamp_text("0-0:1.0.0(210612094443S)\n"), Ok("210612094443".to_string()));
    assert_eq!(timestamp_text("1-0:1.7.0(1)\n"), Err(ParseError::TagNotFound));
}

#[test]
fn timestamp_in_seconds() {
    assert_eq!(parse_timestamp(TELEGRAM), Ok(1613123083));
    assert_eq!(parse_timestamp("0-0:1.0.0(211312094443W)\n"), Err(ParseError::MalformedNumber));
}
