use ashell::system_info::cpu_data_from_samples;
use ashell::system_info::select_temperature;
use ashell::system_info::CpuMetrics;
use ashell::system_info::CpuModuleConfig;
use ashell::system_info::FrequencyUnit;
use ashell::system_info::IndicatorLevel;
use ashell::system_info::SensorReading;
use ashell::system_info::TemperatureData;
use ashell::system_info::TemperatureModuleConfig;
use ashell::system_info::SystemInfoNewConfig;
use ashell::text::u64_to_string;

fn cpu_config(metrics: CpuMetrics, unit: FrequencyUnit) -> CpuModuleConfig {
    let mut c = CpuModuleConfig::default();
    c.metrics = metrics;
    c.frequency_unit = unit;
    c
}

#[test]
fn decimal_rendering() {
    assert_eq!(u64_to_string(0), "0");
    assert_eq!(u64_to_string(7), "7");
    assert_eq!(u64_to_string(42), "42");
    assert_eq!(u64_to_string(10_000), "10000");
    assert_eq!(u64_to_string(u64::MAX), format!("{}", u64::MAX));
}

#[test]
fn frequency_formatting() {
    let ghz = cpu_config(CpuMetrics::Usage, FrequencyUnit::GHz);
    assert_eq!(ghz.format_frequency(3400), "3.4 GHz");
    assert_eq!(ghz.format_frequency(3000), "3 GHz");
    assert_eq!(ghz.format_frequency(3456), "3.456 GHz");
    assert_eq!(ghz.format_frequency(3450), "3.45 GHz");
    assert_eq!(ghz.format_frequency(3040), "3.04 GHz");
    assert_eq!(ghz.format_frequency(500), "0.5 GHz");
    assert_eq!(ghz.format_frequency(0), "0 GHz");

    let mhz = cpu_config(CpuMetrics::Usage, FrequencyUnit::MHz);
    assert_eq!(mhz.format_frequency(2800), "2800 MHz");

    let khz = cpu_config(CpuMetrics::Usage, FrequencyUnit::KHz);
    assert_eq!(khz.format_frequency(5), "5000 kHz");
}

#[test]
fn cpu_display_text() {
    let data = ashell::system_info::CpuData {
        usage: 42,
        avg_frequency: 3400,
        min_frequency: 1000,
        max_frequency: 4000,
    };
    let usage_only = cpu_config(CpuMetrics::Usage, FrequencyUnit::GHz);
    assert_eq!(usage_only.format_display_text(&data), "42%");

    let with_avg = cpu_config(CpuMetrics::UsageAndFrequency, FrequencyUnit::GHz);
    assert_eq!(with_avg.format_display_text(&data), "42% @ 3.4 GHz");

    let all = cpu_config(CpuMetrics::AllFrequencies, FrequencyUnit::GHz);
    assert_eq!(all.format_display_text(&data), "42% @ 1 GHz/3.4 GHz/4 GHz");
}

#[test]
fn temperature_display_text() {
    let config = TemperatureModuleConfig::default();
    let warm = TemperatureData { temperature: Some(55), sensor: "k10temp Tctl".to_string() };
    assert_eq!(config.format_display_text(&warm), "55°C");
    let cold = TemperatureData { temperature: Some(-5), sensor: "k10temp Tctl".to_string() };
    assert_eq!(config.format_display_text(&cold), "-5°C");
    let missing = TemperatureData { temperature: None, sensor: "k10temp Tctl".to_string() };
    assert_eq!(config.format_display_text(&missing), "N/A");
}

#[test]
fn cpu_sample_aggregation() {
    let d = cpu_data_from_samples(50, &vec![1000, 2000, 3000]);
    assert_eq!(d.usage, 50);
    assert_eq!(d.avg_frequency, 2000);
    assert_eq!(d.min_frequency, 1000);
    assert_eq!(d.max_frequency, 3000);

    // integer division truncates the average
    let d = cpu_data_from_samples(1, &vec![1, 2]);
    assert_eq!(d.avg_frequency, 1);

    // no samples at all: everything reads zero
    let d = cpu_data_from_samples(0, &Vec::new());
    assert_eq!(d.avg_frequency, 0);
    assert_eq!(d.min_frequency, 0);
    assert_eq!(d.max_frequency, 0);
}

#[test]
fn temperature_sensor_selection() {
    let readings = vec![
        SensorReading { label: "acpitz temp1".to_string(), temperature: Some(40) },
        SensorReading { label: "k10temp Tctl".to_string(), temperature: Some(55) },
    ];
    assert_eq!(select_temperature(&readings, "k10temp Tctl"), Some(55));
    assert_eq!(select_temperature(&readings, "acpitz"), Some(40));
    assert_eq!(select_temperature(&readings, "coretemp"), None);
    assert_eq!(select_temperature(&Vec::new(), "k10temp"), None);

    // the first matching sensor wins even when its reading is unusable
    let readings = vec![
        SensorReading { label: "k10temp Tctl".to_string(), temperature: None },
        SensorReading { label: "k10temp Tdie".to_string(), temperature: Some(60) },
    ];
    assert_eq!(select_temperature(&readings, "k10temp"), None);
}

#[test]
fn threshold_indicator_boundaries() {
    let cpu = CpuModuleConfig::default();
    assert_eq!(cpu.indicator(0), IndicatorLevel::Normal);
    assert_eq!(cpu.indicator(60), IndicatorLevel::Normal);
    assert_eq!(cpu.indicator(61), IndicatorLevel::Warning);
    assert_eq!(cpu.indicator(79), IndicatorLevel::Warning);
    assert_eq!(cpu.indicator(80), IndicatorLevel::Alert);
    assert_eq!(cpu.indicator(100), IndicatorLevel::Alert);

    let temp = TemperatureModuleConfig::default();
    assert_eq!(temp.indicator(-10), IndicatorLevel::Normal);
    assert_eq!(temp.indicator(70), IndicatorLevel::Warning);
    assert_eq!(temp.indicator(95), IndicatorLevel::Alert);
}

#[test]
fn config_defaults() {
    let c = SystemInfoNewConfig::default();
    assert_eq!(c.cpu.warn_threshold, 60);
    assert_eq!(c.cpu.alert_threshold, 80);
    assert!(matches!(c.cpu.format, ashell::system_info::CpuFormat::IconAndPercentage));
    assert!(matches!(c.cpu.metrics, CpuMetrics::Usage));
    assert!(matches!(c.cpu.frequency_unit, FrequencyUnit::GHz));
    assert!(c.cpu.custom_name.is_none());
    assert_eq!(c.temperature.warn_threshold, 60);
    assert_eq!(c.temperature.alert_threshold, 80);
    assert_eq!(c.temperature.sensor, "k10temp Tctl");
    assert!(matches!(
        c.temperature.format,
        ashell::system_info::TemperatureFormat::IconAndValue
    ));
}
