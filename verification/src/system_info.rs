//! Pure telemetry logic for the system-information modules.
//!
//! The host process collects raw samples (per-core frequencies, global
//! usage, sensor readings) and hands them in as plain values; everything
//! that derives displayable data from them lives here: aggregation of the
//! frequency samples, selection of the configured temperature sensor,
//! threshold classification, and the display text formulas.

use vstd::prelude::*;

verus! {

use crate::text::contains_seq;
use crate::text::dec_digit;
use crate::text::dec_rep;
use crate::text::dec_rep_signed;
use crate::text::digit_str;
use crate::text::i64_to_string;
use crate::text::str_bytes;
use crate::text::string_bytes;
use crate::text::u64_to_string;
use vstd::string::StringExecFns;

/// Aggregated CPU telemetry: usage in percent and frequencies in MHz.
#[derive(Clone, Copy, Debug, PartialEq, Eq, Structural)]
pub struct CpuData {
    pub usage: u32,
    pub avg_frequency: u64,
    pub min_frequency: u64,
    pub max_frequency: u64,
}

/// The reading of the configured temperature sensor, if one was found.
#[derive(Debug)]
pub struct TemperatureData {
    pub temperature: Option<i32>,
    pub sensor: String,
}

impl Clone for TemperatureData {
    fn clone(&self) -> (r: Self)
        ensures
            r.temperature == self.temperature,
            r.sensor@ == self.sensor@,
    {
        TemperatureData { temperature: self.temperature, sensor: self.sensor.clone() }
    }
}

/// One refresh of the shared telemetry snapshot.
#[derive(Debug)]
pub struct SystemInfoData {
    pub cpu: CpuData,
    pub temperature: TemperatureData,
}

impl Clone for SystemInfoData {
    fn clone(&self) -> (r: Self)
        ensures
            r.cpu == self.cpu,
            r.temperature.temperature == self.temperature.temperature,
            r.temperature.sensor@ == self.temperature.sensor@,
    {
        SystemInfoData { cpu: self.cpu, temperature: self.temperature.clone() }
    }
}

#[derive(Clone, Copy, Debug, PartialEq, Eq, Structural)]
pub enum CpuFormat {
    Icon,
    Percentage,
    IconAndPercentage,
}

#[derive(Clone, Copy, Debug, PartialEq, Eq, Structural)]
pub enum CpuMetrics {
    Usage,
    UsageAndFrequency,
    AllFrequencies,
}

#[derive(Clone, Copy, Debug, PartialEq, Eq, Structural)]
pub enum FrequencyUnit {
    KHz,
    MHz,
    GHz,
}

#[derive(Clone, Copy, Debug, PartialEq, Eq, Structural)]
pub enum TemperatureFormat {
    Icon,
    Value,
    IconAndValue,
}

/// Configuration of the CPU module.
#[derive(Debug)]
pub struct CpuModuleConfig {
    pub warn_threshold: u32,
    pub alert_threshold: u32,
    pub format: CpuFormat,
    pub metrics: CpuMetrics,
    pub frequency_unit: FrequencyUnit,
    pub custom_name: Option<String>,
}

impl Default for CpuModuleConfig {
    fn default() -> (c: Self)
        ensures
            c.warn_threshold == 60,
            c.alert_threshold == 80,
            c.format is IconAndPercentage,
            c.metrics is Usage,
            c.frequency_unit is GHz,
            c.custom_name is None,
    {
        CpuModuleConfig {
            warn_threshold: 60,
            alert_threshold: 80,
            format: CpuFormat::IconAndPercentage,
            metrics: CpuMetrics::Usage,
            frequency_unit: FrequencyUnit::GHz,
            custom_name: Option::None,
        }
    }
}

/// Configuration of the temperature module.
#[derive(Debug)]
pub struct TemperatureModuleConfig {
    pub warn_threshold: i32,
    pub alert_threshold: i32,
    pub sensor: String,
    pub format: TemperatureFormat,
    pub custom_name: Option<String>,
}

impl Default for TemperatureModuleConfig {
    fn default() -> (c: Self)
        ensures
            c.warn_threshold == 60,
            c.alert_threshold == 80,
            c.sensor@ == "k10temp Tctl"@,
            c.format is IconAndValue,
            c.custom_name is None,
    {
        TemperatureModuleConfig {
            warn_threshold: 60,
            alert_threshold: 80,
            sensor: String::from_str("k10temp Tctl"),
            format: TemperatureFormat::IconAndValue,
            custom_name: Option::None,
        }
    }
}

/// Configuration of the combined system-information module.
#[derive(Debug)]
pub struct SystemInfoNewConfig {
    pub cpu: CpuModuleConfig,
    pub temperature: TemperatureModuleConfig,
}

impl Default for SystemInfoNewConfig {
    fn default() -> (c: Self)
        ensures
            c.cpu.warn_threshold == 60,
            c.cpu.alert_threshold == 80,
            c.temperature.warn_threshold == 60,
            c.temperature.alert_threshold == 80,
            c.temperature.sensor@ == "k10temp Tctl"@,
    {
        SystemInfoNewConfig {
            cpu: CpuModuleConfig::default(),
            temperature: TemperatureModuleConfig::default(),
        }
    }
}

/// How a telemetry value relates to its warning and alert thresholds.
#[derive(Clone, Copy, Debug, PartialEq, Eq, Structural)]
pub enum IndicatorLevel {
    Normal,
    Warning,
    Alert,
}

/// The warning classification used by the bar widgets: strictly between
/// the thresholds is a warning, at or above the alert threshold is an
/// alert, everything else (the warning threshold itself included) is
/// normal.
pub open spec fn spec_indicator(value: int, warn: int, alert: int) -> IndicatorLevel {
    if warn < value < alert {
        IndicatorLevel::Warning
    } else if value >= alert {
        IndicatorLevel::Alert
    } else {
        IndicatorLevel::Normal
    }
}

impl CpuModuleConfig {
    /// Classifies a CPU usage value against the configured thresholds.
    pub fn indicator(&self, usage: u32) -> (r: IndicatorLevel)
        ensures
            r == spec_indicator(
                usage as int,
                self.warn_threshold as int,
                self.alert_threshold as int,
            ),
    {
        if usage > self.warn_threshold && usage < self.alert_threshold {
            IndicatorLevel::Warning
        } else if usage >= self.alert_threshold {
            IndicatorLevel::Alert
        } else {
            IndicatorLevel::Normal
        }
    }
}

impl TemperatureModuleConfig {
    /// Classifies a temperature reading against the configured thresholds.
    pub fn indicator(&self, temperature: i32) -> (r: IndicatorLevel)
        ensures
            r == spec_indicator(
                temperature as int,
                self.warn_threshold as int,
                self.alert_threshold as int,
            ),
    {
        if temperature > self.warn_threshold && temperature < self.alert_threshold {
            IndicatorLevel::Warning
        } else if temperature >= self.alert_threshold {
            IndicatorLevel::Alert
        } else {
            IndicatorLevel::Normal
        }
    }
}

/// Sum of a sequence of frequency samples.
pub open spec fn seq_sum(s: Seq<u64>) -> int
    decreases s.len(),
{
    if s.len() == 0 {
        0
    } else {
        seq_sum(s.drop_last()) + s.last()
    }
}

/// Smallest sample of a non-empty sequence.
pub open spec fn seq_min(s: Seq<u64>) -> u64
    recommends
        s.len() > 0,
    decreases s.len(),
{
    if s.len() <= 1 {
        s[0]
    } else if s.last() < seq_min(s.drop_last()) {
        s.last()
    } else {
        seq_min(s.drop_last())
    }
}

/// Largest sample of a non-empty sequence.
pub open spec fn seq_max(s: Seq<u64>) -> u64
    recommends
        s.len() > 0,
    decreases s.len(),
{
    if s.len() <= 1 {
        s[0]
    } else if s.last() > seq_max(s.drop_last()) {
        s.last()
    } else {
        seq_max(s.drop_last())
    }
}

proof fn lemma_seq_sum_nonneg(s: Seq<u64>)
    ensures
        seq_sum(s) >= 0,
    decreases s.len(),
{
    if s.len() > 0 {
        lemma_seq_sum_nonneg(s.drop_last());
    }
}

/// Aggregates one round of CPU samples: global usage as reported, and the
/// average (integer division), minimum and maximum of the per-core
/// frequencies, all zero when there are no samples.
pub fn cpu_data_from_samples(usage: u32, frequencies: &Vec<u64>) -> (d: CpuData)
    requires
        seq_sum(frequencies@) <= u64::MAX,
    ensures
        d.usage == usage,
        d.avg_frequency as int == if frequencies@.len() == 0 {
            0
        } else {
            seq_sum(frequencies@) / frequencies@.len() as int
        },
        d.min_frequency == if frequencies@.len() == 0 {
            0u64
        } else {
            seq_min(frequencies@)
        },
        d.max_frequency == if frequencies@.len() == 0 {
            0u64
        } else {
            seq_max(frequencies@)
        },
{
    let n = frequencies.len();
    if n == 0 {
        return CpuData { usage, avg_frequency: 0, min_frequency: 0, max_frequency: 0 };
    }
    let mut sum: u64 = 0;
    let mut mn: u64 = frequencies[0];
    let mut mx: u64 = frequencies[0];
    let mut i: usize = 0;
    while i < n
        invariant
            n == frequencies@.len(),
            0 < n,
            0 <= i <= n,
            seq_sum(frequencies@) <= u64::MAX,
            sum == seq_sum(frequencies@.subrange(0, i as int)),
            i > 0 ==> mn == seq_min(frequencies@.subrange(0, i as int)),
            i > 0 ==> mx == seq_max(frequencies@.subrange(0, i as int)),
            i == 0 ==> mn == frequencies@[0] && mx == frequencies@[0],
        decreases n - i,
    {
        proof {
            lemma_prefix_sum_bound(frequencies@, i + 1);
            assert(frequencies@.subrange(0, i + 1).drop_last() =~= frequencies@.subrange(
                0,
                i as int,
            ));
            assert(frequencies@.subrange(0, i + 1).last() == frequencies@[i as int]);
            lemma_seq_sum_nonneg(frequencies@.subrange(0, i as int));
        }
        sum = sum + frequencies[i];
        if frequencies[i] < mn {
            mn = frequencies[i];
        }
        if frequencies[i] > mx {
            mx = frequencies[i];
        }
        i += 1;
    }
    proof {
        assert(frequencies@.subrange(0, n as int) =~= frequencies@);
    }
    let avg = sum / (n as u64);
    CpuData { usage, avg_frequency: avg, min_frequency: mn, max_frequency: mx }
}

/// The sum of a prefix never exceeds the sum of the whole sequence.
proof fn lemma_prefix_sum_bound(s: Seq<u64>, i: int)
    requires
        0 <= i <= s.len(),
    ensures
        seq_sum(s.subrange(0, i)) <= seq_sum(s),
    decreases s.len() - i,
{
    if i == s.len() {
        assert(s.subrange(0, i) =~= s);
    } else {
        lemma_prefix_sum_bound(s, i + 1);
        assert(s.subrange(0, i + 1).drop_last() =~= s.subrange(0, i));
        assert(s.subrange(0, i + 1).last() == s[i]);
    }
}

/// One raw sensor reading handed in by the host: the component label and
/// its temperature, already reduced to whole degrees when the reading was
/// usable.
#[derive(Debug)]
pub struct SensorReading {
    pub label: String,
    pub temperature: Option<i32>,
}

/// The reading of the first sensor whose label contains the configured
/// sensor name; a missing or unusable reading on that sensor is not
/// papered over by later ones.
pub open spec fn spec_select_temperature(readings: Seq<SensorReading>, sensor: Seq<u8>) -> Option<
    i32,
>
    decreases readings.len(),
{
    if readings.len() == 0 {
        Option::None
    } else if contains_seq(string_bytes(readings[0].label), sensor) {
        readings[0].temperature
    } else {
        spec_select_temperature(readings.drop_first(), sensor)
    }
}

fn select_temperature_from(readings: &Vec<SensorReading>, sensor: &str, i: usize) -> (r: Option<
    i32,
>)
    requires
        i <= readings@.len(),
    ensures
        r == spec_select_temperature(readings@.skip(i as int), str_bytes(sensor)),
    decreases readings@.len() - i,
{
    if i == readings.len() {
        return None;
    }
    proof {
        assert(readings@.skip(i as int)[0] == readings@[i as int]);
        assert(readings@.skip(i as int).drop_first() =~= readings@.skip(i + 1));
    }
    if crate::text::str_contains(readings[i].label.as_str(), sensor) {
        readings[i].temperature
    } else {
        select_temperature_from(readings, sensor, i + 1)
    }
}

/// Picks the reading of the configured temperature sensor out of the raw
/// sensor list.
pub fn select_temperature(readings: &Vec<SensorReading>, sensor: &str) -> (r: Option<i32>)
    ensures
        r == spec_select_temperature(readings@, str_bytes(sensor)),
{
    let r = select_temperature_from(readings, sensor, 0);
    proof {
        assert(readings@.skip(0) =~= readings@);
    }
    r
}

/// The frequency display text: the raw MHz sample converted to the
/// configured unit.  A gigahertz value is printed with its exact decimal
/// fraction, trailing zeros trimmed.
pub open spec fn spec_frequency_text(freq: int, unit: FrequencyUnit) -> Seq<char> {
    match unit {
        FrequencyUnit::KHz => dec_rep(freq * 1000) + " kHz"@,
        FrequencyUnit::MHz => dec_rep(freq) + " MHz"@,
        FrequencyUnit::GHz => ghz_rep(freq) + " GHz"@,
    }
}

/// Decimal form of `freq / 1000` with up to three fraction digits,
/// trailing zeros trimmed.
pub open spec fn ghz_rep(freq: int) -> Seq<char> {
    let whole = freq / 1000;
    let frac = freq % 1000;
    if frac == 0 {
        dec_rep(whole)
    } else if frac % 10 != 0 {
        dec_rep(whole) + "."@ + seq![
            dec_digit(frac / 100),
            dec_digit((frac / 10) % 10),
            dec_digit(frac % 10),
        ]
    } else if (frac / 10) % 10 != 0 {
        dec_rep(whole) + "."@ + seq![dec_digit(frac / 100), dec_digit((frac / 10) % 10)]
    } else {
        dec_rep(whole) + "."@ + seq![dec_digit(frac / 100)]
    }
}

impl CpuModuleConfig {
    /// Renders a frequency sample in the configured unit.
    pub fn format_frequency(&self, frequency: u64) -> (s: String)
        requires
            self.frequency_unit is KHz ==> frequency * 1000 <= u64::MAX,
        ensures
            s@ == spec_frequency_text(frequency as int, self.frequency_unit),
    {
        match self.frequency_unit {
            FrequencyUnit::KHz => {
                let mut s = u64_to_string(frequency * 1000);
                s.append(" kHz");
                s
            },
            FrequencyUnit::MHz => {
                let mut s = u64_to_string(frequency);
                s.append(" MHz");
                s
            },
            FrequencyUnit::GHz => {
                let whole = frequency / 1000;
                let frac = frequency % 1000;
                let mut s = u64_to_string(whole);
                if frac != 0 {
                    s.append(".");
                    let d1 = frac / 100;
                    let d2 = (frac / 10) % 10;
                    let d3 = frac % 10;
                    if d3 != 0 {
                        s.append(digit_str(d1));
                        s.append(digit_str(d2));
                        s.append(digit_str(d3));
                        assert(s@ =~= ghz_rep(frequency as int));
                    } else if d2 != 0 {
                        s.append(digit_str(d1));
                        s.append(digit_str(d2));
                        assert(s@ =~= ghz_rep(frequency as int));
                    } else {
                        s.append(digit_str(d1));
                        assert(s@ =~= ghz_rep(frequency as int));
                    }
                }
                s.append(" GHz");
                s
            },
        }
    }
}

/// The CPU display text: the usage percentage, optionally followed by
/// the average frequency, or by the minimum, average and maximum.
pub open spec fn spec_cpu_display(cfg: CpuModuleConfig, d: CpuData) -> Seq<char> {
    match cfg.metrics {
        CpuMetrics::Usage => dec_rep(d.usage as int) + "%"@,
        CpuMetrics::UsageAndFrequency => dec_rep(d.usage as int) + "% @ "@ + spec_frequency_text(
            d.avg_frequency as int,
            cfg.frequency_unit,
        ),
        CpuMetrics::AllFrequencies => dec_rep(d.usage as int) + "% @ "@ + spec_frequency_text(
            d.min_frequency as int,
            cfg.frequency_unit,
        ) + "/"@ + spec_frequency_text(d.avg_frequency as int, cfg.frequency_unit) + "/"@
            + spec_frequency_text(d.max_frequency as int, cfg.frequency_unit),
    }
}

impl CpuModuleConfig {
    /// Renders the bar text for the CPU module.
    pub fn format_display_text(&self, cpu_data: &CpuData) -> (s: String)
        requires
            self.frequency_unit is KHz ==> cpu_data.avg_frequency * 1000 <= u64::MAX
                && cpu_data.min_frequency * 1000 <= u64::MAX && cpu_data.max_frequency * 1000
                <= u64::MAX,
        ensures
            s@ == spec_cpu_display(*self, *cpu_data),
    {
        match self.metrics {
            CpuMetrics::Usage => {
                let mut s = u64_to_string(cpu_data.usage as u64);
                s.append("%");
                s
            },
            CpuMetrics::UsageAndFrequency => {
                let mut s = u64_to_string(cpu_data.usage as u64);
                s.append("% @ ");
                s.append(self.format_frequency(cpu_data.avg_frequency).as_str());
                s
            },
            CpuMetrics::AllFrequencies => {
                let mut s = u64_to_string(cpu_data.usage as u64);
                s.append("% @ ");
                s.append(self.format_frequency(cpu_data.min_frequency).as_str());
                s.append("/");
                s.append(self.format_frequency(cpu_data.avg_frequency).as_str());
                s.append("/");
                s.append(self.format_frequency(cpu_data.max_frequency).as_str());
                s
            },
        }
    }
}

/// The temperature display text: degrees Celsius, or a placeholder while
/// the sensor has no usable reading.
pub open spec fn spec_temperature_display(t: Option<i32>) -> Seq<char> {
    match t {
        Option::Some(v) => dec_rep_signed(v as int) + "°C"@,
        Option::None => "N/A"@,
    }
}

impl TemperatureModuleConfig {
    /// Renders the bar text for the temperature module.
    pub fn format_display_text(&self, temperature_data: &TemperatureData) -> (s: String)
        ensures
            s@ == spec_temperature_display(temperature_data.temperature),
    {
        match &temperature_data.temperature {
            Option::Some(v) => {
                let mut s = i64_to_string(*v as i64);
                s.append("°C");
                s
            },
            Option::None => String::from_str("N/A"),
        }
    }
}

} // verus!
