//! Temperature sensors: which entries of the thermal and hwmon sysfs
//! classes are sensors, the files read beside them, and the reading each
//! gives once its files have been read (millidegrees Celsius).
use crate::text::{
    chars_of, ends_with, parse_i64, parse_i64_spec, replace_all, replace_str, starts_with,
    starts_with_str, string_of, trim, trim_chars,
};
use vstd::prelude::*;
use vstd::string::*;

verus! {

/// One temperature sensor's reading, in millidegrees Celsius.
#[derive(Debug, Clone, PartialEq, Eq)]
pub struct ThermalReading {
    pub label: String,
    pub milli_celsius: i64,
    /// The temperature at which the sensor reports a critical state.
    pub critical_milli_celsius: Option<i64>,
}

/// A reading's label, temperature and critical temperature.
pub open spec fn reading_view(r: ThermalReading) -> (Seq<char>, i64, Option<i64>) {
    (r.label@, r.milli_celsius, r.critical_milli_celsius)
}

/// The millidegrees a sensor file holds: its text without surrounding
/// whitespace read as a signed number; `None` when the file could not be
/// read or does not hold one.
pub open spec fn milli_reading(text: Option<Seq<char>>) -> Option<i64> {
    match text {
        Some(t) => parse_i64_spec(trim(t)),
        None => None,
    }
}

/// The view of an optional string.
pub open spec fn opt_view(s: Option<&str>) -> Option<Seq<char>> {
    match s {
        Some(t) => Some(t@),
        None => None,
    }
}

fn read_milli(text: Option<&str>) -> (r: Option<i64>)
    ensures
        r == milli_reading(opt_view(text)),
{
    match text {
        Some(t) => {
            let cs = chars_of(t);
            let tr = trim_chars(cs.as_slice());
            parse_i64(tr.as_slice())
        },
        None => None,
    }
}

fn trimmed(s: &str) -> (r: String)
    ensures
        r@ == trim(s@),
{
    let cs = chars_of(s);
    let tr = trim_chars(cs.as_slice());
    string_of(tr.as_slice())
}

/// Whether an entry of the thermal class is a thermal zone.
pub fn is_thermal_zone(name: &str) -> (b: bool)
    ensures
        b == starts_with(name@, "thermal_zone"@),
{
    let cs = chars_of(name);
    starts_with_str(cs.as_slice(), "thermal_zone")
}

/// The reading of the thermal zone `zone_name`, from the texts of its
/// `temp`, `type` and `trip_point_0_temp` files (`None` for a file that
/// could not be read): labelled by its type, or by its own name without
/// one. Not a thermal zone, or no temperature, gives no reading.
pub fn thermal_zone_reading(
    zone_name: &str,
    temp: Option<&str>,
    zone_type: Option<&str>,
    trip: Option<&str>,
) -> (r: Option<ThermalReading>)
    ensures
        r is Some <==> starts_with(zone_name@, "thermal_zone"@) && milli_reading(opt_view(temp)) is Some,
        r matches Some(x) ==> reading_view(x) == (
            match zone_type {
                Some(t) => trim(t@),
                None => zone_name@,
            },
            milli_reading(opt_view(temp))->0,
            milli_reading(opt_view(trip)),
        ),
{
    if !is_thermal_zone(zone_name) {
        return None;
    }
    let t = match read_milli(temp) {
        Some(t) => t,
        None => {
            return None;
        },
    };
    let label = match zone_type {
        Some(z) => trimmed(z),
        None => string_of(chars_of(zone_name).as_slice()),
    };
    let critical = read_milli(trip);
    Some(ThermalReading { label, milli_celsius: t, critical_milli_celsius: critical })
}

/// Whether a file of an hwmon device is a temperature input
/// (`temp*_input`).
pub open spec fn is_temp_input_spec(f: Seq<char>) -> bool {
    ends_with(f, "_input"@) && starts_with(f, "temp"@)
}

/// Whether a file of an hwmon device is a temperature input.
pub fn is_temp_input(file_name: &str) -> (b: bool)
    ensures
        b == is_temp_input_spec(file_name@),
{
    proof {
        reveal_strlit("_input");
    }
    let cs = chars_of(file_name);
    let suffix = chars_of("_input");
    if cs.len() < suffix.len() {
        return false;
    }
    let start = cs.len() - suffix.len();
    let ends = crate::text::has_prefix_at(&cs, start, &suffix);
    assert(ends == ends_with(file_name@, "_input"@)) by {
        assert(cs@.subrange(start as int, start + suffix@.len()) =~= cs@.skip(start as int));
    }
    ends && starts_with_str(cs.as_slice(), "temp")
}

/// The file beside a temperature input that holds its label.
pub fn sensor_label_file(file_name: &str) -> (f: String)
    ensures
        f@ == replace_all(file_name@, "_input"@, "_label"@),
{
    proof {
        reveal_strlit("_input");
    }
    replace_str(file_name, "_input", "_label")
}

/// The file beside a temperature input that holds its critical
/// temperature.
pub fn sensor_crit_file(file_name: &str) -> (f: String)
    ensures
        f@ == replace_all(file_name@, "_input"@, "_crit"@),
{
    proof {
        reveal_strlit("_input");
    }
    replace_str(file_name, "_input", "_crit")
}

/// The label of a sensor without a label file: the input's name without
/// `_input`, after the device name and a `/` when the device has a name.
pub open spec fn fallback_label(device: Seq<char>, f: Seq<char>) -> Seq<char> {
    let base = replace_all(f, "_input"@, ""@);
    if device.len() == 0 {
        base
    } else {
        device + "/"@ + base
    }
}

/// The reading of the temperature input `file_name` of an hwmon device,
/// from the texts of the device's `name` file and of the input, label and
/// critical files (`None` for a file that could not be read). The device
/// name and label are taken without surrounding whitespace. Not a
/// temperature input, or no temperature, gives no reading.
pub fn hwmon_reading(
    device_name: Option<&str>,
    file_name: &str,
    input: Option<&str>,
    label: Option<&str>,
    crit: Option<&str>,
) -> (r: Option<ThermalReading>)
    ensures
        r is Some <==> is_temp_input_spec(file_name@) && milli_reading(opt_view(input)) is Some,
        r matches Some(x) ==> reading_view(x) == (
            match label {
                Some(l) => trim(l@),
                None => fallback_label(
                    match device_name {
                        Some(d) => trim(d@),
                        None => seq![],
                    },
                    file_name@,
                ),
            },
            milli_reading(opt_view(input))->0,
            milli_reading(opt_view(crit)),
        ),
{
    if !is_temp_input(file_name) {
        return None;
    }
    let t = match read_milli(input) {
        Some(t) => t,
        None => {
            return None;
        },
    };
    let device = match device_name {
        Some(d) => trimmed(d),
        None => String::new(),
    };
    let name = match label {
        Some(l) => trimmed(l),
        None => {
            proof {
                reveal_strlit("_input");
            }
            let base = replace_str(file_name, "_input", "");
            if device.as_str().unicode_len() == 0 {
                base
            } else {
                let mut s = device.clone();
                s.append("/");
                s.append(base.as_str());
                s
            }
        },
    };
    let critical = read_milli(crit);
    Some(ThermalReading { label: name, milli_celsius: t, critical_milli_celsius: critical })
}

} // verus!
