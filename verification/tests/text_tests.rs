use nazar::json::{push_json_str, schema_text};
use nazar::text::{
    decimal_string, parse_i64, parse_u32, parse_u64, parse_usize, replace_str, split_lines,
    split_words, str_eq, trim_chars,
};
use nazar::thermal::{
    hwmon_reading, is_temp_input, is_thermal_zone, sensor_crit_file, sensor_label_file,
    thermal_zone_reading, ThermalReading,
};

fn chars(s: &str) -> Vec<char> {
    s.chars().collect()
}

fn text(v: &[char]) -> String {
    v.iter().collect()
}

#[test]
fn numbers_parse_as_std_does() {
    for s in ["0", "42", "+7", "18446744073709551615", "18446744073709551616", "", "+", "-1", "1 2", "٣"] {
        assert_eq!(parse_u64(&chars(s)), s.parse::<u64>().ok(), "{s:?}");
        assert_eq!(parse_u32(&chars(s)), s.parse::<u32>().ok(), "{s:?}");
        assert_eq!(parse_usize(&chars(s)), s.parse::<usize>().ok(), "{s:?}");
    }
    for s in [
        "0",
        "-0",
        "42",
        "-42",
        "+42",
        "-+1",
        "+-1",
        "-",
        "9223372036854775807",
        "9223372036854775808",
        "-9223372036854775808",
        "-9223372036854775809",
        "4x",
    ] {
        assert_eq!(parse_i64(&chars(s)), s.parse::<i64>().ok(), "{s:?}");
    }
}

#[test]
fn decimal_notation() {
    for n in [0u64, 7, 10, 99, 8090, u64::MAX] {
        assert_eq!(decimal_string(n), n.to_string());
    }
}

#[test]
fn words_lines_and_trim() {
    let words: Vec<String> = split_words(&chars("  a\tbb  c\n")).iter().map(|w| text(w)).collect();
    assert_eq!(words, vec!["a", "bb", "c"]);
    let lines: Vec<String> = split_lines(&chars("x\r\ny\n\nz")).iter().map(|l| text(l)).collect();
    assert_eq!(lines, "x\r\ny\n\nz".lines().collect::<Vec<_>>());
    assert_eq!(text(&trim_chars(&chars("\u{3000} mid \n"))), "mid");
    assert!(str_eq("abc", "abc"));
    assert!(!str_eq("abc", "abd"));
}

#[test]
fn replace_matches_std() {
    for (s, from, to) in [
        ("temp1_input", "_input", "_label"),
        ("temp1_input_input", "_input", ""),
        ("aaa", "aa", "b"),
        ("", "x", "y"),
        ("no match", "zz", "q"),
    ] {
        assert_eq!(replace_str(s, from, to), s.replace(from, to));
    }
}

#[test]
fn json_strings_escape() {
    let mut out = Vec::new();
    push_json_str(&mut out, "a\"b\\c\nd\u{1}");
    let s = text(&out);
    let back: String = serde_json::from_str(&s).unwrap();
    assert_eq!(back, "a\"b\\c\nd\u{1}");
    assert_eq!(s, "\"a\\\"b\\\\c\\nd\\u0001\"");
}

#[test]
fn schemas_are_json_objects() {
    let props = vec![("q", "string", "say \"hi\""), ("n", "integer", "count")];
    let required = vec!["q"];
    let s = schema_text(&props, &required);
    let v: serde_json::Value = serde_json::from_str(&s).unwrap();
    assert_eq!(v["properties"]["q"]["description"], "say \"hi\"");
    assert_eq!(v["properties"]["n"]["type"], "integer");
    assert_eq!(v["required"][0], "q");
    let empty = schema_text(&Vec::new(), &Vec::new());
    assert_eq!(empty, "{\"type\":\"object\",\"properties\":{},\"required\":[]}");
}

#[test]
fn read_temperatures_runs() {
    let zone = thermal_zone_reading("thermal_zone0", Some("45000\n"), Some("x86_pkg_temp\n"), Some("100000\n")).unwrap();
    assert_eq!(
        zone,
        ThermalReading {
            label: "x86_pkg_temp".to_string(),
            milli_celsius: 45000,
            critical_milli_celsius: Some(100000),
        }
    );
    assert!(!zone.label.is_empty());
    let celsius = zone.milli_celsius as f64 / 1000.0;
    assert!(celsius > -50.0 && celsius < 200.0);
}

#[test]
fn thermal_zones() {
    assert!(is_thermal_zone("thermal_zone3"));
    assert!(!is_thermal_zone("cooling_device0"));
    assert_eq!(thermal_zone_reading("cooling_device0", Some("1"), None, None), None);
    assert_eq!(thermal_zone_reading("thermal_zone1", Some("n/a"), None, None), None);
    assert_eq!(thermal_zone_reading("thermal_zone1", None, None, None), None);
    let r = thermal_zone_reading("thermal_zone1", Some(" -1500 "), None, Some("hot")).unwrap();
    assert_eq!(r.label, "thermal_zone1");
    assert_eq!(r.milli_celsius, -1500);
    assert_eq!(r.critical_milli_celsius, None);
}

#[test]
fn hwmon_sensors() {
    assert!(is_temp_input("temp1_input"));
    assert!(!is_temp_input("temp1_label"));
    assert!(!is_temp_input("fan1_input"));
    assert_eq!(sensor_label_file("temp2_input"), "temp2_label");
    assert_eq!(sensor_crit_file("temp2_input"), "temp2_crit");

    let labelled = hwmon_reading(Some("coretemp\n"), "temp1_input", Some("52000"), Some("Core 0\n"), Some("100000")).unwrap();
    assert_eq!(labelled.label, "Core 0");
    assert_eq!(labelled.milli_celsius, 52000);
    assert_eq!(labelled.critical_milli_celsius, Some(100000));

    let named = hwmon_reading(Some("nvme\n"), "temp3_input", Some("38000"), None, None).unwrap();
    assert_eq!(named.label, "nvme/temp3");
    let anonymous = hwmon_reading(None, "temp3_input", Some("38000"), None, None).unwrap();
    assert_eq!(anonymous.label, "temp3");
    assert_eq!(hwmon_reading(None, "fan1_input", Some("38000"), None, None), None);
    assert_eq!(hwmon_reading(None, "temp1_input", Some(""), None, None), None);
}
