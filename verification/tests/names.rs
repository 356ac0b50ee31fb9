use prometheus_client::encoding::{
    escape_name, is_quoted_label_name, is_quoted_metric_name, is_valid_legacy_label_name,
    is_valid_legacy_metric_name, negotiate_escaping_scheme, EscapingScheme, ValidationScheme,
};
use prometheus_client::registry::Prefix;

#[test]
fn metric_name_is_legacy_valid() {
    struct Scenario {
        input: &'static str,
        expected: bool,
    }

    let scenarios = vec![
        Scenario { input: "Avalid_23name", expected: true },
        Scenario { input: "_Avalid_23name", expected: true },
        Scenario { input: "1valid_23name", expected: false },
        Scenario { input: "avalid_23name", expected: true },
        Scenario { input: "Ava:lid_23name", expected: true },
        Scenario { input: "a lid_23name", expected: false },
        Scenario { input: ":leading_colon", expected: true },
        Scenario { input: "colon:in:the:middle", expected: true },
        Scenario { input: "", expected: false },
        Scenario { input: "aÅz", expected: false },
    ];

    for scenario in scenarios {
        let result = is_valid_legacy_metric_name(scenario.input);
        assert_eq!(result, scenario.expected);
    }
}

#[test]
fn label_name_is_legacy_valid() {
    struct Scenario {
        input: &'static str,
        expected: bool,
    }

    let scenarios = vec![
        Scenario { input: "Avalid_23name", expected: true },
        Scenario { input: "_Avalid_23name", expected: true },
        Scenario { input: "1valid_23name", expected: false },
        Scenario { input: "avalid_23name", expected: true },
        Scenario { input: "Ava:lid_23name", expected: false },
        Scenario { input: "a lid_23name", expected: false },
        Scenario { input: ":leading_colon", expected: false },
        Scenario { input: "colon:in:the:middle", expected: false },
        Scenario { input: "", expected: false },
        Scenario { input: "aÅz", expected: false },
    ];

    for scenario in scenarios {
        let result = is_valid_legacy_label_name(scenario.input);
        assert_eq!(result, scenario.expected);
    }
}

#[test]
fn test_escape_name() {
    struct Scenario {
        name: &'static str,
        input: &'static str,
        expected_underscores: &'static str,
        expected_dots: &'static str,
        expected_value: &'static str,
    }

    let scenarios = vec![
        Scenario {
            name: "empty string",
            input: "",
            expected_underscores: "",
            expected_dots: "",
            expected_value: "",
        },
        Scenario {
            name: "legacy valid name",
            input: "no:escaping_required",
            expected_underscores: "no:escaping_required",
            expected_dots: "no:escaping__required",
            expected_value: "no:escaping_required",
        },
        Scenario {
            name: "name with dots",
            input: "mysystem.prod.west.cpu.load",
            expected_underscores: "mysystem_prod_west_cpu_load",
            expected_dots: "mysystem_dot_prod_dot_west_dot_cpu_dot_load",
            expected_value: "U__mysystem_2e_prod_2e_west_2e_cpu_2e_load",
        },
        Scenario {
            name: "name with dots and underscore",
            input: "mysystem.prod.west.cpu.load_total",
            expected_underscores: "mysystem_prod_west_cpu_load_total",
            expected_dots: "mysystem_dot_prod_dot_west_dot_cpu_dot_load__total",
            expected_value: "U__mysystem_2e_prod_2e_west_2e_cpu_2e_load__total",
        },
        Scenario {
            name: "name with dots and colon",
            input: "http.status:sum",
            expected_underscores: "http_status:sum",
            expected_dots: "http_dot_status:sum",
            expected_value: "U__http_2e_status:sum",
        },
        Scenario {
            name: "name with spaces and emoji",
            input: "label with 😱",
            expected_underscores: "label_with__",
            expected_dots: "label__with____",
            expected_value: "U__label_20_with_20__1f631_",
        },
        Scenario {
            name: "name with unicode characters > 0x100",
            input: "花火",
            expected_underscores: "__",
            expected_dots: "____",
            expected_value: "U___82b1__706b_",
        },
        Scenario {
            name: "name with spaces and edge-case value",
            input: "label with \u{0100}",
            expected_underscores: "label_with__",
            expected_dots: "label__with____",
            expected_value: "U__label_20_with_20__100_",
        },
    ];

    for scenario in scenarios {
        let result = escape_name(scenario.input, EscapingScheme::UnderscoreEscaping);
        assert_eq!(result, scenario.expected_underscores, "{}", scenario.name);

        let result = escape_name(scenario.input, EscapingScheme::DotsEscaping);
        assert_eq!(result, scenario.expected_dots, "{}", scenario.name);

        let result = escape_name(scenario.input, EscapingScheme::ValueEncodingEscaping);
        assert_eq!(result, scenario.expected_value, "{}", scenario.name);
    }
}

#[test]
fn escaped_names_are_legacy_valid() {
    for input in ["mysystem.prod.west.cpu.load", "label with 😱", "花火", "1abc", "a-b"] {
        for scheme in [
            EscapingScheme::UnderscoreEscaping,
            EscapingScheme::DotsEscaping,
            EscapingScheme::ValueEncodingEscaping,
        ] {
            let escaped = escape_name(input, scheme);
            assert!(is_valid_legacy_metric_name(&escaped), "{} {}", input, escaped);
        }
    }
}

#[test]
fn no_escaping_keeps_name() {
    assert_eq!(escape_name("a.b c", EscapingScheme::NoEscaping), "a.b c");
}

#[test]
fn escaping_scheme_names() {
    assert_eq!(EscapingScheme::UnderscoreEscaping.as_str(), "underscores");
    assert_eq!(EscapingScheme::DotsEscaping.as_str(), "dots");
    assert_eq!(EscapingScheme::ValueEncodingEscaping.as_str(), "values");
    assert_eq!(EscapingScheme::NoEscaping.as_str(), "allow-utf-8");
}

#[test]
fn negotiates_escaping_from_header() {
    let default = EscapingScheme::UnderscoreEscaping;
    assert_eq!(
        negotiate_escaping_scheme("application/openmetrics-text;escaping=dots", default),
        EscapingScheme::DotsEscaping
    );
    assert_eq!(
        negotiate_escaping_scheme("text/plain;version=0.0.4;escaping=values", default),
        EscapingScheme::ValueEncodingEscaping
    );
    assert_eq!(
        negotiate_escaping_scheme("text/plain;version=0.0.4", default),
        EscapingScheme::UnderscoreEscaping
    );
}

#[test]
fn quoting_under_utf8_validation() {
    assert!(!is_quoted_metric_name("valid_name", None, ValidationScheme::UTF8Validation));
    assert!(is_quoted_metric_name("in.valid", None, ValidationScheme::UTF8Validation));
    assert!(!is_quoted_metric_name("in.valid", None, ValidationScheme::LegacyValidation));
    let prefix = Prefix::new("my.prefix".to_string());
    assert!(is_quoted_metric_name("valid", Some(&prefix), ValidationScheme::UTF8Validation));
    assert!(is_quoted_label_name("a:b", ValidationScheme::UTF8Validation));
    assert!(!is_quoted_label_name("a_b", ValidationScheme::UTF8Validation));
    assert!(!is_quoted_label_name("a:b", ValidationScheme::LegacyValidation));
    assert_eq!(ValidationScheme::default(), ValidationScheme::LegacyValidation);
    assert_eq!(EscapingScheme::default(), EscapingScheme::UnderscoreEscaping);
}
