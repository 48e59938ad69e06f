use aush::info::{info_panel, panel_is_clean, stat_value};

const CY: &str = "\x1b[36m";
const RS: &str = "\x1b[0m";

fn stats(pairs: &[(&str, &str)]) -> Vec<(String, String)> {
    pairs.iter().map(|(k, v)| (k.to_string(), v.to_string())).collect()
}

fn bar() -> String {
    format!("{}│{}", CY, RS)
}

fn row2(l: &str, r: &str) -> String {
    format!("{b}{l}{b}{r}{b}", b = bar(), l = l, r = r)
}

fn cell(s: &str, w: usize) -> String {
    format!("{:<w$}", s, w = w)
}

#[test]
fn panel_layout() {
    let builtin = stats(&[
        ("host", "box"),
        ("os", "N/A"),
        ("memory", "1G"),
        ("load", "0.5 0.7 0.9"),
        ("ip", "10.0.0.1"),
        ("time", "12:00"),
        ("date", "unknown"),
    ]);
    assert!(panel_is_clean(&builtin, &[], None));
    let lines = info_panel("1.2.3", &builtin, &[], None);
    assert_eq!(lines.len(), 17);
    assert_eq!(lines[0], format!("{}╭{}┬{}╮{}", CY, "─".repeat(28), "─".repeat(28), RS));
    assert_eq!(
        lines[1],
        row2(
            &format!("\x1b[1maush\x1b[0m v1.2.3{}", " ".repeat(17)),
            &format!("\x1b[1mResources\x1b[0m{}", " ".repeat(19))
        )
    );
    assert_eq!(lines[3], row2(&cell("host     box", 28), &cell("memory   1G", 28)));
    assert_eq!(lines[4], row2(&" ".repeat(28), &" ".repeat(28)));
    assert_eq!(lines[6], row2(&" ".repeat(28), &cell("load 1m  0.5", 28)));
    assert_eq!(lines[8], row2(&" ".repeat(28), &cell("load 15m 0.9", 28)));
    assert_eq!(lines[13], row2(&cell("ip       10.0.0.1", 28), &cell("time     12:00", 28)));
    assert_eq!(lines[14], format!("{}├{}┤{}", CY, "─".repeat(57), RS));
    assert_eq!(lines[15], format!("{}{}{}", bar(), cell("daemon   not running", 57), bar()));
    assert_eq!(lines[16], format!("{}╰{}╯{}", CY, "─".repeat(57), RS));
}

#[test]
fn panel_custom_figures_and_daemon() {
    let custom = stats(&[("weather", "sunny")]);
    let lines = info_panel("0.1.0", &[], &custom, Some("ok"));
    assert_eq!(lines.len(), 3 + 7 + 3 + 3 + 1 + 3);
    assert_eq!(lines[14], format!("{}{}{}", bar(), format!("\x1b[1mCustom\x1b[0m{}", " ".repeat(51)), bar()));
    assert_eq!(lines[16], format!("{}{}{}", bar(), cell("weather  sunny", 57), bar()));
    assert_eq!(lines[18], format!("{}{}{}", bar(), cell("daemon   ok", 57), bar()));
}

#[test]
fn long_values_are_cut_at_the_column_width() {
    let builtin = stats(&[("cpu", "Intel(R) Core(TM) i7-8550U CPU @ 1.80GHz")]);
    let lines = info_panel("1", &builtin, &[], None);
    let expected: String = "cpu      Intel(R) Core(TM) i7-8550U".chars().take(28).collect();
    assert_eq!(lines[7], row2(&expected, &" ".repeat(28)));
}

#[test]
fn a_cut_inside_a_character_is_refused() {
    let value = format!("{}é", "a".repeat(18));
    let builtin = stats(&[("host", value.as_str())]);
    assert!(!panel_is_clean(&builtin, &[], None));
    let fits = stats(&[("host", "é")]);
    assert!(panel_is_clean(&fits, &[], None));
}

#[test]
fn single_figures() {
    let builtin = stats(&[("host", "box")]);
    let custom = stats(&[("host", "other"), ("mood", "good")]);
    assert_eq!(stat_value(&builtin, &custom, "host"), Some("box".to_string()));
    assert_eq!(stat_value(&builtin, &custom, "mood"), Some("good".to_string()));
    assert_eq!(stat_value(&builtin, &custom, "none"), None);
}
