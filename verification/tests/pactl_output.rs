use loopwire::pactl::{
    default_sink, find_loopback_module_ids, get_mute, get_volume_percent, is_mapped,
    pactl_list_names, set_mute, set_volume_percent, source_exists,
};
use loopwire::text::{chars_of, parse_i32_chars, split_lines, string_from, trim_chars};

const SOURCES: &str = "49\talsa_output.pci-0000_00_1f.3.analog-stereo.monitor\tPipeWire\ts32le 2ch 48000Hz\tSUSPENDED\n\
57\talsa_input.usb-MACROSILICON_USB_Video-02.analog-stereo\tPipeWire\ts16le 2ch 48000Hz\tRUNNING\n";

const MODULES: &str = "536870912\tlibpipewire-module-protocol-pulse\t\n\
536870913\tmodule-always-sink\t\n\
536870914\tmodule-loopback\tsource=alsa_input.usb-cam sink=alsa_output.speakers\n\
536870915\tmodule-null-sink\tsink_name=dummy\n\
536870916\tmodule-loopback\tsource=alsa_input.usb-cam sink=alsa_output.headset\n\
536870917\tmodule-loopback\tsource=alsa_input.usb-cam sink=alsa_output.speakers latency_msec=20\n";

fn strings(v: &[String]) -> Vec<&str> {
    v.iter().map(|s| s.as_str()).collect()
}

#[test]
fn source_exists_finds_listed_source() {
    assert!(source_exists(SOURCES, "alsa_input.usb-MACROSILICON_USB_Video-02.analog-stereo"));
    assert!(!source_exists(SOURCES, "alsa_input.usb-other"));
}

#[test]
fn source_exists_empty_name_is_never_listed() {
    assert!(!source_exists(SOURCES, ""));
    assert!(!source_exists("", ""));
}

#[test]
fn get_mute_reads_yes_no_and_nothing() {
    assert_eq!(get_mute("Mute: yes\n"), Some(true));
    assert_eq!(get_mute("Mute: no\n"), Some(false));
    assert_eq!(get_mute("Failure: No such entity\n"), None);
    assert_eq!(get_mute(""), None);
}

#[test]
fn get_volume_percent_reads_first_percentage() {
    let out = "Volume: front-left: 65536 / 100% / 0.00 dB,   front-right: 65536 / 100% / 0.00 dB\n        balance 0.00\n";
    assert_eq!(get_volume_percent(out), Some(100));
    let out2 = "Volume: mono: 42597 /  65% / -11.23 dB\n";
    assert_eq!(get_volume_percent(out2), Some(65));
}

#[test]
fn get_volume_percent_skips_words_that_are_not_percentages() {
    assert_eq!(get_volume_percent("abc% 50%% 12"), None);
    assert_eq!(get_volume_percent("x% 2147483648% 7%"), Some(7));
    assert_eq!(get_volume_percent("-5%"), Some(-5));
    assert_eq!(get_volume_percent("+5%"), Some(5));
    assert_eq!(get_volume_percent("%"), None);
    assert_eq!(get_volume_percent("-%"), None);
    assert_eq!(get_volume_percent(""), None);
    assert_eq!(get_volume_percent("\u{a0}30%\u{3000}"), Some(30));
}

#[test]
fn default_sink_is_trimmed_output() {
    assert_eq!(default_sink("alsa_output.pci-0000_00_1f.3.analog-stereo\n"), Some("alsa_output.pci-0000_00_1f.3.analog-stereo".to_string()));
    assert_eq!(default_sink("  \t speakers \r\n"), Some("speakers".to_string()));
    assert_eq!(default_sink(" \n\t"), None);
    assert_eq!(default_sink(""), None);
}

#[test]
fn set_mute_builds_pactl_arguments() {
    assert_eq!(strings(&set_mute("src", true)), vec!["set-source-mute", "src", "1"]);
    assert_eq!(strings(&set_mute("src", false)), vec!["set-source-mute", "src", "0"]);
}

#[test]
fn set_volume_percent_builds_pactl_arguments() {
    assert_eq!(strings(&set_volume_percent("src", 42)), vec!["set-source-volume", "src", "42%"]);
    assert_eq!(strings(&set_volume_percent("src", 0)), vec!["set-source-volume", "src", "0%"]);
    assert_eq!(strings(&set_volume_percent("src", 150)), vec!["set-source-volume", "src", "150%"]);
    assert_eq!(strings(&set_volume_percent("s", i32::MIN)), vec!["set-source-volume", "s", "-2147483648%"]);
}

#[test]
fn find_loopback_module_ids_matches_source_and_sink() {
    let ids = find_loopback_module_ids(MODULES, "alsa_input.usb-cam", "alsa_output.speakers");
    assert_eq!(strings(&ids), vec!["536870914", "536870917"]);
    let ids = find_loopback_module_ids(MODULES, "alsa_input.usb-cam", "alsa_output.headset");
    assert_eq!(strings(&ids), vec!["536870916"]);
    let ids = find_loopback_module_ids(MODULES, "alsa_input.other", "alsa_output.headset");
    assert!(ids.is_empty());
}

#[test]
fn find_loopback_module_ids_ignores_unconfigured() {
    assert!(find_loopback_module_ids(MODULES, "", "alsa_output.speakers").is_empty());
    assert!(find_loopback_module_ids(MODULES, "alsa_input.usb-cam", "").is_empty());
}

#[test]
fn find_loopback_module_ids_needs_three_fields() {
    let listing = "1\tmodule-loopback\n2\tmodule-loopback\tsource=a sink=b\r\n3\tmodule-loopback\tsource=a\tsink=b";
    let ids = find_loopback_module_ids(listing, "source=a", "sink=b");
    assert_eq!(strings(&ids), vec!["2", "3"]);
}

#[test]
fn is_mapped_follows_loopback_ids() {
    assert!(is_mapped(MODULES, "alsa_input.usb-cam", "alsa_output.speakers"));
    assert!(!is_mapped(MODULES, "alsa_input.usb-cam", "alsa_output.hdmi"));
    assert!(!is_mapped("", "a", "b"));
}

#[test]
fn pactl_list_names_takes_second_fields() {
    let cards = "0\talsa_card.pci-0000_00_1f.3\talsa\n1\talsa_card.usb-MACROSILICON\talsa\n";
    assert_eq!(pactl_list_names(cards), "alsa_card.pci-0000_00_1f.3\nalsa_card.usb-MACROSILICON");
    assert_eq!(pactl_list_names("no tab here\n7\tonly\n8\t\n"), "only\n");
    assert_eq!(pactl_list_names(""), "");
    assert_eq!(pactl_list_names("x\ty\r\n"), "y");
}

#[test]
fn split_lines_matches_str_lines() {
    for text in ["", "a", "a\n", "a\r\nb", "\n\n", "a\rb\r", "x\r\n\r\ny\n", "é\nü"] {
        let ls = split_lines(&chars_of(text));
        let got: Vec<String> = ls.iter().map(|l| string_from(l)).collect();
        let want: Vec<String> = text.lines().map(|l| l.to_string()).collect();
        assert_eq!(got, want, "lines of {:?}", text);
    }
}

#[test]
fn trim_matches_str_trim() {
    for text in ["", " ", " a ", "\u{2028}x\u{85}", "a b", "\r\n"] {
        assert_eq!(string_from(&trim_chars(&chars_of(text))), text.trim());
    }
}

#[test]
fn parse_i32_matches_str_parse() {
    for text in ["0", "-0", "+7", "007", "2147483647", "2147483648", "-2147483648", "-2147483649", "", "+", "-", "1a", " 1", "99999999999999999999"] {
        assert_eq!(parse_i32_chars(&chars_of(text)), text.parse::<i32>().ok(), "parse of {:?}", text);
    }
}
