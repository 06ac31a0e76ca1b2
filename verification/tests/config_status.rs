use loopwire::config::{
    default_true, effective_sink, loopwire_set_config, snapshot_config, with_config, PluginConfig,
};
use loopwire::status::{
    compute_status, loopwire_set_volume, status_first_queries, status_follow_ups, status_sink,
    websocket_get_status, websocket_set_volume, FfiStatus, PactlOutputs,
};
use loopwire::pactl::get_volume_percent;

fn cfg(card: &str, source: &str, sink: &str, sink_auto: bool) -> PluginConfig {
    PluginConfig {
        card: card.to_string(),
        source: source.to_string(),
        sink: sink.to_string(),
        sink_auto,
    }
}

fn same(a: &PluginConfig, b: &PluginConfig) -> bool {
    a.card == b.card && a.source == b.source && a.sink == b.sink && a.sink_auto == b.sink_auto
}

fn strings(v: &[String]) -> Vec<&str> {
    v.iter().map(|s| s.as_str()).collect()
}

#[test]
fn default_config_is_empty_with_auto_sink() {
    let c = PluginConfig::default();
    assert!(same(&c, &cfg("", "", "", true)));
    assert!(default_true());
}

#[test]
fn effective_sink_prefers_system_default_when_auto() {
    let c = cfg("card", "src", "manual_sink", true);
    assert_eq!(effective_sink(&c, "alsa_output.speakers\n"), Some("alsa_output.speakers".to_string()));
    let m = cfg("card", "src", "manual_sink", false);
    assert_eq!(effective_sink(&m, "alsa_output.speakers\n"), Some("manual_sink".to_string()));
    assert_eq!(effective_sink(&cfg("card", "src", "", false), ""), Some(String::new()));
}

#[test]
fn effective_sink_never_uses_manual_sink_in_auto_mode() {
    assert_eq!(effective_sink(&cfg("card", "src", "manual_sink", true), "  \n"), None);
    assert_eq!(effective_sink(&cfg("card", "src", "", true), ""), None);
}

#[test]
fn set_config_replaces_only_given_non_empty_fields() {
    let mut c = cfg("card0", "src0", "sink0", true);
    loopwire_set_config(&mut c, Some("card1".to_string()), Some(String::new()), None, false);
    assert!(same(&c, &cfg("card1", "src0", "sink0", false)));
    loopwire_set_config(&mut c, None, None, Some("sink2".to_string()), true);
    assert!(same(&c, &cfg("card1", "src0", "sink2", true)));
}

#[test]
fn set_config_twice_is_set_config_once() {
    let mut once = cfg("a", "b", "c", true);
    let mut twice = cfg("a", "b", "c", true);
    let upd = || (Some("x".to_string()), None, Some("y".to_string()), false);
    let (c1, s1, k1, a1) = upd();
    loopwire_set_config(&mut once, c1, s1, k1, a1);
    for _ in 0..2 {
        let (c, s, k, a) = upd();
        loopwire_set_config(&mut twice, c, s, k, a);
    }
    assert!(same(&once, &twice));
}

#[test]
fn with_config_loads_only_once() {
    let mut slot: Option<PluginConfig> = None;
    let mut loads = 0;
    {
        let c = with_config(&mut slot, || {
            loads += 1;
            cfg("card", "src", "sink", false)
        });
        c.sink = "changed".to_string();
    }
    let snap = snapshot_config(&mut slot, || {
        loads += 1;
        cfg("other", "other", "other", true)
    });
    assert_eq!(loads, 1);
    assert!(same(&snap, &cfg("card", "src", "changed", false)));
    assert!(same(slot.as_ref().unwrap(), &snap));
}

const SOURCES: &str = "57\talsa_input.usb-cam\tPipeWire\ts16le 2ch 48000Hz\tRUNNING\n";
const MODULES: &str = "536870914\tmodule-loopback\tsource=alsa_input.usb-cam sink=alsa_output.speakers\n";

fn now_sink(c: &PluginConfig, default_output: &str) -> Option<String> {
    status_sink(c, default_output, false, None)
}

#[test]
fn compute_status_of_mapped_source() {
    let c = cfg("card", "alsa_input.usb-cam", "alsa_output.headset", true);
    let out = PactlOutputs {
        sources: SOURCES,
        modules: MODULES,
        mute: "Mute: yes\n",
        volume: "Volume: front-left: 52428 /  80% / -5.81 dB\n",
    };
    let s = compute_status(&c, &out, &now_sink(&c, "alsa_output.speakers\n"));
    assert_eq!(s, FfiStatus { source_exists: true, mapped: true, muted: true, volume_percent: 80 });
}

#[test]
fn compute_status_of_missing_source() {
    let c = cfg("card", "alsa_input.absent", "alsa_output.speakers", false);
    let out = PactlOutputs { sources: SOURCES, modules: MODULES, mute: "Mute: yes\n", volume: "Volume: 80%\n" };
    assert_eq!(compute_status(&c, &out, &now_sink(&c, "")), FfiStatus::default());
}

#[test]
fn compute_status_unreadable_mute_and_volume() {
    let c = cfg("card", "alsa_input.usb-cam", "alsa_output.headset", false);
    let out = PactlOutputs { sources: SOURCES, modules: MODULES, mute: "", volume: "" };
    assert_eq!(
        compute_status(&c, &out, &now_sink(&c, "")),
        FfiStatus { source_exists: true, mapped: false, muted: false, volume_percent: 0 }
    );
}

#[test]
fn websocket_get_status_reports_config_and_state() {
    let c = cfg("card", "alsa_input.usb-cam", "alsa_output.speakers", false);
    let out = PactlOutputs { sources: SOURCES, modules: MODULES, mute: "Mute: no\n", volume: "Volume: mono: 100%\n" };
    let r = websocket_get_status(&c, &out, &now_sink(&c, ""));
    assert!(r.source_exists && r.mapped);
    assert_eq!(r.muted, Some(false));
    assert_eq!(r.volume_percent, Some(100));
    assert_eq!((r.card.as_str(), r.source.as_str(), r.sink.as_str(), r.sink_auto), ("card", "alsa_input.usb-cam", "alsa_output.speakers", false));
    let out2 = PactlOutputs { sources: "", modules: "", mute: "Mute: no", volume: "5%" };
    let r2 = websocket_get_status(&c, &out2, &now_sink(&c, ""));
    assert!(!r2.source_exists && !r2.mapped);
    assert_eq!(r2.muted, None);
    assert_eq!(r2.volume_percent, None);
}

#[test]
fn status_queries_follow_the_configuration() {
    let q = status_first_queries(&cfg("card", "", "sink", false), false);
    assert!(!q.sources && !q.default_sink);
    let q = status_first_queries(&cfg("card", "src", "", true), false);
    assert!(q.sources && q.default_sink);
    let named = cfg("card", "alsa_input.usb-cam", "alsa_output.speakers", false);
    let f = status_follow_ups(&named, SOURCES, &now_sink(&named, ""));
    assert!(f.mute_and_volume && f.modules);
    let f = status_follow_ups(&named, "", &now_sink(&named, ""));
    assert!(!f.mute_and_volume && f.modules);
    let auto = cfg("card", "alsa_input.usb-cam", "alsa_output.speakers", true);
    let f = status_follow_ups(&auto, SOURCES, &now_sink(&auto, "\n"));
    assert!(f.mute_and_volume && !f.modules);
    let unnamed = cfg("card", "", "sink", false);
    let f = status_follow_ups(&unnamed, SOURCES, &now_sink(&unnamed, ""));
    assert!(!f.mute_and_volume && !f.modules);
}

#[test]
fn background_refresh_never_asks_for_default_sink() {
    let auto = cfg("card", "alsa_input.usb-cam", "manual", true);
    let q = status_first_queries(&auto, true);
    assert!(q.sources && !q.default_sink);
    assert_eq!(status_sink(&auto, "ignored\n", true, Some("alsa_output.speakers")), Some("alsa_output.speakers".to_string()));
    assert_eq!(status_sink(&auto, "alsa_output.speakers\n", true, None), None);
    let manual = cfg("card", "alsa_input.usb-cam", "manual", false);
    assert_eq!(status_sink(&manual, "", true, Some("other")), Some("manual".to_string()));
    assert_eq!(status_sink(&auto, "alsa_output.hdmi\n", false, Some("other")), Some("alsa_output.hdmi".to_string()));
    let out = PactlOutputs { sources: SOURCES, modules: MODULES, mute: "Mute: no", volume: "10%" };
    let sink = status_sink(&auto, "", true, Some("alsa_output.speakers"));
    assert!(compute_status(&auto, &out, &sink).mapped);
}

#[test]
fn status_without_default_sink_is_not_mapped() {
    let c = cfg("card", "alsa_input.usb-cam", "alsa_output.speakers", true);
    let out = PactlOutputs { sources: SOURCES, modules: MODULES, mute: "Mute: no", volume: "10%" };
    let sink = now_sink(&c, "");
    assert_eq!(sink, None);
    assert_eq!(
        compute_status(&c, &out, &sink),
        FfiStatus { source_exists: true, mapped: false, muted: false, volume_percent: 10 }
    );
    assert!(!websocket_get_status(&c, &out, &sink).mapped);
}

#[test]
fn websocket_set_volume_checks_range() {
    assert_eq!(websocket_set_volume(0), Ok(0));
    assert_eq!(websocket_set_volume(150), Ok(150));
    assert_eq!(websocket_set_volume(73), Ok(73));
    assert_eq!(websocket_set_volume(151).unwrap_err(), "volume_percent must be between 0 and 150");
    assert_eq!(websocket_set_volume(-1).unwrap_err(), "volume_percent must be between 0 and 150");
    assert!(websocket_set_volume(i64::MAX).is_err());
    assert!(websocket_set_volume(i64::MIN).is_err());
}

#[test]
fn loopwire_set_volume_clamps() {
    assert_eq!(strings(&loopwire_set_volume("src", 200)), vec!["set-source-volume", "src", "150%"]);
    assert_eq!(strings(&loopwire_set_volume("src", -3)), vec!["set-source-volume", "src", "0%"]);
    assert_eq!(strings(&loopwire_set_volume("src", 75)), vec!["set-source-volume", "src", "75%"]);
}

#[test]
fn volume_set_is_read_back() {
    for n in [0, 1, 9, 10, 99, 150, -1, -150, i32::MAX, i32::MIN] {
        let args = loopwire::pactl::set_volume_percent("src", n);
        assert_eq!(get_volume_percent(&args[2]), Some(n));
    }
}
