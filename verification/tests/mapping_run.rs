use loopwire::mapping::{do_map, do_unmap, remember_mapped_sink, unmap_lists_modules, MapAction, MapState};

const SRC: &str = "alsa_input.usb-cam";
const SINK: &str = "alsa_output.speakers";
const PRESENT: &str = "57\talsa_input.usb-cam\tPipeWire\ts16le 2ch 48000Hz\tRUNNING\n";
const ABSENT: &str = "49\talsa_output.monitor\tPipeWire\ts32le 2ch 48000Hz\tIDLE\n";
const LOOPBACK: &str = "536870914\tmodule-loopback\tsource=alsa_input.usb-cam sink=alsa_output.speakers\n";

/// Runs a mapping to its end: `answer` gives the output of each pactl call.
fn run(answer: impl FnMut(&[String]) -> String) -> (Vec<Vec<String>>, usize, bool, String) {
    run_with(SRC, Some(SINK), answer)
}

fn run_with(
    source: &str,
    sink: Option<&str>,
    mut answer: impl FnMut(&[String]) -> String,
) -> (Vec<Vec<String>>, usize, bool, String) {
    let mut state = MapState::Start;
    let mut output = String::new();
    let mut calls = Vec::new();
    let mut sleeps = 0;
    for _ in 0..100 {
        let (next, action) = do_map(state, "card0", source, sink, &output);
        state = next;
        match action {
            MapAction::Pactl(args) => {
                output = answer(&args);
                calls.push(args);
            }
            MapAction::Sleep(ms) => {
                assert_eq!(ms, 300);
                sleeps += 1;
                output = String::new();
            }
            MapAction::Report(ok, status) => {
                assert!(matches!(state, MapState::Finished(_) | MapState::NoSink));
                return (calls, sleeps, ok, status);
            }
        }
    }
    panic!("mapping did not end");
}

fn joined(calls: &[Vec<String>]) -> Vec<String> {
    calls.iter().map(|c| c.join(" ")).collect()
}

#[test]
fn map_with_present_source_loads_loopback_and_unmutes() {
    let (calls, sleeps, ok, status) = run(|args| {
        if args[1] == "sources" { PRESENT.to_string() } else { String::new() }
    });
    assert!(ok);
    assert_eq!(status, "Mapped.");
    assert_eq!(sleeps, 0);
    assert_eq!(
        joined(&calls),
        vec![
            "list sources short",
            "list sources short",
            "list modules short",
            "load-module module-loopback source=alsa_input.usb-cam sink=alsa_output.speakers",
            "set-source-mute alsa_input.usb-cam 0",
        ]
    );
}

#[test]
fn map_with_existing_loopback_only_unmutes() {
    let (calls, _, ok, _) = run(|args| match args[1].as_str() {
        "sources" => PRESENT.to_string(),
        "modules" => LOOPBACK.to_string(),
        _ => String::new(),
    });
    assert!(ok);
    assert_eq!(
        joined(&calls),
        vec!["list sources short", "list sources short", "list modules short", "set-source-mute alsa_input.usb-cam 0"]
    );
}

#[test]
fn map_toggles_profile_and_waits_for_source() {
    let mut listings = 0;
    let (calls, sleeps, ok, _) = run(|args| {
        if args[1] == "sources" {
            listings += 1;
            if listings >= 4 { PRESENT.to_string() } else { ABSENT.to_string() }
        } else {
            String::new()
        }
    });
    assert!(ok);
    assert_eq!(sleeps, 2);
    let j = joined(&calls);
    assert_eq!(j[1], "set-card-profile card0 off");
    assert_eq!(j[2], "set-card-profile card0 input:analog-stereo");
    assert_eq!(j.iter().filter(|c| c.as_str() == "list sources short").count(), 5);
}

#[test]
fn map_fails_when_source_never_appears() {
    let (calls, sleeps, ok, status) = run(|args| {
        if args[1] == "sources" { ABSENT.to_string() } else { String::new() }
    });
    assert!(!ok);
    assert_eq!(status, "Failed: the PipeWire node did not appear (device probably held by another program).");
    assert_eq!(sleeps, 10);
    // one first look, ten looks while waiting, one last look
    assert_eq!(joined(&calls).iter().filter(|c| c.as_str() == "list sources short").count(), 12);
    assert!(!joined(&calls).iter().any(|c| c.starts_with("load-module")));
}

#[test]
fn finished_map_keeps_reporting() {
    let (next, action) = do_map(MapState::Finished(false), "c", SRC, Some(SINK), "");
    assert_eq!(next, MapState::Finished(false));
    assert!(matches!(action, MapAction::Report(false, _)));
}

#[test]
fn unmap_unloads_every_matching_loopback() {
    let listing = format!("{LOOPBACK}536870999\tmodule-loopback\tsource=alsa_input.usb-cam sink=alsa_output.speakers\n");
    let plan = do_unmap(&listing, SRC, Some(SINK));
    let cmds: Vec<String> = plan.unload.iter().map(|c| c.join(" ")).collect();
    assert_eq!(cmds, vec!["unload-module 536870914", "unload-module 536870999"]);
    assert_eq!(plan.status, "Unmapped (2 module(s) unloaded).");
}

#[test]
fn unmap_with_nothing_loaded() {
    let plan = do_unmap("", SRC, Some(SINK));
    assert!(plan.unload.is_empty());
    assert_eq!(plan.status, "Nothing to unmap (no loopback loaded).");
    let plan = do_unmap(LOOPBACK, "", Some(SINK));
    assert!(plan.unload.is_empty());
    let plan = do_unmap(LOOPBACK, SRC, None);
    assert!(plan.unload.is_empty());
    assert_eq!(plan.status, "Nothing to unmap (no loopback loaded).");
}

#[test]
fn unmap_lists_modules_only_for_named_source_and_sink() {
    assert!(unmap_lists_modules(SRC, Some(SINK)));
    assert!(!unmap_lists_modules("", Some(SINK)));
    assert!(!unmap_lists_modules(SRC, Some("")));
    assert!(!unmap_lists_modules(SRC, None));
}

#[test]
fn map_without_sink_fails_at_once() {
    let (calls, sleeps, ok, status) = run_with(SRC, None, |_| PRESENT.to_string());
    assert!(calls.is_empty());
    assert_eq!(sleeps, 0);
    assert!(!ok);
    assert_eq!(status, "Failed: no output sink (the system reports no default sink).");
    let (next, action) = do_map(MapState::NoSink, "c", SRC, None, "");
    assert_eq!(next, MapState::NoSink);
    assert!(matches!(action, MapAction::Report(false, _)));
}

#[test]
fn map_with_unnamed_source_never_lists_sources() {
    let (calls, sleeps, ok, status) = run_with("", Some(SINK), |_| PRESENT.to_string());
    assert!(!ok);
    assert_eq!(status, "Failed: the PipeWire node did not appear (device probably held by another program).");
    assert_eq!(sleeps, 10);
    assert_eq!(
        joined(&calls),
        vec!["set-card-profile card0 off", "set-card-profile card0 input:analog-stereo"]
    );
}

#[test]
fn map_without_sink_loads_without_listing_modules() {
    let mut state = MapState::Start;
    let mut output = String::new();
    let mut calls = Vec::new();
    loop {
        let (next, action) = do_map(state, "card0", SRC, Some(""), &output);
        state = next;
        match action {
            MapAction::Pactl(args) => {
                output = if args[1] == "sources" { PRESENT.to_string() } else { String::new() };
                calls.push(args.join(" "));
            }
            MapAction::Sleep(_) => output = String::new(),
            MapAction::Report(ok, _) => {
                assert!(ok);
                break;
            }
        }
    }
    assert_eq!(
        calls,
        vec![
            "list sources short",
            "list sources short",
            "load-module module-loopback source=alsa_input.usb-cam sink=",
            "set-source-mute alsa_input.usb-cam 0",
        ]
    );
}

#[test]
fn remembered_sink_follows_successful_mappings() {
    let r = remember_mapped_sink(None, true, Some(SINK));
    assert_eq!(r.as_deref(), Some(SINK));
    let r = remember_mapped_sink(r, false, Some("alsa_output.other"));
    assert_eq!(r.as_deref(), Some(SINK));
    let r = remember_mapped_sink(r, true, None);
    assert_eq!(r, None);
}
