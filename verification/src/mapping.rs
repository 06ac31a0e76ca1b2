//! Mapping the capture source to the output sink with a PipeWire/PulseAudio
//! loopback, and removing that mapping again.
//!
//! Mapping alternates `pactl` calls, pauses and decisions; the decisions are
//! the step function `do_map`, and the caller runs the loop: it performs each
//! action and hands the command's output back to the next step.
use vstd::prelude::*;
use crate::text::{
    all_digits, chars_of, digits_value, extend_chars, lemma_nat_decimal_digits, nat_decimal,
    push_decimal, string_from,
};
use crate::config::opt_view;
use crate::pactl::{
    args2, args3, find_loopback_module_ids, loopback_module_ids, owned, prefixed,
    source_exists, source_listed,
};

verus! {

/// How many times the source is looked for after the card profile was toggled.
pub const SOURCE_CHECKS: u32 = 10;

/// The pause between two looks for the source, in milliseconds.
pub const SOURCE_CHECK_PAUSE_MS: u64 = 300;

/// Where a mapping stands.
#[derive(Clone, Copy, PartialEq, Eq, Structural, Debug)]
pub enum MapState {
    /// Nothing done yet.
    Start,
    /// The sources were listed to see whether the source is there.
    InitialCheck,
    /// The card profile was switched off.
    ProfileOff,
    /// The card profile was switched back on.
    ProfileOn,
    /// The sources were listed for the n-th time since the profile came back.
    Waiting(u32),
    /// The pause after the n-th unsuccessful look is over.
    Slept(u32),
    /// The sources were listed once more before looking for a loopback.
    FinalCheck,
    /// The modules were listed to find an existing loopback.
    LoopbackCheck,
    /// A loopback module was loaded.
    LoopbackLoaded,
    /// The source was unmuted.
    Unmuted,
    /// The mapping is over, with success or failure.
    Finished(bool),
    /// The mapping was refused: no sink is in use (automatic mode and the
    /// system reports no default sink).
    NoSink,
}

/// What the caller does next.
pub enum MapAction {
    /// Run `pactl` with these arguments and hand back its standard output.
    Pactl(Vec<String>),
    /// Pause for this many milliseconds and hand back an empty output.
    Sleep(u64),
    /// Stop, reporting success or failure with this status text.
    Report(bool, String),
}

/// A `MapAction` as plain values.
pub enum ActionModel {
    Pactl(Seq<Seq<char>>),
    Sleep(u64),
    Report(bool, Seq<char>),
}

impl View for MapAction {
    type V = ActionModel;

    open spec fn view(&self) -> ActionModel {
        match self {
            MapAction::Pactl(args) => ActionModel::Pactl(args.deep_view()),
            MapAction::Sleep(ms) => ActionModel::Sleep(*ms),
            MapAction::Report(ok, status) => ActionModel::Report(*ok, status@),
        }
    }
}

pub open spec fn list_sources_args() -> Seq<Seq<char>> {
    seq!["list"@, "sources"@, "short"@]
}

pub open spec fn list_modules_args() -> Seq<Seq<char>> {
    seq!["list"@, "modules"@, "short"@]
}

pub open spec fn map_failed_status() -> Seq<char> {
    "Failed: the PipeWire node did not appear (device probably held by another program)."@
}

pub open spec fn no_sink_status() -> Seq<char> {
    "Failed: no output sink (the system reports no default sink)."@
}

/// The sink's name, or the empty name when there is none.
pub open spec fn sink_or_empty(sink: Option<Seq<char>>) -> Seq<char> {
    match sink {
        Some(s) => s,
        None => seq![],
    }
}

pub open spec fn mapped_status() -> Seq<char> {
    "Mapped."@
}

pub open spec fn unmute_args(source: Seq<char>) -> Seq<Seq<char>> {
    seq!["set-source-mute"@, source, "0"@]
}

pub open spec fn load_loopback_args(source: Seq<char>, sink: Seq<char>) -> Seq<Seq<char>> {
    seq!["load-module"@, "module-loopback"@, "source="@ + source, "sink="@ + sink]
}

/// The mapping is over: it reports the same outcome at every further step.
pub open spec fn is_final(state: MapState) -> bool {
    state is Finished || state is NoSink
}

/// One step of a mapping: from where it stands and the output of the last
/// action, where it goes and what is done next.
///
/// Without a sink there is nothing to map to, and the mapping fails at once.
/// The card profile is toggled (off, then `input:analog-stereo`) only when the
/// source is missing at first, since that disturbs composite capture devices;
/// the source is then looked for up to `SOURCE_CHECKS` times with a pause after
/// each miss. An empty source name is missing without any listing being asked
/// for. A loopback is loaded only when none already joins the source to the
/// sink, and the source is unmuted before success is reported.
pub open spec fn map_step(
    state: MapState,
    card: Seq<char>,
    source: Seq<char>,
    sink: Option<Seq<char>>,
    output: Seq<char>,
) -> (MapState, ActionModel) {
    let snk = sink_or_empty(sink);
    let unnamed = source.len() == 0;
    match state {
        MapState::Start => if sink is None {
            (MapState::NoSink, ActionModel::Report(false, no_sink_status()))
        } else if unnamed {
            (MapState::ProfileOff, ActionModel::Pactl(seq!["set-card-profile"@, card, "off"@]))
        } else {
            (MapState::InitialCheck, ActionModel::Pactl(list_sources_args()))
        },
        MapState::InitialCheck => if source_listed(output, source) {
            (MapState::FinalCheck, ActionModel::Pactl(list_sources_args()))
        } else {
            (MapState::ProfileOff, ActionModel::Pactl(seq!["set-card-profile"@, card, "off"@]))
        },
        MapState::ProfileOff => (
            MapState::ProfileOn,
            ActionModel::Pactl(seq!["set-card-profile"@, card, "input:analog-stereo"@]),
        ),
        MapState::ProfileOn => if unnamed {
            (MapState::Slept(1), ActionModel::Sleep(SOURCE_CHECK_PAUSE_MS))
        } else {
            (MapState::Waiting(1), ActionModel::Pactl(list_sources_args()))
        },
        MapState::Waiting(n) => if source_listed(output, source) {
            (MapState::FinalCheck, ActionModel::Pactl(list_sources_args()))
        } else {
            (MapState::Slept(n), ActionModel::Sleep(SOURCE_CHECK_PAUSE_MS))
        },
        MapState::Slept(n) => if n < SOURCE_CHECKS {
            if unnamed {
                (MapState::Slept((n + 1) as u32), ActionModel::Sleep(SOURCE_CHECK_PAUSE_MS))
            } else {
                (MapState::Waiting((n + 1) as u32), ActionModel::Pactl(list_sources_args()))
            }
        } else if unnamed {
            (MapState::Finished(false), ActionModel::Report(false, map_failed_status()))
        } else {
            (MapState::FinalCheck, ActionModel::Pactl(list_sources_args()))
        },
        MapState::FinalCheck => if !source_listed(output, source) {
            (MapState::Finished(false), ActionModel::Report(false, map_failed_status()))
        } else if snk.len() == 0 {
            (MapState::LoopbackLoaded, ActionModel::Pactl(load_loopback_args(source, snk)))
        } else {
            (MapState::LoopbackCheck, ActionModel::Pactl(list_modules_args()))
        },
        MapState::LoopbackCheck => if loopback_module_ids(output, source, snk).len() == 0 {
            (MapState::LoopbackLoaded, ActionModel::Pactl(load_loopback_args(source, snk)))
        } else {
            (MapState::Unmuted, ActionModel::Pactl(unmute_args(source)))
        },
        MapState::LoopbackLoaded => (MapState::Unmuted, ActionModel::Pactl(unmute_args(source))),
        MapState::Unmuted => (MapState::Finished(true), ActionModel::Report(true, mapped_status())),
        MapState::Finished(ok) => (
            MapState::Finished(ok),
            ActionModel::Report(
                ok,
                if ok {
                    mapped_status()
                } else {
                    map_failed_status()
                },
            ),
        ),
        MapState::NoSink => (MapState::NoSink, ActionModel::Report(false, no_sink_status())),
    }
}

/// An optional string slice as an optional sequence of characters.
pub open spec fn opt_str(s: Option<&str>) -> Option<Seq<char>> {
    match s {
        Some(v) => Some(v@),
        None => None,
    }
}

fn sink_or_empty_exec<'a>(sink: Option<&'a str>) -> (s: &'a str)
    ensures
        s@ == sink_or_empty(opt_str(sink)),
{
    match sink {
        Some(v) => v,
        None => {
            let e = "";
            proof {
                reveal_strlit("");
            }
            assert(e@ =~= Seq::<char>::empty());
            e
        },
    }
}

fn no_sink_report() -> (a: MapAction)
    ensures
        a@ == ActionModel::Report(false, no_sink_status()),
{
    MapAction::Report(false, owned("Failed: no output sink (the system reports no default sink)."))
}

fn sleep_pause() -> (a: MapAction)
    ensures
        a@ == ActionModel::Sleep(SOURCE_CHECK_PAUSE_MS),
{
    MapAction::Sleep(SOURCE_CHECK_PAUSE_MS)
}

fn list_sources() -> (r: Vec<String>)
    ensures
        r.deep_view() == list_sources_args(),
{
    args3("list", "sources", "short")
}

fn failed_report() -> (a: MapAction)
    ensures
        a@ == ActionModel::Report(false, map_failed_status()),
{
    MapAction::Report(
        false,
        owned(
            "Failed: the PipeWire node did not appear (device probably held by another program).",
        ),
    )
}

fn unmute(source: &str) -> (a: MapAction)
    ensures
        a@ == ActionModel::Pactl(unmute_args(source@)),
{
    MapAction::Pactl(args3("set-source-mute", source, "0"))
}

fn load_loopback(source: &str, sink: &str) -> (a: MapAction)
    ensures
        a@ == ActionModel::Pactl(load_loopback_args(source@, sink@)),
{
    let source_arg = prefixed("source=", source);
    let sink_arg = prefixed("sink=", sink);
    let mut args = args2("load-module", "module-loopback");
    let ghost head = args.deep_view();
    args.push(source_arg);
    args.push(sink_arg);
    assert(head.len() == 2);
    assert(args@.len() == 4);
    assert(args.deep_view().len() == 4);
    assert(args.deep_view()[0] == head[0]);
    assert(args.deep_view()[1] == head[1]);
    assert(args.deep_view()[2] == source_arg@);
    assert(args.deep_view()[3] == sink_arg@);
    assert(args.deep_view() =~= load_loopback_args(source@, sink@));
    MapAction::Pactl(args)
}

/// One step of mapping `source` to `sink` (`None`: no sink in use) on
/// `card`, given the standard output of the previous action (any text after a
/// pause or at the start).
pub fn do_map(state: MapState, card: &str, source: &str, sink: Option<&str>, output: &str) -> (r: (
    MapState,
    MapAction,
))
    ensures
        r.0 == map_step(state, card@, source@, opt_str(sink), output@).0,
        r.1@ == map_step(state, card@, source@, opt_str(sink), output@).1,
{
    let snk = sink_or_empty_exec(sink);
    let unnamed = source.is_empty();
    match state {
        MapState::Start => {
            if sink.is_none() {
                (MapState::NoSink, no_sink_report())
            } else if unnamed {
                (MapState::ProfileOff, MapAction::Pactl(args3("set-card-profile", card, "off")))
            } else {
                (MapState::InitialCheck, MapAction::Pactl(list_sources()))
            }
        },
        MapState::InitialCheck => {
            if source_exists(output, source) {
                (MapState::FinalCheck, MapAction::Pactl(list_sources()))
            } else {
                (MapState::ProfileOff, MapAction::Pactl(args3("set-card-profile", card, "off")))
            }
        },
        MapState::ProfileOff => (
            MapState::ProfileOn,
            MapAction::Pactl(args3("set-card-profile", card, "input:analog-stereo")),
        ),
        MapState::ProfileOn => {
            if unnamed {
                (MapState::Slept(1), sleep_pause())
            } else {
                (MapState::Waiting(1), MapAction::Pactl(list_sources()))
            }
        },
        MapState::Waiting(n) => {
            if source_exists(output, source) {
                (MapState::FinalCheck, MapAction::Pactl(list_sources()))
            } else {
                (MapState::Slept(n), sleep_pause())
            }
        },
        MapState::Slept(n) => {
            if n < SOURCE_CHECKS {
                if unnamed {
                    (MapState::Slept(n + 1), sleep_pause())
                } else {
                    (MapState::Waiting(n + 1), MapAction::Pactl(list_sources()))
                }
            } else if unnamed {
                (MapState::Finished(false), failed_report())
            } else {
                (MapState::FinalCheck, MapAction::Pactl(list_sources()))
            }
        },
        MapState::FinalCheck => {
            if !source_exists(output, source) {
                (MapState::Finished(false), failed_report())
            } else if snk.is_empty() {
                (MapState::LoopbackLoaded, load_loopback(source, snk))
            } else {
                (MapState::LoopbackCheck, MapAction::Pactl(args3("list", "modules", "short")))
            }
        },
        MapState::LoopbackCheck => {
            let ids = find_loopback_module_ids(output, source, snk);
            if ids.len() == 0 {
                (MapState::LoopbackLoaded, load_loopback(source, snk))
            } else {
                (MapState::Unmuted, unmute(source))
            }
        },
        MapState::LoopbackLoaded => (MapState::Unmuted, unmute(source)),
        MapState::Unmuted => (MapState::Finished(true), MapAction::Report(true, owned("Mapped."))),
        MapState::Finished(ok) => {
            if ok {
                (MapState::Finished(true), MapAction::Report(true, owned("Mapped.")))
            } else {
                (MapState::Finished(false), failed_report())
            }
        },
        MapState::NoSink => (MapState::NoSink, no_sink_report()),
    }
}

/// How far a mapping is from its end: every step that does not start from
/// `Finished` makes it smaller.
pub open spec fn map_distance(state: MapState) -> nat {
    match state {
        MapState::Start => 30,
        MapState::InitialCheck => 29,
        MapState::ProfileOff => 28,
        MapState::ProfileOn => 27,
        MapState::Waiting(n) => if n >= SOURCE_CHECKS {
            6
        } else {
            (26 - 2 * n) as nat
        },
        MapState::Slept(n) => if n >= SOURCE_CHECKS {
            5
        } else {
            (25 - 2 * n) as nat
        },
        MapState::FinalCheck => 4,
        MapState::LoopbackCheck => 3,
        MapState::LoopbackLoaded => 2,
        MapState::Unmuted => 1,
        MapState::Finished(_) => 0,
        MapState::NoSink => 0,
    }
}

/// A mapping always ends: each step from a state that is not final brings it
/// closer to the end, and a final state stays where it is. In particular the
/// source is looked for a bounded number of times.
pub proof fn lemma_map_terminates(
    state: MapState,
    card: Seq<char>,
    source: Seq<char>,
    sink: Option<Seq<char>>,
    output: Seq<char>,
)
    ensures
        is_final(state) ==> map_step(state, card, source, sink, output).0 == state,
        !is_final(state) ==> map_distance(map_step(state, card, source, sink, output).0)
            < map_distance(state),
{
}

/// Only the last step reports, and only a finished mapping reports again.
pub proof fn lemma_map_reports_only_at_end(
    state: MapState,
    card: Seq<char>,
    source: Seq<char>,
    sink: Option<Seq<char>>,
    output: Seq<char>,
)
    ensures
        map_step(state, card, source, sink, output).1 is Report <==> is_final(
            map_step(state, card, source, sink, output).0,
        ),
{
}

/// Success is reported only by the step after the one that unmuted the
/// source, and a step reaches `Unmuted` only by unmuting the source.
pub proof fn lemma_map_success_after_unmute(
    state: MapState,
    card: Seq<char>,
    source: Seq<char>,
    sink: Option<Seq<char>>,
    output: Seq<char>,
)
    ensures
        map_step(state, card, source, sink, output).0 == MapState::Finished(true) && !is_final(
            state,
        ) ==> state == MapState::Unmuted,
        map_step(state, card, source, sink, output).0 == MapState::Unmuted ==> map_step(
            state,
            card,
            source,
            sink,
            output,
        ).1 == ActionModel::Pactl(unmute_args(source)),
{
}

/// The card profile is touched only when the source is missing at first: not
/// in the first listing, or unnamed.
pub proof fn lemma_profile_only_when_missing(
    state: MapState,
    card: Seq<char>,
    source: Seq<char>,
    sink: Option<Seq<char>>,
    output: Seq<char>,
)
    ensures
        map_step(state, card, source, sink, output).0 == MapState::ProfileOff ==> (state
            == MapState::InitialCheck && !source_listed(output, source)) || (state
            == MapState::Start && source.len() == 0),
{
}

/// A loopback is loaded only when none joins the source to the sink yet (with
/// an empty sink name, none can, and the modules are not listed).
pub proof fn lemma_load_only_when_unmapped(
    state: MapState,
    card: Seq<char>,
    source: Seq<char>,
    sink: Option<Seq<char>>,
    output: Seq<char>,
)
    ensures
        map_step(state, card, source, sink, output).0 == MapState::LoopbackLoaded ==> (state
            == MapState::LoopbackCheck && loopback_module_ids(output, source, sink_or_empty(sink)).len()
            == 0) || (state == MapState::FinalCheck && sink_or_empty(sink).len() == 0),
{
}

/// From the loopback check with a named sink: when no loopback in the listing
/// joins the source to the sink, a `module-loopback` from the source to the sink
/// is loaded, whatever else the listing holds; when one does, none is loaded
/// and the source is unmuted.
pub proof fn lemma_loopback_check_decides(
    card: Seq<char>,
    source: Seq<char>,
    sink: Seq<char>,
    output: Seq<char>,
)
    requires
        sink.len() > 0,
    ensures
        loopback_module_ids(output, source, sink).len() == 0 ==> map_step(
            MapState::LoopbackCheck,
            card,
            source,
            Some(sink),
            output,
        ) == (
            MapState::LoopbackLoaded,
            ActionModel::Pactl(
                seq!["load-module"@, "module-loopback"@, "source="@ + source, "sink="@ + sink],
            ),
        ),
        loopback_module_ids(output, source, sink).len() > 0 ==> map_step(
            MapState::LoopbackCheck,
            card,
            source,
            Some(sink),
            output,
        ) == (
            MapState::Unmuted,
            ActionModel::Pactl(seq!["set-source-mute"@, source, "0"@]),
        ),
{
}

/// The steps up to the loopback check, for a named source and a sink in use:
/// the sources are listed; a listed source is listed once more and then the
/// modules are listed (or, with an empty sink name, the loopback is loaded
/// at once); a missing source gets its card profile switched off and then to
/// `input:analog-stereo`, and is looked for again up to `SOURCE_CHECKS` times,
/// with a pause of `SOURCE_CHECK_PAUSE_MS` after each miss, before the last
/// look; a source missing at the last look fails the mapping.
pub proof fn lemma_map_look_for_source(
    card: Seq<char>,
    source: Seq<char>,
    sink: Seq<char>,
    output: Seq<char>,
    n: u32,
)
    requires
        source.len() > 0,
    ensures
        map_step(MapState::Start, card, source, Some(sink), output) == (
            MapState::InitialCheck,
            ActionModel::Pactl(seq!["list"@, "sources"@, "short"@]),
        ),
        source_listed(output, source) ==> map_step(
            MapState::InitialCheck,
            card,
            source,
            Some(sink),
            output,
        ) == (MapState::FinalCheck, ActionModel::Pactl(seq!["list"@, "sources"@, "short"@])),
        !source_listed(output, source) ==> map_step(
            MapState::InitialCheck,
            card,
            source,
            Some(sink),
            output,
        ) == (MapState::ProfileOff, ActionModel::Pactl(seq!["set-card-profile"@, card, "off"@])),
        map_step(MapState::ProfileOff, card, source, Some(sink), output) == (
            MapState::ProfileOn,
            ActionModel::Pactl(seq!["set-card-profile"@, card, "input:analog-stereo"@]),
        ),
        map_step(MapState::ProfileOn, card, source, Some(sink), output) == (
            MapState::Waiting(1),
            ActionModel::Pactl(seq!["list"@, "sources"@, "short"@]),
        ),
        source_listed(output, source) ==> map_step(
            MapState::Waiting(n),
            card,
            source,
            Some(sink),
            output,
        ) == (MapState::FinalCheck, ActionModel::Pactl(seq!["list"@, "sources"@, "short"@])),
        !source_listed(output, source) ==> map_step(
            MapState::Waiting(n),
            card,
            source,
            Some(sink),
            output,
        ) == (MapState::Slept(n), ActionModel::Sleep(300)),
        n < 10 ==> map_step(MapState::Slept(n), card, source, Some(sink), output) == (
            MapState::Waiting((n + 1) as u32),
            ActionModel::Pactl(seq!["list"@, "sources"@, "short"@]),
        ),
        n >= 10 ==> map_step(MapState::Slept(n), card, source, Some(sink), output) == (
            MapState::FinalCheck,
            ActionModel::Pactl(seq!["list"@, "sources"@, "short"@]),
        ),
        !source_listed(output, source) ==> map_step(
            MapState::FinalCheck,
            card,
            source,
            Some(sink),
            output,
        ) == (
            MapState::Finished(false),
            ActionModel::Report(
                false,
                "Failed: the PipeWire node did not appear (device probably held by another program)."@,
            ),
        ),
        source_listed(output, source) && sink.len() > 0 ==> map_step(
            MapState::FinalCheck,
            card,
            source,
            Some(sink),
            output,
        ) == (MapState::LoopbackCheck, ActionModel::Pactl(seq!["list"@, "modules"@, "short"@])),
        source_listed(output, source) && sink.len() == 0 ==> map_step(
            MapState::FinalCheck,
            card,
            source,
            Some(sink),
            output,
        ) == (
            MapState::LoopbackLoaded,
            ActionModel::Pactl(
                seq!["load-module"@, "module-loopback"@, "source="@ + source, "sink="@ + sink],
            ),
        ),
{
}

/// After the loopback, the source is unmuted, then success is reported with
/// "Mapped.".
pub proof fn lemma_map_unmute_then_report(
    card: Seq<char>,
    source: Seq<char>,
    sink: Option<Seq<char>>,
    output: Seq<char>,
)
    ensures
        map_step(MapState::LoopbackLoaded, card, source, sink, output) == (
            MapState::Unmuted,
            ActionModel::Pactl(seq!["set-source-mute"@, source, "0"@]),
        ),
        map_step(MapState::Unmuted, card, source, sink, output) == (
            MapState::Finished(true),
            ActionModel::Report(true, "Mapped."@),
        ),
{
}

/// An unnamed source is never looked for: no step asks for the sources listing.
pub proof fn lemma_unnamed_source_not_listed(
    state: MapState,
    card: Seq<char>,
    sink: Option<Seq<char>>,
    output: Seq<char>,
)
    ensures
        !(state is InitialCheck || state is Waiting || state is FinalCheck) ==> map_step(
            state,
            card,
            Seq::empty(),
            sink,
            output,
        ).1 != ActionModel::Pactl(list_sources_args()),
{
    reveal_strlit("list");
    reveal_strlit("set-card-profile");
    reveal_strlit("load-module");
    reveal_strlit("set-source-mute");
    assert("list"@[0] == 'l');
    assert("set-card-profile"@[0] == 's');
    assert("load-module"@[0] == 'l');
    assert("load-module"@[1] == 'o');
    assert("list"@[1] == 'i');
    assert("set-source-mute"@[0] == 's');
    assert("list"@.len() == 4);
}

/// Without a sink the mapping fails at once, before any `pactl` call.
pub proof fn lemma_no_sink_fails_at_once(card: Seq<char>, source: Seq<char>, output: Seq<char>)
    ensures
        map_step(MapState::Start, card, source, None, output) == (
            MapState::NoSink,
            ActionModel::Report(false, no_sink_status()),
        ),
{
}

/// What removing the mapping does: the loopback modules to unload, and the
/// status text reported.
pub struct UnmapPlan {
    /// The `pactl` argument lists to run, one `unload-module <id>` per module.
    pub unload: Vec<Vec<String>>,
    pub status: String,
}

/// One `pactl unload-module <id>` argument list per id, in order.
pub open spec fn unload_commands(ids: Seq<Seq<char>>) -> Seq<Seq<Seq<char>>> {
    Seq::new(ids.len(), |i: int| seq!["unload-module"@, ids[i]])
}

pub open spec fn unmap_status(count: nat) -> Seq<char> {
    if count == 0 {
        "Nothing to unmap (no loopback loaded)."@
    } else {
        "Unmapped ("@ + nat_decimal(count) + " module(s) unloaded)."@
    }
}

/// The loopback ids an unmapping unloads: none without a sink.
pub open spec fn unmap_ids(listing: Seq<char>, source: Seq<char>, sink: Option<Seq<char>>) -> Seq<
    Seq<char>,
> {
    match sink {
        Some(s) => loopback_module_ids(listing, source, s),
        None => seq![],
    }
}

/// An unmapping runs one `pactl unload-module <id>` per loopback id, in the
/// order of the listing, and nothing else.
pub proof fn lemma_unload_commands(ids: Seq<Seq<char>>)
    ensures
        unload_commands(ids).len() == ids.len(),
        forall|i: int| 0 <= i < ids.len() ==> #[trigger] unload_commands(ids)[i] == seq![
            "unload-module"@,
            ids[i],
        ],
{
}

/// The status of an unmapping tells how many modules it unloads: with none,
/// that there is nothing to unmap; with `n >= 1`, `n` written in decimal,
/// which reads back as `n`, and never that there is nothing to unmap.
pub proof fn lemma_unmap_status_counts(n: nat)
    ensures
        n == 0 ==> unmap_status(n) == "Nothing to unmap (no loopback loaded)."@,
        n >= 1 ==> unmap_status(n) == "Unmapped ("@ + nat_decimal(n) + " module(s) unloaded)."@,
        n >= 1 ==> all_digits(nat_decimal(n)) && digits_value(nat_decimal(n)) == n,
        n >= 1 ==> unmap_status(n) != "Nothing to unmap (no loopback loaded)."@,
{
    lemma_nat_decimal_digits(n);
    if n >= 1 {
        reveal_strlit("Unmapped (");
        reveal_strlit("Nothing to unmap (no loopback loaded).");
        let st = unmap_status(n);
        assert(st[0] == 'U');
        assert("Nothing to unmap (no loopback loaded)."@[0] == 'N');
    }
}

/// Whether removing the mapping needs the module listing: only a named source
/// and a named sink can be joined by a loopback.
pub fn unmap_lists_modules(source: &str, sink: Option<&str>) -> (b: bool)
    ensures
        b == (source@.len() > 0 && sink_or_empty(opt_str(sink)).len() > 0),
{
    match sink {
        Some(s) => !source.is_empty() && !s.is_empty(),
        None => false,
    }
}

/// When the module listing is not needed, what it holds does not matter:
/// nothing is unloaded.
pub proof fn lemma_unmap_listing_unneeded(listing: Seq<char>, source: Seq<char>, sink: Option<
    Seq<char>,
>)
    requires
        !(source.len() > 0 && sink_or_empty(sink).len() > 0),
    ensures
        unmap_ids(listing, source, sink).len() == 0,
{
}

/// Removes the mapping, given the output of `pactl list modules short` (any
/// text when `unmap_lists_modules` says it is not needed): every loopback
/// module joining the source to the sink is to be unloaded, each with its
/// `pactl unload-module <id>`, and the status says how many.
pub fn do_unmap(modules_listing: &str, source: &str, sink: Option<&str>) -> (r: UnmapPlan)
    ensures
        r.unload.deep_view() == unload_commands(unmap_ids(modules_listing@, source@, opt_str(sink))),
        r.status@ == unmap_status(r.unload@.len()),
{
    let ids = match sink {
        Some(s) => find_loopback_module_ids(modules_listing, source, s),
        None => {
            let v: Vec<String> = Vec::new();
            assert(v.deep_view() =~= Seq::<Seq<char>>::empty());
            v
        },
    };
    let ghost want = unload_commands(ids.deep_view());
    let mut unload: Vec<Vec<String>> = Vec::new();
    let mut i: usize = 0;
    while i < ids.len()
        invariant
            i <= ids@.len(),
            want == unload_commands(ids.deep_view()),
            unload.deep_view() =~= want.take(i as int),
        decreases ids.len() - i,
    {
        let cmd = args2("unload-module", ids[i].as_str());
        let ghost before = unload.deep_view();
        unload.push(cmd);
        assert(ids.deep_view()[i as int] == ids@[i as int]@);
        assert(unload.deep_view() =~= before.push(cmd.deep_view()));
        assert(want.take(i + 1) =~= want.take(i as int).push(want[i as int]));
        i = i + 1;
    }
    assert(want.take(ids.len() as int) =~= want);
    if ids.len() == 0 {
        return UnmapPlan { unload, status: owned("Nothing to unmap (no loopback loaded).") };
    }
    let mut text = chars_of("Unmapped (");
    push_decimal(&mut text, ids.len() as u64);
    let tail = chars_of(" module(s) unloaded).");
    extend_chars(&mut text, tail.as_slice());
    let status = string_from(text.as_slice());
    UnmapPlan { unload, status }
}

/// The sink the last successful mapping was made to, after a mapping
/// attempt: the attempt's sink when it succeeded, else what was known before.
pub fn remember_mapped_sink(previous: Option<String>, mapped: bool, sink: Option<&str>) -> (r:
    Option<String>)
    ensures
        opt_view(r) == (if mapped {
            opt_str(sink)
        } else {
            opt_view(previous)
        }),
{
    if mapped {
        match sink {
            Some(s) => Some(owned(s)),
            None => None,
        }
    } else {
        previous
    }
}

} // verus!
