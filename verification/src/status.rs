//! The state of the capture source as the dock and the obs-websocket vendor
//! requests report it, and the volume requests they accept.
use vstd::prelude::*;
use crate::text::{
    int_decimal, is_digit, is_ws, lemma_index_of_ws, lemma_nat_decimal_digits,
    lemma_parse_int_decimal, nat_decimal, words,
};
use crate::pactl::{
    get_mute, get_volume_percent, is_mapped, loopback_module_ids, mute_state, owned,
    set_volume_percent, source_exists, source_listed, volume_percent,
};
use crate::config::{effective_sink, effective_sink_name, opt_view, ConfigModel, PluginConfig};
use crate::mapping::opt_str;

verus! {

/// The status shown by the dock.
#[derive(Clone, Copy, PartialEq, Eq, Structural, Debug)]
pub struct FfiStatus {
    pub source_exists: bool,
    pub mapped: bool,
    pub muted: bool,
    pub volume_percent: i32,
}

impl Default for FfiStatus {
    fn default() -> (r: Self)
        ensures
            r == (FfiStatus { source_exists: false, mapped: false, muted: false, volume_percent: 0 }),
    {
        FfiStatus { source_exists: false, mapped: false, muted: false, volume_percent: 0 }
    }
}

/// The outputs of the `pactl` commands a status is computed from (any text for
/// a query that `status_first_queries` or `status_follow_ups` leaves out).
pub struct PactlOutputs<'a> {
    /// `pactl list sources short` (read only for a named source)
    pub sources: &'a str,
    /// `pactl list modules short` (read only when a loopback could be found)
    pub modules: &'a str,
    /// `pactl get-source-mute <source>` (read only when the source exists)
    pub mute: &'a str,
    /// `pactl get-source-volume <source>` (read only when the source exists)
    pub volume: &'a str,
}

/// The mapped flag: a sink is in use and a loopback joins the configured
/// source to it.
pub open spec fn mapped_spec(cfg: ConfigModel, modules: Seq<char>, sink: Option<Seq<char>>) -> bool {
    match sink {
        Some(s) => loopback_module_ids(modules, cfg.source, s).len() > 0,
        None => false,
    }
}

/// The module listing can matter: the source is named and a named sink is in use.
pub open spec fn modules_needed(cfg: ConfigModel, sink: Option<Seq<char>>) -> bool {
    cfg.source.len() > 0 && match sink {
        Some(s) => s.len() > 0,
        None => false,
    }
}

/// The sink a status checks the loopback against. A background refresh never
/// asks the system for its default sink: in automatic mode it uses the sink
/// the last successful mapping was made to (none if there was none). Otherwise
/// it is the sink in use now.
pub open spec fn status_sink_name(
    cfg: ConfigModel,
    default_sink_output: Seq<char>,
    background: bool,
    last_mapped: Option<Seq<char>>,
) -> Option<Seq<char>> {
    if cfg.sink_auto && background {
        last_mapped
    } else {
        effective_sink_name(cfg, default_sink_output)
    }
}

/// The queries a status starts with.
pub struct StatusQueries {
    /// `pactl list sources short`
    pub sources: bool,
    /// `pactl get-default-sink`
    pub default_sink: bool,
}

/// The queries a status goes on with, once the first answers are in.
pub struct StatusFollowUps {
    /// `pactl get-source-mute` and `pactl get-source-volume`
    pub mute_and_volume: bool,
    /// `pactl list modules short`
    pub modules: bool,
}

/// Which `pactl` queries a status starts with: the sources only for a named
/// source; the default sink only in automatic mode, and never for a
/// background refresh.
pub fn status_first_queries(cfg: &PluginConfig, background: bool) -> (q: StatusQueries)
    ensures
        q.sources == (cfg.source@.len() > 0),
        q.default_sink == (cfg.sink_auto && !background),
        background ==> !q.default_sink,
{
    StatusQueries {
        sources: !cfg.source.as_str().is_empty(),
        default_sink: cfg.sink_auto && !background,
    }
}

fn opt_string_of(s: Option<&str>) -> (r: Option<String>)
    ensures
        opt_view(r) == opt_str(s),
{
    match s {
        Some(v) => Some(owned(v)),
        None => None,
    }
}

/// The sink a status checks the loopback against, given the output of
/// `pactl get-default-sink` (any text when `status_first_queries` did not ask
/// for it) and the sink of the last successful mapping.
pub fn status_sink(
    cfg: &PluginConfig,
    default_sink_output: &str,
    background: bool,
    last_mapped: Option<&str>,
) -> (r: Option<String>)
    ensures
        opt_view(r) == status_sink_name(cfg@, default_sink_output@, background, opt_str(last_mapped)),
{
    if cfg.sink_auto && background {
        opt_string_of(last_mapped)
    } else {
        let s = effective_sink(cfg, default_sink_output);
        assert(opt_view(s) == effective_sink_name(cfg@, default_sink_output@));
        s
    }
}

fn is_mapped_to(cfg: &PluginConfig, modules: &str, sink: &Option<String>) -> (b: bool)
    ensures
        b == mapped_spec(cfg@, modules@, opt_view(*sink)),
{
    match sink {
        Some(s) => is_mapped(modules, cfg.source.as_str(), s.as_str()),
        None => false,
    }
}

/// Which `pactl` queries a status goes on with, given the sources listing (any
/// text when it was not asked for) and the sink in use: mute and volume only
/// for a source that exists, the modules only when a loopback could join the
/// source to the sink.
pub fn status_follow_ups(cfg: &PluginConfig, sources: &str, sink: &Option<String>) -> (f:
    StatusFollowUps)
    ensures
        f.mute_and_volume == source_listed(sources@, cfg.source@),
        f.modules == modules_needed(cfg@, opt_view(*sink)),
{
    let modules = match sink {
        Some(s) => !cfg.source.as_str().is_empty() && !s.as_str().is_empty(),
        None => false,
    };
    StatusFollowUps { mute_and_volume: source_exists(sources, cfg.source.as_str()), modules }
}

/// The answers to queries that are not made do not matter: an unnamed source
/// is listed nowhere, the default sink plays no part outside automatic mode
/// nor in a background refresh, and when the modules are not needed the
/// source is not mapped whatever the listing holds.
pub proof fn lemma_skipped_queries_irrelevant(
    cfg: ConfigModel,
    sources: Seq<char>,
    default_sink: Seq<char>,
    other_default_sink: Seq<char>,
    background: bool,
    last_mapped: Option<Seq<char>>,
    sink: Option<Seq<char>>,
    modules: Seq<char>,
)
    ensures
        cfg.source.len() == 0 ==> !source_listed(sources, cfg.source),
        !(cfg.sink_auto && !background) ==> status_sink_name(
            cfg,
            default_sink,
            background,
            last_mapped,
        ) == status_sink_name(cfg, other_default_sink, background, last_mapped),
        !modules_needed(cfg, sink) ==> !mapped_spec(cfg, modules, sink),
{
}

/// In automatic mode the configured sink plays no part in a status either.
pub proof fn lemma_status_sink_ignores_manual(
    cfg: ConfigModel,
    other_sink: Seq<char>,
    default_sink: Seq<char>,
    background: bool,
    last_mapped: Option<Seq<char>>,
)
    requires
        cfg.sink_auto,
    ensures
        status_sink_name(cfg, default_sink, background, last_mapped) == status_sink_name(
            ConfigModel { sink: other_sink, ..cfg },
            default_sink,
            background,
            last_mapped,
        ),
{
}

/// The dock's status: whether the source exists and is mapped to `sink` (the
/// sink `status_sink` gives), and, when it exists, its mute state and volume
/// (unmuted and 0 when unreadable).
pub fn compute_status(cfg: &PluginConfig, out: &PactlOutputs, sink: &Option<String>) -> (r:
    FfiStatus)
    ensures
        r.source_exists == source_listed(out.sources@, cfg.source@),
        r.mapped == mapped_spec(cfg@, out.modules@, opt_view(*sink)),
        r.muted == (r.source_exists && mute_state(out.mute@) == Some(true)),
        r.volume_percent == (if r.source_exists {
            match volume_percent(out.volume@) {
                Some(v) => v,
                None => 0,
            }
        } else {
            0
        }),
{
    let exists = source_exists(out.sources, cfg.source.as_str());
    let muted = if exists {
        match get_mute(out.mute) {
            Some(m) => m,
            None => false,
        }
    } else {
        false
    };
    let volume_percent = if exists {
        match get_volume_percent(out.volume) {
            Some(v) => v,
            None => 0,
        }
    } else {
        0
    };
    FfiStatus {
        source_exists: exists,
        mapped: is_mapped_to(cfg, out.modules, sink),
        muted,
        volume_percent,
    }
}

/// The answer to the `get_status` vendor request (its `success` is always true).
pub struct StatusReply {
    pub source_exists: bool,
    pub mapped: bool,
    /// Present when the source exists and its mute state could be read.
    pub muted: Option<bool>,
    /// Present when the source exists and its volume could be read.
    pub volume_percent: Option<i64>,
    pub card: String,
    pub source: String,
    pub sink: String,
    pub sink_auto: bool,
}

/// The answer to the `get_status` vendor request, with `sink` the sink
/// `status_sink` gives.
pub fn websocket_get_status(cfg: &PluginConfig, out: &PactlOutputs, sink: &Option<String>) -> (r:
    StatusReply)
    ensures
        r.source_exists == source_listed(out.sources@, cfg.source@),
        r.mapped == mapped_spec(cfg@, out.modules@, opt_view(*sink)),
        r.muted == (if r.source_exists {
            mute_state(out.mute@)
        } else {
            None
        }),
        r.volume_percent == (if r.source_exists {
            match volume_percent(out.volume@) {
                Some(v) => Some(v as i64),
                None => None,
            }
        } else {
            None
        }),
        r.card@ == cfg.card@,
        r.source@ == cfg.source@,
        r.sink@ == cfg.sink@,
        r.sink_auto == cfg.sink_auto,
{
    let exists = source_exists(out.sources, cfg.source.as_str());
    let mapped = is_mapped_to(cfg, out.modules, sink);
    let mut muted: Option<bool> = None;
    let mut volume_percent: Option<i64> = None;
    if exists {
        muted = get_mute(out.mute);
        match get_volume_percent(out.volume) {
            Some(v) => {
                volume_percent = Some(v as i64);
            },
            None => {},
        }
    }
    StatusReply {
        source_exists: exists,
        mapped,
        muted,
        volume_percent,
        card: cfg.card.clone(),
        source: cfg.source.clone(),
        sink: cfg.sink.clone(),
        sink_auto: cfg.sink_auto,
    }
}

/// The `pactl` arguments that set a source's volume.
pub open spec fn volume_args(source: Seq<char>, percent: int) -> Seq<Seq<char>> {
    seq!["set-source-volume"@, source, int_decimal(percent) + seq!['%']]
}

pub open spec fn volume_range_error() -> Seq<char> {
    "volume_percent must be between 0 and 150"@
}

/// The `set_volume` vendor request's check: a percentage from 0 to 150 is
/// accepted as it is; any other is refused with an error text.
pub fn websocket_set_volume(percent: i64) -> (r: Result<i32, String>)
    ensures
        (r is Ok) == (0 <= percent <= 150),
        r matches Ok(p) ==> p == percent,
        r matches Err(e) ==> e@ == volume_range_error(),
{
    if percent < 0 || percent > 150 {
        return Err(owned("volume_percent must be between 0 and 150"));
    }
    Ok(percent as i32)
}

/// A percentage brought into the range 0 to 150.
pub open spec fn clamp_percent(percent: int) -> int {
    if percent < 0 {
        0
    } else if percent > 150 {
        150
    } else {
        percent
    }
}

/// The dock's volume slider: the percentage is clamped to 0 to 150, then applied.
pub fn loopwire_set_volume(source: &str, percent: i32) -> (r: Vec<String>)
    ensures
        r.deep_view() == volume_args(source@, clamp_percent(percent as int)),
{
    let p = if percent < 0 {
        0
    } else if percent > 150 {
        150
    } else {
        percent
    };
    set_volume_percent(source, p)
}

/// Whatever a caller asks, the volume that reaches `pactl` lies between 0 and
/// 150 percent.
pub proof fn lemma_volume_in_range(percent: int)
    ensures
        0 <= clamp_percent(percent) <= 150,
        0 <= percent <= 150 ==> clamp_percent(percent) == percent,
{
}

proof fn lemma_words_single(s: Seq<char>)
    requires
        s.len() > 0,
        forall|i: int| 0 <= i < s.len() ==> !is_ws(#[trigger] s[i]),
    ensures
        words(s) == seq![s],
{
    lemma_index_of_ws(s, s.len() as int);
    assert(s.take(s.len() as int) =~= s);
    assert(s.skip(s.len() as int) =~= Seq::<char>::empty());
    assert(words(s.skip(s.len() as int)) == Seq::<Seq<char>>::empty());
}

/// Reading back a volume that was set: the word that sets a volume of
/// `percent` is read back as `percent`.
pub proof fn lemma_volume_roundtrip(source: Seq<char>, percent: i32)
    ensures
        volume_percent(volume_args(source, percent as int)[2]) == Some(percent),
{
    let d = int_decimal(percent as int);
    let w = d + seq!['%'];
    lemma_parse_int_decimal(percent);
    let m: nat = if percent < 0 {
        (-(percent as int)) as nat
    } else {
        percent as nat
    };
    lemma_nat_decimal_digits(m);
    assert forall|i: int| 0 <= i < w.len() implies !is_ws(#[trigger] w[i]) by {
        if i < d.len() {
            if percent < 0 {
                if i > 0 {
                    assert(d[i] == nat_decimal(m)[i - 1]);
                    assert(is_digit(nat_decimal(m)[i - 1]));
                }
            } else {
                assert(is_digit(nat_decimal(m)[i]));
            }
        }
    }
    lemma_words_single(w);
    assert(w.drop_last() =~= d);
    assert(seq![w].drop_first() =~= Seq::<Seq<char>>::empty());
}

} // verus!
