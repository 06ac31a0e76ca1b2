//! The plugin's configuration: which capture card, source and sink it acts
//! on, how it is updated, cached and resolved to the sink actually used.
use vstd::prelude::*;
use crate::pactl::{default_sink, default_sink_name};

verus! {

/// The persisted configuration. No card or source is chosen by default: each
/// machine has its own capture hardware.
pub struct PluginConfig {
    pub card: String,
    pub source: String,
    /// The sink used when `sink_auto` is false, and only then.
    pub sink: String,
    /// Use the system's default sink, asked for at the moment it is needed.
    pub sink_auto: bool,
}

/// What a configuration holds, as plain values.
pub struct ConfigModel {
    pub card: Seq<char>,
    pub source: Seq<char>,
    pub sink: Seq<char>,
    pub sink_auto: bool,
}

impl View for PluginConfig {
    type V = ConfigModel;

    open spec fn view(&self) -> ConfigModel {
        ConfigModel {
            card: self.card@,
            source: self.source@,
            sink: self.sink@,
            sink_auto: self.sink_auto,
        }
    }
}

/// The default of `sink_auto` for a stored configuration that lacks it.
pub fn default_true() -> (b: bool)
    ensures
        b,
{
    true
}

impl Default for PluginConfig {
    fn default() -> (r: Self)
        ensures
            r@ == (ConfigModel {
                card: Seq::empty(),
                source: Seq::empty(),
                sink: Seq::empty(),
                sink_auto: true,
            }),
    {
        PluginConfig {
            card: String::new(),
            source: String::new(),
            sink: String::new(),
            sink_auto: default_true(),
        }
    }
}

impl Clone for PluginConfig {
    fn clone(&self) -> (r: Self)
        ensures
            r == *self,
    {
        PluginConfig {
            card: self.card.clone(),
            source: self.source.clone(),
            sink: self.sink.clone(),
            sink_auto: self.sink_auto,
        }
    }
}

/// The sink in use: in automatic mode the system's default sink, and none
/// when the system reports none; otherwise the configured sink. The
/// configured sink is never used in automatic mode.
pub open spec fn effective_sink_name(cfg: ConfigModel, default_sink_output: Seq<char>) -> Option<
    Seq<char>,
> {
    if cfg.sink_auto {
        default_sink_name(default_sink_output)
    } else {
        Some(cfg.sink)
    }
}

/// The sink in use, given the output of `pactl get-default-sink` (read only
/// when `sink_auto` is set; any text when it is not). `None` when automatic
/// mode finds no default sink.
pub fn effective_sink(cfg: &PluginConfig, default_sink_output: &str) -> (r: Option<String>)
    ensures
        match r {
            Some(s) => effective_sink_name(cfg@, default_sink_output@) == Some(s@),
            None => effective_sink_name(cfg@, default_sink_output@) is None,
        },
{
    if cfg.sink_auto {
        default_sink(default_sink_output)
    } else {
        Some(cfg.sink.clone())
    }
}

/// The cached configuration, loaded by `load` the first time it is needed.
pub fn with_config<F: FnOnce() -> PluginConfig>(slot: &mut Option<PluginConfig>, load: F) -> (cfg:
    &mut PluginConfig)
    requires
        *old(slot) is None ==> call_requires(load, ()),
    ensures
        *old(slot) is Some ==> *cfg == (*old(slot))->0,
        *old(slot) is None ==> call_ensures(load, (), *cfg),
        *final(slot) == Some(*final(cfg)),
{
    match slot.take() {
        Some(c) => slot.insert(c),
        None => {
            let c = load();
            slot.insert(c)
        },
    }
}

/// A copy of the cached configuration (loading it first if needed), so that
/// no lock is held while `pactl` runs.
pub fn snapshot_config<F: FnOnce() -> PluginConfig>(slot: &mut Option<PluginConfig>, load: F) -> (r:
    PluginConfig)
    requires
        *old(slot) is None ==> call_requires(load, ()),
    ensures
        *old(slot) is Some ==> r == (*old(slot))->0,
        *old(slot) is None ==> call_ensures(load, (), r),
        *final(slot) == Some(r),
{
    let cfg = with_config(slot, load);
    cfg.clone()
}

/// The value of a field after an update that gives `new`: empty or absent
/// values keep the old one.
pub open spec fn updated_field(old: Seq<char>, new: Option<Seq<char>>) -> Seq<char> {
    match new {
        Some(v) => if v.len() > 0 {
            v
        } else {
            old
        },
        None => old,
    }
}

/// The configuration after an update from the configuration dialog or a
/// `set_config` request.
pub open spec fn config_update(
    cfg: ConfigModel,
    card: Option<Seq<char>>,
    source: Option<Seq<char>>,
    sink: Option<Seq<char>>,
    sink_auto: bool,
) -> ConfigModel {
    ConfigModel {
        card: updated_field(cfg.card, card),
        source: updated_field(cfg.source, source),
        sink: updated_field(cfg.sink, sink),
        sink_auto,
    }
}

pub open spec fn opt_view(s: Option<String>) -> Option<Seq<char>> {
    match s {
        Some(v) => Some(v@),
        None => None,
    }
}

fn update_field(field: &mut String, new: Option<String>)
    ensures
        final(field)@ == updated_field(old(field)@, opt_view(new)),
{
    match new {
        Some(v) => {
            if !v.as_str().is_empty() {
                *field = v;
            }
        },
        None => {},
    }
}

/// Applies an update to the configuration: each given, non-empty string
/// replaces its field; `sink_auto` is always set.
pub fn loopwire_set_config(
    cfg: &mut PluginConfig,
    card: Option<String>,
    source: Option<String>,
    sink: Option<String>,
    sink_auto: bool,
)
    ensures
        final(cfg)@ == config_update(
            old(cfg)@,
            opt_view(card),
            opt_view(source),
            opt_view(sink),
            sink_auto,
        ),
{
    update_field(&mut cfg.card, card);
    update_field(&mut cfg.source, source);
    update_field(&mut cfg.sink, sink);
    cfg.sink_auto = sink_auto;
}

/// Applying the same update twice leaves the configuration as applying it once.
pub proof fn lemma_config_update_idempotent(
    cfg: ConfigModel,
    card: Option<Seq<char>>,
    source: Option<Seq<char>>,
    sink: Option<Seq<char>>,
    sink_auto: bool,
)
    ensures
        config_update(config_update(cfg, card, source, sink, sink_auto), card, source, sink, sink_auto)
            == config_update(cfg, card, source, sink, sink_auto),
{
}

/// An update sets each field it gives as a non-empty string, whatever the field
/// held before, keeps each field it gives as absent or empty, and always sets
/// `sink_auto`.
pub proof fn lemma_config_update_fields(
    cfg: ConfigModel,
    card: Option<Seq<char>>,
    source: Option<Seq<char>>,
    sink: Option<Seq<char>>,
    sink_auto: bool,
)
    ensures
        card matches Some(v) ==> (v.len() > 0 ==> config_update(
            cfg,
            card,
            source,
            sink,
            sink_auto,
        ).card == v),
        source matches Some(v) ==> (v.len() > 0 ==> config_update(
            cfg,
            card,
            source,
            sink,
            sink_auto,
        ).source == v),
        sink matches Some(v) ==> (v.len() > 0 ==> config_update(
            cfg,
            card,
            source,
            sink,
            sink_auto,
        ).sink == v),
        (card is None || card->0.len() == 0) ==> config_update(
            cfg,
            card,
            source,
            sink,
            sink_auto,
        ).card == cfg.card,
        (source is None || source->0.len() == 0) ==> config_update(
            cfg,
            card,
            source,
            sink,
            sink_auto,
        ).source == cfg.source,
        (sink is None || sink->0.len() == 0) ==> config_update(
            cfg,
            card,
            source,
            sink,
            sink_auto,
        ).sink == cfg.sink,
        config_update(cfg, card, source, sink, sink_auto).sink_auto == sink_auto,
{
}

/// An update that gives no field keeps the card, source and sink.
pub proof fn lemma_config_update_keeps(cfg: ConfigModel, sink_auto: bool)
    ensures
        config_update(cfg, None, None, None, sink_auto) == (ConfigModel { sink_auto, ..cfg }),
{
}

/// Without `sink_auto` the configured sink is used whatever the system reports.
pub proof fn lemma_manual_sink(cfg: ConfigModel, output: Seq<char>)
    requires
        !cfg.sink_auto,
    ensures
        effective_sink_name(cfg, output) == Some(cfg.sink),
{
}

/// With `sink_auto` the configured sink plays no part: two configurations that
/// differ only in it use the same sink.
pub proof fn lemma_auto_sink_ignores_manual(cfg: ConfigModel, other_sink: Seq<char>, output: Seq<
    char,
>)
    requires
        cfg.sink_auto,
    ensures
        effective_sink_name(cfg, output) == effective_sink_name(
            ConfigModel { sink: other_sink, ..cfg },
            output,
        ),
{
}

} // verus!
