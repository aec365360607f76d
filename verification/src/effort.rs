//! Reasoning effort: which models offer it, at which levels.
use crate::text;
use crate::text::{copy_str, str_contains, str_eq, to_lowercase};
use vstd::prelude::*;

verus! {

/// A level of reasoning effort: the value that is sent and the label that is
/// shown.
#[derive(Debug)]
pub struct EffortOption {
    pub value: String,
    pub label: String,
}

/// The levels that a model offers, and the one it uses unless told otherwise.
#[derive(Debug)]
pub struct EffortConfig {
    pub levels: Vec<EffortOption>,
    pub default: String,
}

/// The levels that a model offers, by their contents: the value and the label
/// of each.
pub struct EffortView {
    pub levels: Seq<(Seq<char>, Seq<char>)>,
    pub default: Seq<char>,
}

impl View for EffortConfig {
    type V = EffortView;

    open spec fn view(&self) -> EffortView {
        EffortView {
            levels: self.levels@.map_values(|o: EffortOption| (o.value@, o.label@)),
            default: self.default@,
        }
    }
}

/// The levels that are offered by the models whose name, in lower case, is
/// `lowered`. The first family whose name occurs in it counts.
pub open spec fn effort_of(lowered: Seq<char>) -> Option<EffortView> {
    let low = ("low"@, "Low"@);
    let high = ("high"@, "High"@);
    let max = ("max"@, "Max"@);
    if text::contains(lowered, "glm-5.3-flash"@) {
        Some(EffortView { levels: seq![low, high], default: "high"@ })
    } else if text::contains(lowered, "glm-5.3"@) {
        Some(EffortView { levels: seq![low, high, max], default: "high"@ })
    } else if text::contains(lowered, "glm-5.2"@) {
        Some(EffortView { levels: seq![high, max], default: "high"@ })
    } else {
        None
    }
}

/// An optional configuration by its contents.
pub open spec fn opt_effort(c: Option<EffortConfig>) -> Option<EffortView> {
    match c {
        Some(config) => Some(config@),
        None => None,
    }
}

fn option(value: &str, label: &str) -> (o: EffortOption)
    ensures
        o.value@ == value@,
        o.label@ == label@,
{
    EffortOption { value: copy_str(value), label: copy_str(label) }
}

/// The levels that are offered by the models of the given name in lower case.
pub fn effort_config_for(lowered: &str) -> (r: Option<EffortConfig>)
    ensures
        opt_effort(r) == effort_of(lowered@),
{
    let mut levels: Vec<EffortOption> = Vec::new();
    if str_contains(lowered, "glm-5.3-flash") {
        levels.push(option("low", "Low"));
        levels.push(option("high", "High"));
    } else if str_contains(lowered, "glm-5.3") {
        levels.push(option("low", "Low"));
        levels.push(option("high", "High"));
        levels.push(option("max", "Max"));
    } else if str_contains(lowered, "glm-5.2") {
        levels.push(option("high", "High"));
        levels.push(option("max", "Max"));
    } else {
        return None;
    }
    let config = EffortConfig { levels, default: copy_str("high") };
    assert(config@.levels =~= effort_of(lowered@)->0.levels);
    Some(config)
}

/// The levels that a model offers. Its name is compared without regard to
/// case.
pub fn reasoning_effort_config(model_name: &str) -> (r: Option<EffortConfig>)
    ensures
        opt_effort(r) == effort_of(text::lowercase(model_name@)),
{
    let lowered = to_lowercase(model_name);
    effort_config_for(lowered.as_str())
}

/// Whether a model offers levels of reasoning effort.
pub fn model_supports_reasoning_effort(model_name: &str) -> (r: bool)
    ensures
        r == (effort_of(text::lowercase(model_name@)) is Some),
{
    reasoning_effort_config(model_name).is_some()
}

/// A level of reasoning effort as the model picker shows it.
#[derive(Debug)]
pub struct LanguageModelEffortLevel {
    pub name: String,
    pub value: String,
    pub is_default: bool,
}

/// A shown level by its contents: its name, its value, and whether it is the
/// one used unless told otherwise.
pub open spec fn level_views(levels: Seq<LanguageModelEffortLevel>) -> Seq<
    (Seq<char>, Seq<char>, bool),
> {
    levels.map_values(|l: LanguageModelEffortLevel| (l.name@, l.value@, l.is_default))
}

/// The levels that are shown for a configuration.
pub open spec fn shown_levels(config: Option<EffortView>) -> Seq<(Seq<char>, Seq<char>, bool)> {
    match config {
        Some(c) => c.levels.map_values(
            |l: (Seq<char>, Seq<char>)| (l.1, l.0, l.0 == c.default),
        ),
        None => Seq::empty(),
    }
}

/// The levels that are shown for a configuration.
pub fn effort_levels(config: Option<EffortConfig>) -> (out: Vec<LanguageModelEffortLevel>)
    ensures
        level_views(out@) == shown_levels(opt_effort(config)),
{
    let mut out: Vec<LanguageModelEffortLevel> = Vec::new();
    match config {
        None => {},
        Some(config) => {
            let ghost shown = shown_levels(Some(config@));
            let mut i: usize = 0;
            while i < config.levels.len()
                invariant
                    i <= config.levels@.len(),
                    shown == shown_levels(Some(config@)),
                    level_views(out@) == shown.take(i as int),
                decreases config.levels@.len() - i,
            {
                let level = &config.levels[i];
                let ghost before = out@;
                out.push(
                    LanguageModelEffortLevel {
                        name: copy_str(level.label.as_str()),
                        value: copy_str(level.value.as_str()),
                        is_default: str_eq(level.value.as_str(), config.default.as_str()),
                    },
                );
                proof {
                    let l = config@.levels[i as int];
                    assert(l == (level.value@, level.label@));
                    assert(shown[i as int] == (l.1, l.0, l.0 == config@.default));
                    assert(level_views(out@) =~= level_views(before).push(shown[i as int]));
                    assert(shown.take(i + 1) =~= shown.take(i as int).push(shown[i as int]));
                }
                i = i + 1;
            }
            assert(shown.take(shown.len() as int) =~= shown);
        },
    }
    assert(opt_effort(config) is None ==> level_views(out@) =~= Seq::empty());
    out
}

/// The levels that are shown for a model.
pub fn supported_effort_levels_for(model_name: &str) -> (out: Vec<LanguageModelEffortLevel>)
    ensures
        level_views(out@) == shown_levels(effort_of(text::lowercase(model_name@))),
{
    effort_levels(reasoning_effort_config(model_name))
}

/// `value` is the value of one of the levels.
pub open spec fn offers(config: EffortView, value: Seq<char>) -> bool {
    exists|i: int| 0 <= i < config.levels.len() && (#[trigger] config.levels[i]).0 == value
}

/// The effort to send: none where the model offers none or may not think,
/// else the one asked for if it is offered, else the default one.
pub open spec fn chosen_effort(
    config: Option<EffortView>,
    allowed: bool,
    asked: Option<Seq<char>>,
) -> Option<Seq<char>> {
    match config {
        Some(c) if allowed => match asked {
            Some(e) if offers(c, e) => Some(e),
            _ => Some(c.default),
        },
        _ => None,
    }
}

/// Whether `value` is the value of one of the levels.
fn offers_value(config: &EffortConfig, value: &str) -> (r: bool)
    ensures
        r == offers(config@, value@),
{
    let mut i: usize = 0;
    while i < config.levels.len()
        invariant
            i <= config.levels@.len(),
            forall|k: int| 0 <= k < i ==> (#[trigger] config@.levels[k]).0 != value@,
        decreases config.levels@.len() - i,
    {
        if str_eq(config.levels[i].value.as_str(), value) {
            assert(config@.levels[i as int].0 == value@);
            return true;
        }
        i = i + 1;
    }
    false
}

/// The effort to send.
pub fn resolve_effort(
    config: &Option<EffortConfig>,
    thinking_allowed: bool,
    thinking_effort: &Option<String>,
) -> (r: Option<String>)
    ensures
        text::opt_view(r) == chosen_effort(
            opt_effort(*config),
            thinking_allowed,
            text::opt_view(*thinking_effort),
        ),
{
    match config {
        None => None,
        Some(config) => {
            if !thinking_allowed {
                return None;
            }
            if let Some(asked) = thinking_effort {
                if offers_value(config, asked.as_str()) {
                    return Some(copy_str(asked.as_str()));
                }
            }
            Some(copy_str(config.default.as_str()))
        },
    }
}

/// Whatever effort is asked for, one that is sent is offered by the model.
pub proof fn law_sent_effort_is_offered(lowered: Seq<char>, allowed: bool, asked: Option<Seq<char>>)
    ensures
        chosen_effort(effort_of(lowered), allowed, asked) matches Some(e) ==> offers(
            effort_of(lowered)->0,
            e,
        ),
        chosen_effort(effort_of(lowered), allowed, asked) is Some <==> effort_of(lowered) is Some
            && allowed,
{
    if effort_of(lowered) is Some {
        let c = effort_of(lowered)->0;
        assert(c.levels[0].0 == "high"@ || c.levels[1].0 == "high"@);
    }
}

/// The levels of a family of models, by the value and the label of each: they
/// are offered, with those labels, and nothing else is.
pub open spec fn offers_only(c: EffortView, levels: Set<(Seq<char>, Seq<char>)>) -> bool {
    forall|l: (Seq<char>, Seq<char>)| #[trigger]
        levels.contains(l) <==> exists|i: int| 0 <= i < c.levels.len() && #[trigger] c.levels[i] == l
}

/// The flash models of the third generation offer low and high effort, its
/// other models the highest as well, and those of the second high and the
/// highest; no other model offers any. All of them use high effort unless told
/// otherwise.
pub proof fn law_families_offer_their_levels(lowered: Seq<char>)
    ensures
        ({
            let low = ("low"@, "Low"@);
            let high = ("high"@, "High"@);
            let max = ("max"@, "Max"@);
            let flash = text::contains(lowered, "glm-5.3-flash"@);
            let third = text::contains(lowered, "glm-5.3"@);
            let second = text::contains(lowered, "glm-5.2"@);
            &&& effort_of(lowered) is Some <==> flash || third || second
            &&& effort_of(lowered) matches Some(c) ==> {
                &&& c.default == "high"@
                &&& flash ==> offers_only(c, set![low, high])
                &&& third && !flash ==> offers_only(c, set![low, high, max])
                &&& second && !third && !flash ==> offers_only(c, set![high, max])
            }
        }),
{
    let low = ("low"@, "Low"@);
    let high = ("high"@, "High"@);
    let max = ("max"@, "Max"@);
    if let Some(c) = effort_of(lowered) {
        let l = c.levels;
        if text::contains(lowered, "glm-5.3-flash"@) {
            assert(l[0] == low && l[1] == high);
        } else if text::contains(lowered, "glm-5.3"@) {
            assert(l[0] == low && l[1] == high && l[2] == max);
        } else {
            assert(l[0] == high && l[1] == max);
        }
    }
}

/// Every level that a model offers is shown, in order, by its label and with
/// its value, and the one that is used unless told otherwise is marked, no
/// other.
pub proof fn law_levels_are_shown(config: Option<EffortView>, i: int)
    ensures
        config is None ==> shown_levels(config).len() == 0,
        config matches Some(c) ==> shown_levels(config).len() == c.levels.len() && (0 <= i
            < c.levels.len() ==> {
            &&& shown_levels(config)[i].0 == c.levels[i].1
            &&& shown_levels(config)[i].1 == c.levels[i].0
            &&& shown_levels(config)[i].2 <==> c.levels[i].0 == c.default
        }),
{
}

/// How much effort a level asks for.
pub open spec fn effort_rank(value: Seq<char>) -> int {
    if value == "low"@ {
        0
    } else if value == "high"@ {
        1
    } else {
        2
    }
}

/// The levels of a model are offered from the lowest to the highest.
pub proof fn law_levels_rise(lowered: Seq<char>, i: int, j: int)
    ensures
        effort_of(lowered) matches Some(c) ==> (0 <= i < j < c.levels.len() ==> effort_rank(
            c.levels[i].0,
        ) < effort_rank(c.levels[j].0)),
{
    reveal_strlit("low");
    reveal_strlit("high");
    reveal_strlit("max");
    assert("low"@.len() == 3 && "high"@.len() == 4 && "max"@.len() == 3);
    assert("low"@[0] == 'l' && "max"@[0] == 'm');
}

/// The levels of a model are those of its family, whatever the case of its name
/// is, and a level that is asked for is sent where it is among them and
/// thinking is allowed.
pub proof fn law_asked_level_is_sent(
    model_name: &str,
    config: Option<EffortConfig>,
    offers_any: bool,
    asked: String,
    allowed: bool,
    sent: Option<String>,
    i: int,
)
    requires
        call_ensures(reasoning_effort_config, (model_name,), config),
        call_ensures(model_supports_reasoning_effort, (model_name,), offers_any),
        call_ensures(resolve_effort, (&config, allowed, &Some(asked)), sent),
    ensures
        offers_any <==> config is Some,
        opt_effort(config) == effort_of(text::lowercase(model_name@)),
        sent is Some <==> config is Some && allowed,
        config is Some && allowed && 0 <= i < config->0.levels@.len() && config->0.levels@[i].value@
            == asked@ ==> sent->0@ == asked@,
{
    if let Some(c) = config {
        if 0 <= i < c.levels@.len() {
            assert(c@.levels[i].0 == c.levels@[i].value@);
        }
    }
}

} // verus!
