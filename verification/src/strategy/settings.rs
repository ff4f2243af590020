//! The settings of the strategies, read from their key-value configuration
//! with a default for each key that is not given.
use crate::parse::{decimal_in_range, is_digit, parse_i32, parse_u32, parse_usize};
use crate::strategy::Interval;
use crate::strategy::quadrant::QuadrantSettings;
use crate::strmap::StrMap;
use crate::text::same_text;
use vstd::prelude::*;

verus! {

/// The settings that the strategies read.
#[derive(PartialEq, Eq, Structural, Clone, Copy, Debug)]
pub enum Setting {
    SendInterval,
    SpreadInterval,
    AdvertiseInterval,
    SendPackets,
    SpreadPriority,
    SelfForwardPriority,
    AdvertisePriority,
    RandomDelayMax,
    MaxCopies,
    MaxPeerAge,
    MinScore,
    MaxScore,
}

impl Setting {
    /// The configuration key of the setting.
    pub open spec fn key_view(self) -> Seq<char> {
        match self {
            Setting::SendInterval => "SEND_INTERVAL"@,
            Setting::SpreadInterval => "SPREAD_INTERVAL"@,
            Setting::AdvertiseInterval => "ADVERTISE_INTERVAL"@,
            Setting::SendPackets => "SEND_PACKETS"@,
            Setting::SpreadPriority => "SPREAD_PRIORITY"@,
            Setting::SelfForwardPriority => "SELF_FORWARD_PRIORITY"@,
            Setting::AdvertisePriority => "ADVERTISE_PRIORITY"@,
            Setting::RandomDelayMax => "RANDOM_DELAY_MAX"@,
            Setting::MaxCopies => "MAX_COPIES"@,
            Setting::MaxPeerAge => "MAX_PEER_AGE"@,
            Setting::MinScore => "MIN_SCORE"@,
            Setting::MaxScore => "MAX_SCORE"@,
        }
    }

    /// The text the setting has when the configuration does not give it.
    pub open spec fn default_view(self) -> Seq<char> {
        match self {
            Setting::SendInterval => "10s"@,
            Setting::SpreadInterval => "35s"@,
            Setting::AdvertiseInterval => "60s"@,
            Setting::SendPackets => "2"@,
            Setting::SpreadPriority => "2"@,
            Setting::SelfForwardPriority => "10"@,
            Setting::AdvertisePriority => "0"@,
            Setting::RandomDelayMax => "0"@,
            Setting::MaxCopies => "7"@,
            Setting::MaxPeerAge => "30"@,
            Setting::MinScore => "0"@,
            Setting::MaxScore => "100"@,
        }
    }

    /// The configuration key of the setting.
    pub fn key(&self) -> (k: &'static str)
        ensures
            k@ == self.key_view(),
    {
        match self {
            Setting::SendInterval => "SEND_INTERVAL",
            Setting::SpreadInterval => "SPREAD_INTERVAL",
            Setting::AdvertiseInterval => "ADVERTISE_INTERVAL",
            Setting::SendPackets => "SEND_PACKETS",
            Setting::SpreadPriority => "SPREAD_PRIORITY",
            Setting::SelfForwardPriority => "SELF_FORWARD_PRIORITY",
            Setting::AdvertisePriority => "ADVERTISE_PRIORITY",
            Setting::RandomDelayMax => "RANDOM_DELAY_MAX",
            Setting::MaxCopies => "MAX_COPIES",
            Setting::MaxPeerAge => "MAX_PEER_AGE",
            Setting::MinScore => "MIN_SCORE",
            Setting::MaxScore => "MAX_SCORE",
        }
    }

    /// The text the setting has when the configuration does not give it.
    pub fn default_text(&self) -> (d: &'static str)
        ensures
            d@ == self.default_view(),
    {
        match self {
            Setting::SendInterval => "10s",
            Setting::SpreadInterval => "35s",
            Setting::AdvertiseInterval => "60s",
            Setting::SendPackets => "2",
            Setting::SpreadPriority => "2",
            Setting::SelfForwardPriority => "10",
            Setting::AdvertisePriority => "0",
            Setting::RandomDelayMax => "0",
            Setting::MaxCopies => "7",
            Setting::MaxPeerAge => "30",
            Setting::MinScore => "0",
            Setting::MaxScore => "100",
        }
    }
}

/// Each setting is read from its own documented key, and falls back to its
/// documented default.
pub proof fn law_setting_keys_and_defaults()
    ensures
        Setting::SendInterval.key_view() == "SEND_INTERVAL"@,
        Setting::SpreadInterval.key_view() == "SPREAD_INTERVAL"@,
        Setting::AdvertiseInterval.key_view() == "ADVERTISE_INTERVAL"@,
        Setting::SendPackets.key_view() == "SEND_PACKETS"@,
        Setting::SpreadPriority.key_view() == "SPREAD_PRIORITY"@,
        Setting::SelfForwardPriority.key_view() == "SELF_FORWARD_PRIORITY"@,
        Setting::AdvertisePriority.key_view() == "ADVERTISE_PRIORITY"@,
        Setting::RandomDelayMax.key_view() == "RANDOM_DELAY_MAX"@,
        Setting::MaxCopies.key_view() == "MAX_COPIES"@,
        Setting::MaxPeerAge.key_view() == "MAX_PEER_AGE"@,
        Setting::MinScore.key_view() == "MIN_SCORE"@,
        Setting::MaxScore.key_view() == "MAX_SCORE"@,
        Setting::SendInterval.default_view() == "10s"@,
        Setting::SpreadInterval.default_view() == "35s"@,
        Setting::AdvertiseInterval.default_view() == "60s"@,
        Setting::SendPackets.default_view() == "2"@,
        Setting::SpreadPriority.default_view() == "2"@,
        Setting::SelfForwardPriority.default_view() == "10"@,
        Setting::AdvertisePriority.default_view() == "0"@,
        Setting::RandomDelayMax.default_view() == "0"@,
        Setting::MaxCopies.default_view() == "7"@,
        Setting::MaxPeerAge.default_view() == "30"@,
        Setting::MinScore.default_view() == "0"@,
        Setting::MaxScore.default_view() == "100"@,
{
}

/// Two different settings never share a key, so a configured value is read
/// by exactly one setting.
pub proof fn law_setting_keys_distinct(a: Setting, b: Setting)
    requires
        a != b,
    ensures
        a.key_view() != b.key_view(),
{
    reveal_strlit("SEND_INTERVAL");
    reveal_strlit("SPREAD_INTERVAL");
    reveal_strlit("ADVERTISE_INTERVAL");
    reveal_strlit("SEND_PACKETS");
    reveal_strlit("SPREAD_PRIORITY");
    reveal_strlit("SELF_FORWARD_PRIORITY");
    reveal_strlit("ADVERTISE_PRIORITY");
    reveal_strlit("RANDOM_DELAY_MAX");
    reveal_strlit("MAX_COPIES");
    reveal_strlit("MAX_PEER_AGE");
    reveal_strlit("MIN_SCORE");
    reveal_strlit("MAX_SCORE");
    let ka = a.key_view();
    let kb = b.key_view();
    assert(ka.len() != kb.len() || ka[0] != kb[0] || ka[1] != kb[1] || ka[7] != kb[7] || ka[10]
        != kb[10]) by {
        match a {
            Setting::SendInterval => {},
            Setting::SpreadInterval => {},
            Setting::AdvertiseInterval => {},
            Setting::SendPackets => {},
            Setting::SpreadPriority => {},
            Setting::SelfForwardPriority => {},
            Setting::AdvertisePriority => {},
            Setting::RandomDelayMax => {},
            Setting::MaxCopies => {},
            Setting::MaxPeerAge => {},
            Setting::MinScore => {},
            Setting::MaxScore => {},
        }
    }
}

/// The text of setting `s`: the configured value, else its default.
pub open spec fn setting_text(config: Map<Seq<char>, String>, s: Setting) -> Seq<char> {
    if config.contains_key(s.key_view()) {
        config[s.key_view()]@
    } else {
        s.default_view()
    }
}

/// The text of setting `s`: the configured value, else its default.
pub fn setting_text_of(config: &StrMap<String>, s: Setting) -> (r: String)
    requires
        config.wf(),
    ensures
        r@ == setting_text(config@, s),
{
    match config.get(s.key()) {
        Some(v) => v.clone(),
        None => s.default_text().to_owned(),
    }
}

/// The duration that humantime's `parse_duration` reads from `text`, as
/// seconds and nanoseconds, or `None` when it rejects the text.
pub uninterp spec fn parsed_duration(text: Seq<char>) -> Option<(u64, u32)>;

pub open spec fn interval_pair(i: Option<Interval>) -> Option<(u64, u32)> {
    match i {
        Some(d) => Some((d.secs, d.nanos)),
        None => None,
    }
}

/// Whether `c` ends a number in a duration text: a letter of a unit or the
/// decimal point. Other characters that are no digits join the digits
/// around them (humantime skips whitespace inside a number) or make the
/// text invalid.
pub open spec fn ends_number(c: char) -> bool {
    ('a' <= c && c <= 'z') || ('A' <= c && c <= 'Z') || c == '\u{b5}' || c == '.'
}

/// The value of the number that `s` ends in, its digits since the last
/// character that ends a number; 0 when there is none.
pub open spec fn trailing_number(s: Seq<char>) -> nat
    decreases s.len(),
{
    if s.len() == 0 {
        0
    } else if is_digit(s.last()) {
        trailing_number(s.drop_last()) * 10 + ((s.last() as int) - ('0' as int)) as nat
    } else if ends_number(s.last()) {
        0
    } else {
        trailing_number(s.drop_last())
    }
}

/// Whether a number is still open at the end of `s`: a digit came since
/// the last character that ends a number.
pub open spec fn number_open(s: Seq<char>) -> bool
    decreases s.len(),
{
    if s.len() == 0 {
        false
    } else if is_digit(s.last()) {
        true
    } else if ends_number(s.last()) {
        false
    } else {
        number_open(s.drop_last())
    }
}

/// The numbers of `s` that are closed, each counted as its value plus one,
/// added up.
pub open spec fn closed_numbers(s: Seq<char>) -> nat
    decreases s.len(),
{
    if s.len() == 0 {
        0
    } else if ends_number(s.last()) && number_open(s.drop_last()) {
        closed_numbers(s.drop_last()) + trailing_number(s.drop_last()) + 1
    } else {
        closed_numbers(s.drop_last())
    }
}

/// Each number of a duration text counted as its value plus one, added
/// up. A span adds at most this many years (the largest unit humantime
/// knows, 31 557 600 seconds) to the duration, fraction and carried
/// nanoseconds included.
pub open spec fn duration_units(s: Seq<char>) -> nat {
    closed_numbers(s) + if number_open(s) {
        trailing_number(s) + 1
    } else {
        0
    }
}

/// The most units a duration text may count. humantime adds the spans of a
/// text with checked arithmetic but builds each `Duration` unchecked, which
/// panics when the seconds reach `u64::MAX` with a full second of
/// nanoseconds left over. With at most this many units the seconds stay
/// below 500 000 000 000 years, under `u64::MAX`.
pub const MAX_DURATION_UNITS: u64 = 500_000_000_000;

proof fn lemma_units_grow_by_one(t: Seq<char>, c: char)
    ensures
        duration_units(t) <= duration_units(t.push(c)),
        !number_open(t) ==> trailing_number(t) == 0,
    decreases t.len(),
{
    let u = t.push(c);
    assert(u.drop_last() =~= t);
    if t.len() > 0 {
        lemma_units_grow_by_one(t.drop_last(), t.last());
        assert(t.drop_last().push(t.last()) =~= t);
    }
}

proof fn lemma_units_grow(s: Seq<char>, i: int, j: int)
    requires
        0 <= i <= j <= s.len(),
    ensures
        duration_units(s.take(i)) <= duration_units(s.take(j)),
    decreases j - i,
{
    if i < j {
        lemma_units_grow(s, i, j - 1);
        lemma_units_grow_by_one(s.take(j - 1), s[j - 1]);
        assert(s.take(j - 1).push(s[j - 1]) =~= s.take(j));
    }
}

/// Whether the numbers of a duration text count at most
/// [`MAX_DURATION_UNITS`] units.
pub fn duration_units_within(text: &str) -> (r: bool)
    ensures
        r == (duration_units(text@) <= MAX_DURATION_UNITS),
{
    let n = text.unicode_len();
    let mut closed: u64 = 0;
    let mut cur: u64 = 0;
    let mut open = false;
    let mut i: usize = 0;
    while i < n
        invariant
            n == text@.len(),
            i <= n,
            closed == closed_numbers(text@.take(i as int)),
            cur == trailing_number(text@.take(i as int)),
            open == number_open(text@.take(i as int)),
            duration_units(text@.take(i as int)) <= MAX_DURATION_UNITS,
            closed <= MAX_DURATION_UNITS,
            cur <= MAX_DURATION_UNITS,
        decreases n - i,
    {
        let c = text.get_char(i);
        let ghost t = text@.take(i as int);
        proof {
            assert(text@.take(i + 1) =~= t.push(c));
            assert(t.push(c).drop_last() =~= t);
            lemma_units_grow_by_one(t, c);
        }
        if '0' <= c && c <= '9' {
            cur = cur * 10 + (c as u32 - 48) as u64;
            open = true;
        } else if ('a' <= c && c <= 'z') || ('A' <= c && c <= 'Z') || c == '\u{b5}' || c == '.' {
            if open {
                closed = closed + cur + 1;
            }
            cur = 0;
            open = false;
        }
        let total: u64 = if open {
            closed + cur + 1
        } else {
            closed
        };
        if total > MAX_DURATION_UNITS {
            proof {
                lemma_units_grow(text@, i + 1, n as int);
                assert(text@.take(n as int) =~= text@);
            }
            return false;
        }
        i = i + 1;
    }
    proof {
        assert(text@.take(n as int) =~= text@);
    }
    true
}

/// `humantime::parse_duration`: the duration that `text` writes (such as
/// `10s` or `1h 30m`), or `None` where humantime reports an error. The
/// contract only names the result. Texts whose numbers count more than
/// [`MAX_DURATION_UNITS`] units are left out: on some of them humantime
/// panics.
#[verifier::external_body]
fn parse_duration(text: &str) -> (r: Option<Interval>)
    requires
        duration_units(text@) <= MAX_DURATION_UNITS,
    ensures
        interval_pair(r) == parsed_duration(text@),
{
    match humantime::parse_duration(text) {
        Ok(d) => Some(Interval { secs: d.as_secs(), nanos: d.subsec_nanos() }),
        Err(_) => None,
    }
}

/// A parsed duration, or the setting it was read for when it did not parse.
pub fn check_duration(parsed: Option<Interval>, s: Setting) -> (r: Result<Interval, Setting>)
    ensures
        r == (match parsed {
            Some(d) => Ok(d),
            None => Err(s),
        }),
{
    match parsed {
        Some(d) => Ok(d),
        None => Err(s),
    }
}

pub open spec fn duration_setting_spec(config: Map<Seq<char>, String>, s: Setting) -> Result<
    Interval,
    Setting,
> {
    if duration_units(setting_text(config, s)) > MAX_DURATION_UNITS {
        Err(s)
    } else {
        match parsed_duration(setting_text(config, s)) {
            Some((secs, nanos)) => Ok(Interval { secs, nanos }),
            None => Err(s),
        }
    }
}

pub open spec fn i32_setting_spec(config: Map<Seq<char>, String>, s: Setting) -> Result<i32, Setting> {
    match decimal_in_range(setting_text(config, s), true, i32::MIN as int, i32::MAX as int) {
        Some(v) => Ok(v as i32),
        None => Err(s),
    }
}

pub open spec fn u32_setting_spec(config: Map<Seq<char>, String>, s: Setting) -> Result<u32, Setting> {
    match decimal_in_range(setting_text(config, s), false, 0, u32::MAX as int) {
        Some(v) => Ok(v as u32),
        None => Err(s),
    }
}

pub open spec fn usize_setting_spec(config: Map<Seq<char>, String>, s: Setting) -> Result<
    usize,
    Setting,
> {
    match decimal_in_range(setting_text(config, s), false, 0, usize::MAX as int) {
        Some(v) => Ok(v as usize),
        None => Err(s),
    }
}

/// Setting `s` read as a duration; a text whose numbers count more than
/// [`MAX_DURATION_UNITS`] units does not read.
pub fn duration_setting(config: &StrMap<String>, s: Setting) -> (r: Result<Interval, Setting>)
    requires
        config.wf(),
    ensures
        r == duration_setting_spec(config@, s),
{
    let text = setting_text_of(config, s);
    if !duration_units_within(text.as_str()) {
        return Err(s);
    }
    let parsed = parse_duration(text.as_str());
    check_duration(parsed, s)
}

/// Setting `s` read as an `i32`.
pub fn i32_setting(config: &StrMap<String>, s: Setting) -> (r: Result<i32, Setting>)
    requires
        config.wf(),
    ensures
        r == i32_setting_spec(config@, s),
{
    let text = setting_text_of(config, s);
    match parse_i32(text.as_str()) {
        Some(v) => Ok(v),
        None => Err(s),
    }
}

/// Setting `s` read as a `u32`.
pub fn u32_setting(config: &StrMap<String>, s: Setting) -> (r: Result<u32, Setting>)
    requires
        config.wf(),
    ensures
        r == u32_setting_spec(config@, s),
{
    let text = setting_text_of(config, s);
    match parse_u32(text.as_str()) {
        Some(v) => Ok(v),
        None => Err(s),
    }
}

/// Setting `s` read as a `usize`.
pub fn usize_setting(config: &StrMap<String>, s: Setting) -> (r: Result<usize, Setting>)
    requires
        config.wf(),
    ensures
        r == usize_setting_spec(config@, s),
{
    let text = setting_text_of(config, s);
    match parse_usize(text.as_str()) {
        Some(v) => Ok(v),
        None => Err(s),
    }
}

/// The quadrant settings of `config`, read in the order of the fields; the
/// first setting that does not read is the error.
pub open spec fn quadrant_settings_spec(c: Map<Seq<char>, String>) -> Result<QuadrantSettings, Setting> {
    match duration_setting_spec(c, Setting::SendInterval) {
        Err(e) => Err(e),
        Ok(send_interval) => match duration_setting_spec(c, Setting::SpreadInterval) {
            Err(e) => Err(e),
            Ok(spread_interval) => match duration_setting_spec(c, Setting::AdvertiseInterval) {
                Err(e) => Err(e),
                Ok(advertise_interval) => match i32_setting_spec(c, Setting::SendPackets) {
                    Err(e) => Err(e),
                    Ok(send_packets) => match i32_setting_spec(c, Setting::SpreadPriority) {
                        Err(e) => Err(e),
                        Ok(spread_priority) => match i32_setting_spec(
                            c,
                            Setting::SelfForwardPriority,
                        ) {
                            Err(e) => Err(e),
                            Ok(self_forward_priority) => match i32_setting_spec(
                                c,
                                Setting::AdvertisePriority,
                            ) {
                                Err(e) => Err(e),
                                Ok(advertise_priority) => match u32_setting_spec(
                                    c,
                                    Setting::RandomDelayMax,
                                ) {
                                    Err(e) => Err(e),
                                    Ok(random_delay_max) => Ok(
                                        QuadrantSettings {
                                            send_interval,
                                            spread_interval,
                                            advertise_interval,
                                            send_packets,
                                            spread_priority,
                                            self_forward_priority,
                                            advertise_priority,
                                            random_delay_max,
                                        },
                                    ),
                                },
                            },
                        },
                    },
                },
            },
        },
    }
}

impl QuadrantSettings {
    /// Reads the settings of the quadrant strategy from its configuration.
    pub fn from_config(config: &StrMap<String>) -> (r: Result<QuadrantSettings, Setting>)
        requires
            config.wf(),
        ensures
            r == quadrant_settings_spec(config@),
    {
        let send_interval = match duration_setting(config, Setting::SendInterval) {
            Ok(v) => v,
            Err(e) => return Err(e),
        };
        let spread_interval = match duration_setting(config, Setting::SpreadInterval) {
            Ok(v) => v,
            Err(e) => return Err(e),
        };
        let advertise_interval = match duration_setting(config, Setting::AdvertiseInterval) {
            Ok(v) => v,
            Err(e) => return Err(e),
        };
        let send_packets = match i32_setting(config, Setting::SendPackets) {
            Ok(v) => v,
            Err(e) => return Err(e),
        };
        let spread_priority = match i32_setting(config, Setting::SpreadPriority) {
            Ok(v) => v,
            Err(e) => return Err(e),
        };
        let self_forward_priority = match i32_setting(config, Setting::SelfForwardPriority) {
            Ok(v) => v,
            Err(e) => return Err(e),
        };
        let advertise_priority = match i32_setting(config, Setting::AdvertisePriority) {
            Ok(v) => v,
            Err(e) => return Err(e),
        };
        let random_delay_max = match u32_setting(config, Setting::RandomDelayMax) {
            Ok(v) => v,
            Err(e) => return Err(e),
        };
        Ok(
            QuadrantSettings {
                send_interval,
                spread_interval,
                advertise_interval,
                send_packets,
                spread_priority,
                self_forward_priority,
                advertise_priority,
                random_delay_max,
            },
        )
    }
}

/// The settings of the spray and wait strategy.
pub struct SaWSettings {
    pub send_interval: Interval,
    pub send_packets: i32,
    /// The copies a bundle of this node may be handed out.
    pub max_copies: usize,
    /// Seconds within which a peer counts as present.
    pub max_peer_age: i32,
    pub random_delay_max: u32,
    pub advertise_priority: i32,
}

pub open spec fn saw_settings_spec(c: Map<Seq<char>, String>) -> Result<SaWSettings, Setting> {
    match duration_setting_spec(c, Setting::SendInterval) {
        Err(e) => Err(e),
        Ok(send_interval) => match i32_setting_spec(c, Setting::SendPackets) {
            Err(e) => Err(e),
            Ok(send_packets) => match usize_setting_spec(c, Setting::MaxCopies) {
                Err(e) => Err(e),
                Ok(max_copies) => match i32_setting_spec(c, Setting::MaxPeerAge) {
                    Err(e) => Err(e),
                    Ok(max_peer_age) => match u32_setting_spec(c, Setting::RandomDelayMax) {
                        Err(e) => Err(e),
                        Ok(random_delay_max) => match i32_setting_spec(
                            c,
                            Setting::AdvertisePriority,
                        ) {
                            Err(e) => Err(e),
                            Ok(advertise_priority) => Ok(
                                SaWSettings {
                                    send_interval,
                                    send_packets,
                                    max_copies,
                                    max_peer_age,
                                    random_delay_max,
                                    advertise_priority,
                                },
                            ),
                        },
                    },
                },
            },
        },
    }
}

impl SaWSettings {
    /// Reads the settings of the spray and wait strategy from its
    /// configuration, in the order of the fields.
    pub fn from_config(config: &StrMap<String>) -> (r: Result<SaWSettings, Setting>)
        requires
            config.wf(),
        ensures
            r == saw_settings_spec(config@),
    {
        let send_interval = match duration_setting(config, Setting::SendInterval) {
            Ok(v) => v,
            Err(e) => return Err(e),
        };
        let send_packets = match i32_setting(config, Setting::SendPackets) {
            Ok(v) => v,
            Err(e) => return Err(e),
        };
        let max_copies = match usize_setting(config, Setting::MaxCopies) {
            Ok(v) => v,
            Err(e) => return Err(e),
        };
        let max_peer_age = match i32_setting(config, Setting::MaxPeerAge) {
            Ok(v) => v,
            Err(e) => return Err(e),
        };
        let random_delay_max = match u32_setting(config, Setting::RandomDelayMax) {
            Ok(v) => v,
            Err(e) => return Err(e),
        };
        let advertise_priority = match i32_setting(config, Setting::AdvertisePriority) {
            Ok(v) => v,
            Err(e) => return Err(e),
        };
        Ok(
            SaWSettings {
                send_interval,
                send_packets,
                max_copies,
                max_peer_age,
                random_delay_max,
                advertise_priority,
            },
        )
    }
}

/// The settings of the random strategy.
pub struct RandomSettings {
    pub send_interval: Interval,
    pub send_packets: i32,
    pub min_score: i32,
    pub max_score: i32,
    pub max_peer_age: i32,
    pub random_delay_max: u32,
}

pub open spec fn random_settings_spec(c: Map<Seq<char>, String>) -> Result<RandomSettings, Setting> {
    match duration_setting_spec(c, Setting::SendInterval) {
        Err(e) => Err(e),
        Ok(send_interval) => match i32_setting_spec(c, Setting::SendPackets) {
            Err(e) => Err(e),
            Ok(send_packets) => match i32_setting_spec(c, Setting::MinScore) {
                Err(e) => Err(e),
                Ok(min_score) => match i32_setting_spec(c, Setting::MaxScore) {
                    Err(e) => Err(e),
                    Ok(max_score) => match i32_setting_spec(c, Setting::MaxPeerAge) {
                        Err(e) => Err(e),
                        Ok(max_peer_age) => match u32_setting_spec(c, Setting::RandomDelayMax) {
                            Err(e) => Err(e),
                            Ok(random_delay_max) => Ok(
                                RandomSettings {
                                    send_interval,
                                    send_packets,
                                    min_score,
                                    max_score,
                                    max_peer_age,
                                    random_delay_max,
                                },
                            ),
                        },
                    },
                },
            },
        },
    }
}

/// The random strategy reads its lowest score from `MIN_SCORE` and its
/// score range from `MAX_SCORE`: a configured value that reads as an `i32`
/// becomes that field.
pub proof fn law_random_scores_come_from_their_keys(c: Map<Seq<char>, String>)
    requires
        random_settings_spec(c) is Ok,
    ensures
        c.contains_key("MIN_SCORE"@) ==> decimal_in_range(
            c["MIN_SCORE"@]@,
            true,
            i32::MIN as int,
            i32::MAX as int,
        ) == Some(random_settings_spec(c)->Ok_0.min_score as int),
        c.contains_key("MAX_SCORE"@) ==> decimal_in_range(
            c["MAX_SCORE"@]@,
            true,
            i32::MIN as int,
            i32::MAX as int,
        ) == Some(random_settings_spec(c)->Ok_0.max_score as int),
{
    law_setting_keys_and_defaults();
}

impl RandomSettings {
    /// Reads the settings of the random strategy from its configuration, in
    /// the order of the fields.
    pub fn from_config(config: &StrMap<String>) -> (r: Result<RandomSettings, Setting>)
        requires
            config.wf(),
        ensures
            r == random_settings_spec(config@),
    {
        let send_interval = match duration_setting(config, Setting::SendInterval) {
            Ok(v) => v,
            Err(e) => return Err(e),
        };
        let send_packets = match i32_setting(config, Setting::SendPackets) {
            Ok(v) => v,
            Err(e) => return Err(e),
        };
        let min_score = match i32_setting(config, Setting::MinScore) {
            Ok(v) => v,
            Err(e) => return Err(e),
        };
        let max_score = match i32_setting(config, Setting::MaxScore) {
            Ok(v) => v,
            Err(e) => return Err(e),
        };
        let max_peer_age = match i32_setting(config, Setting::MaxPeerAge) {
            Ok(v) => v,
            Err(e) => return Err(e),
        };
        let random_delay_max = match u32_setting(config, Setting::RandomDelayMax) {
            Ok(v) => v,
            Err(e) => return Err(e),
        };
        Ok(
            RandomSettings {
                send_interval,
                send_packets,
                min_score,
                max_score,
                max_peer_age,
                random_delay_max,
            },
        )
    }
}

/// The routing strategies there are.
#[derive(PartialEq, Eq, Structural, Clone, Copy, Debug)]
pub enum StrategyKind {
    Quadrant,
    Random,
    SprayAndWait,
}

pub open spec fn strategy_kind_spec(name: Seq<char>) -> Option<StrategyKind> {
    if name == "quadrant"@ {
        Some(StrategyKind::Quadrant)
    } else if name == "random"@ {
        Some(StrategyKind::Random)
    } else if name == "spray_and_wait"@ {
        Some(StrategyKind::SprayAndWait)
    } else {
        None
    }
}

/// The strategy named `name`; `None` for an unknown strategy.
pub fn strategy_kind(name: &str) -> (r: Option<StrategyKind>)
    ensures
        r == strategy_kind_spec(name@),
{
    if same_text(name, "quadrant") {
        Some(StrategyKind::Quadrant)
    } else if same_text(name, "random") {
        Some(StrategyKind::Random)
    } else if same_text(name, "spray_and_wait") {
        Some(StrategyKind::SprayAndWait)
    } else {
        None
    }
}

} // verus!
