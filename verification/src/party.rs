//! Coding-time parties: every ten minutes of coding that WakaTime reports
//! today earn one celebration.
use vstd::prelude::*;
use crate::json::Json;
use crate::text::{
    chars_of, decimal, find_char, first_index, is_digit, is_first_index, lemma_decimal_digits,
    lemma_first_index_unique, lemma_parse_decimal, parse_u32, parse_u32_range, trim, trim_range,
};

verus! {

/// Length of one party interval, in seconds.
pub const PARTY_INTERVAL: u32 = 600;

/// What the party check remembers between two checks.
#[derive(Clone, Copy, Debug)]
pub struct PartyState {
    /// The coding time of the last check, in seconds.
    pub last_known_seconds: u32,
    /// The start, in seconds, of the interval of the last party.
    pub last_party_threshold: u32,
}

impl PartyState {
    /// The state before the first check.
    pub fn new() -> (s: PartyState)
        ensures
            s.last_known_seconds == 0,
            s.last_party_threshold == 0,
    {
        PartyState { last_known_seconds: 0, last_party_threshold: 0 }
    }
}

// ---------------------------------------------------------------------
// Reading a coding time written as text ("1h 2m 3s")
// ---------------------------------------------------------------------

/// The value of a part of the text, or 0 where it is not a `u32` numeral.
pub open spec fn part_value(part: Seq<char>) -> nat {
    match parse_u32(trim(part)) {
        Some(v) => v as nat,
        None => 0,
    }
}

/// Where the minutes begin: after the first `h`, if there is one.
pub open spec fn minutes_start(t: Seq<char>) -> int {
    match find_char(t, 'h') {
        Some(h) => h + 1,
        None => 0,
    }
}

/// Where the seconds begin: after the first `m`, or else after the first
/// `h`, if there is one.
pub open spec fn seconds_start(t: Seq<char>) -> int {
    match find_char(t, 'm') {
        Some(m) => m + 1,
        None => minutes_start(t),
    }
}

/// The hours: the text before the first `h`.
pub open spec fn text_hours(t: Seq<char>) -> nat {
    match find_char(t, 'h') {
        Some(h) => part_value(t.subrange(0, h)),
        None => 0,
    }
}

/// The minutes: the text from `minutes_start` to the first `m`.
pub open spec fn text_minutes(t: Seq<char>) -> nat {
    match find_char(t, 'm') {
        Some(m) => if minutes_start(t) <= m {
            part_value(t.subrange(minutes_start(t), m))
        } else {
            0
        },
        None => 0,
    }
}

/// The seconds: the text from `seconds_start` to the first `s`.
pub open spec fn text_seconds(t: Seq<char>) -> nat {
    match find_char(t, 's') {
        Some(s) => if seconds_start(t) <= s {
            part_value(t.subrange(seconds_start(t), s))
        } else {
            0
        },
        None => 0,
    }
}

/// The coding time that the text states, in seconds.
pub open spec fn text_total_seconds(t: Seq<char>) -> nat {
    text_hours(t) * 3600 + text_minutes(t) * 60 + text_seconds(t)
}

/// The reading of the text fails: a part to read would end before it
/// begins, or the total does not fit in a `u32`.
pub open spec fn time_text_fails(t: Seq<char>) -> bool {
    ||| (find_char(t, 'm') matches Some(m) && minutes_start(t) > m)
    ||| (find_char(t, 's') matches Some(s) && seconds_start(t) > s)
    ||| text_total_seconds(t) > u32::MAX
}

/// The value of `cs[lo..hi]`, trimmed, as a `u32` numeral, or 0.
fn part_value_exec(cs: &Vec<char>, lo: usize, hi: usize) -> (r: u32)
    requires
        lo <= hi <= cs@.len(),
    ensures
        r == part_value(cs@.subrange(lo as int, hi as int)),
{
    let (a, b) = trim_range(cs, lo, hi);
    match parse_u32_range(cs, a, b) {
        Some(v) => v,
        None => 0,
    }
}

/// The coding time that `text` states, or nothing where reading it fails.
pub fn time_text_seconds_checked(text: &str) -> (r: Option<u32>)
    ensures
        r == if time_text_fails(text@) {
            None::<u32>
        } else {
            Some(text_total_seconds(text@) as u32)
        },
{
    let cs = chars_of(text);
    let h_pos = first_index(&cs, 'h');
    let m_pos = first_index(&cs, 'm');
    let s_pos = first_index(&cs, 's');
    let hours: u32 = match h_pos {
        Some(h) => part_value_exec(&cs, 0, h),
        None => 0,
    };
    let m_start: usize = match h_pos {
        Some(h) => h + 1,
        None => 0,
    };
    let minutes: u32 = match m_pos {
        Some(m) => {
            if m_start > m {
                return None;
            }
            part_value_exec(&cs, m_start, m)
        },
        None => 0,
    };
    let s_start: usize = match m_pos {
        Some(m) => m + 1,
        None => m_start,
    };
    let seconds: u32 = match s_pos {
        Some(s) => {
            if s_start > s {
                return None;
            }
            part_value_exec(&cs, s_start, s)
        },
        None => 0,
    };
    let total: u64 = hours as u64 * 3600 + minutes as u64 * 60 + seconds as u64;
    if total > 0xffff_ffff {
        return None;
    }
    Some(total as u32)
}

/// The coding time that a text such as `"1h 2m 3s"` states, in seconds:
/// the hours before the first `h`, the minutes between it and the first
/// `m`, the seconds between that and the first `s`; a part that is not a
/// number counts as 0.
pub fn parse_time_text_to_seconds(text: &str) -> (r: u32)
    requires
        !time_text_fails(text@),
    ensures
        r == text_total_seconds(text@),
{
    match time_text_seconds_checked(text) {
        Some(v) => v,
        None => 0,
    }
}

/// The text that `format!("{}h {}m {}s", h, m, s)` writes.
pub open spec fn hms_text(h: nat, m: nat, s: nat) -> Seq<char> {
    decimal(h) + seq!['h', ' '] + decimal(m) + seq!['m', ' '] + decimal(s) + seq!['s']
}

/// A time written as hours, minutes and seconds reads back as its total
/// in seconds, wherever that total fits in a `u32`.
pub proof fn lemma_hms_text_reads_back(h: nat, m: nat, s: nat)
    requires
        h * 3600 + m * 60 + s <= u32::MAX,
    ensures
        !time_text_fails(hms_text(h, m, s)),
        text_total_seconds(hms_text(h, m, s)) == h * 3600 + m * 60 + s,
{
    lemma_decimal_digits(h);
    lemma_decimal_digits(m);
    lemma_decimal_digits(s);
    lemma_parse_decimal(h);
    lemma_parse_decimal(m);
    lemma_parse_decimal(s);
    let dh = decimal(h);
    let dm = decimal(m);
    let ds = decimal(s);
    let t = hms_text(h, m, s);
    let a = dh.len() as int;
    let b = a + 2 + dm.len();
    let c = b + 2 + ds.len();
    assert(t.len() == c + 1);
    assert forall|k: int| 0 <= k < a implies t[k] == dh[k] && is_digit(#[trigger] t[k]) by {
        assert(is_digit(dh[k]));
    }
    assert forall|k: int| a + 2 <= k < b implies t[k] == dm[k - a - 2] && is_digit(
        #[trigger] t[k],
    ) by {
        assert(is_digit(dm[k - a - 2]));
    }
    assert forall|k: int| b + 2 <= k < c implies t[k] == ds[k - b - 2] && is_digit(
        #[trigger] t[k],
    ) by {
        assert(is_digit(ds[k - b - 2]));
    }
    assert(t[a] == 'h' && t[a + 1] == ' ' && t[b] == 'm' && t[b + 1] == ' ' && t[c] == 's');
    assert(is_first_index(t, 'h', a)) by {
        assert forall|k: int| 0 <= k < a implies t[k] != 'h' by {
            assert(is_digit(t[k]));
        }
    }
    assert(is_first_index(t, 'm', b)) by {
        assert forall|k: int| 0 <= k < b implies t[k] != 'm' by {
            if k < a || k >= a + 2 {
                assert(is_digit(t[k]));
            }
        }
    }
    assert(is_first_index(t, 's', c)) by {
        assert forall|k: int| 0 <= k < c implies t[k] != 's' by {
            if k < a || (a + 2 <= k < b) || k >= b + 2 {
                assert(is_digit(t[k]));
            }
        }
    }
    lemma_first_index_unique(t, 'h', a);
    lemma_first_index_unique(t, 'm', b);
    lemma_first_index_unique(t, 's', c);
    assert(t.subrange(0, a) =~= dh);
    assert(t.subrange(a + 1, b) =~= seq![' '] + dm);
    assert(t.subrange(b + 1, c) =~= seq![' '] + ds);
}

/// A time written as hours and seconds, with no minutes, reads back as its
/// total in seconds: the seconds are read between the hours and the `s`.
pub proof fn lemma_hs_text_reads_back(h: nat, s: nat)
    requires
        h * 3600 + s <= u32::MAX,
    ensures
        !time_text_fails(decimal(h) + seq!['h', ' '] + decimal(s) + seq!['s']),
        text_total_seconds(decimal(h) + seq!['h', ' '] + decimal(s) + seq!['s']) == h * 3600 + s,
{
    lemma_decimal_digits(h);
    lemma_decimal_digits(s);
    lemma_parse_decimal(h);
    lemma_parse_decimal(s);
    let dh = decimal(h);
    let ds = decimal(s);
    let t = dh + seq!['h', ' '] + ds + seq!['s'];
    let a = dh.len() as int;
    let c = a + 2 + ds.len();
    assert(t.len() == c + 1);
    assert forall|k: int| 0 <= k < a implies t[k] == dh[k] && is_digit(#[trigger] t[k]) by {
        assert(is_digit(dh[k]));
    }
    assert forall|k: int| a + 2 <= k < c implies t[k] == ds[k - a - 2] && is_digit(
        #[trigger] t[k],
    ) by {
        assert(is_digit(ds[k - a - 2]));
    }
    assert(t[a] == 'h' && t[a + 1] == ' ' && t[c] == 's');
    assert(is_first_index(t, 'h', a)) by {
        assert forall|k: int| 0 <= k < a implies t[k] != 'h' by {
            assert(is_digit(t[k]));
        }
    }
    assert(is_first_index(t, 's', c)) by {
        assert forall|k: int| 0 <= k < c implies t[k] != 's' by {
            if k < a || k >= a + 2 {
                assert(is_digit(t[k]));
            }
        }
    }
    assert(!t.contains('m')) by {
        if t.contains('m') {
            let k = choose|k: int| 0 <= k < t.len() && t[k] == 'm';
            if k < a || (a + 2 <= k < c) {
                assert(is_digit(t[k]));
            }
        }
    }
    lemma_first_index_unique(t, 'h', a);
    lemma_first_index_unique(t, 's', c);
    assert(t.subrange(0, a) =~= dh);
    assert(t.subrange(a + 1, c) =~= seq![' '] + ds);
}

/// A time written as minutes and seconds reads back as its total in
/// seconds.
pub proof fn lemma_ms_text_reads_back(m: nat, s: nat)
    requires
        m * 60 + s <= u32::MAX,
    ensures
        !time_text_fails(decimal(m) + seq!['m', ' '] + decimal(s) + seq!['s']),
        text_total_seconds(decimal(m) + seq!['m', ' '] + decimal(s) + seq!['s']) == m * 60 + s,
{
    lemma_decimal_digits(m);
    lemma_decimal_digits(s);
    lemma_parse_decimal(m);
    lemma_parse_decimal(s);
    let dm = decimal(m);
    let ds = decimal(s);
    let t = dm + seq!['m', ' '] + ds + seq!['s'];
    let b = dm.len() as int;
    let c = b + 2 + ds.len();
    assert(t.len() == c + 1);
    assert forall|k: int| 0 <= k < b implies t[k] == dm[k] && is_digit(#[trigger] t[k]) by {
        assert(is_digit(dm[k]));
    }
    assert forall|k: int| b + 2 <= k < c implies t[k] == ds[k - b - 2] && is_digit(
        #[trigger] t[k],
    ) by {
        assert(is_digit(ds[k - b - 2]));
    }
    assert(t[b] == 'm' && t[b + 1] == ' ' && t[c] == 's');
    assert(is_first_index(t, 'm', b)) by {
        assert forall|k: int| 0 <= k < b implies t[k] != 'm' by {
            assert(is_digit(t[k]));
        }
    }
    assert(is_first_index(t, 's', c)) by {
        assert forall|k: int| 0 <= k < c implies t[k] != 's' by {
            if k < b || k >= b + 2 {
                assert(is_digit(t[k]));
            }
        }
    }
    assert(!t.contains('h')) by {
        if t.contains('h') {
            let k = choose|k: int| 0 <= k < t.len() && t[k] == 'h';
            if k < b || (b + 2 <= k < c) {
                assert(is_digit(t[k]));
            }
        }
    }
    lemma_first_index_unique(t, 'm', b);
    lemma_first_index_unique(t, 's', c);
    assert(t.subrange(0, b) =~= dm);
    assert(t.subrange(b + 1, c) =~= seq![' '] + ds);
}

/// A time written as seconds alone reads back as its total in seconds.
pub proof fn lemma_seconds_text_reads_back(s: nat)
    requires
        s <= u32::MAX,
    ensures
        !time_text_fails(decimal(s) + seq!['s']),
        text_total_seconds(decimal(s) + seq!['s']) == s,
{
    lemma_decimal_digits(s);
    lemma_parse_decimal(s);
    let ds = decimal(s);
    let t = ds + seq!['s'];
    let c = ds.len() as int;
    assert forall|k: int| 0 <= k < c implies t[k] == ds[k] && is_digit(#[trigger] t[k]) by {
        assert(is_digit(ds[k]));
    }
    assert(is_first_index(t, 's', c)) by {
        assert forall|k: int| 0 <= k < c implies t[k] != 's' by {
            assert(is_digit(t[k]));
        }
    }
    assert(!t.contains('h')) by {
        if t.contains('h') {
            let k = choose|k: int| 0 <= k < t.len() && t[k] == 'h';
            if k < c {
                assert(is_digit(t[k]));
            }
        }
    }
    assert(!t.contains('m')) by {
        if t.contains('m') {
            let k = choose|k: int| 0 <= k < t.len() && t[k] == 'm';
            if k < c {
                assert(is_digit(t[k]));
            }
        }
    }
    lemma_first_index_unique(t, 's', c);
    assert(t.subrange(0, c) =~= ds);
}

/// A time written as hours alone reads back as its total in seconds.
pub proof fn lemma_hours_text_reads_back(h: nat)
    requires
        h * 3600 <= u32::MAX,
    ensures
        !time_text_fails(decimal(h) + seq!['h']),
        text_total_seconds(decimal(h) + seq!['h']) == h * 3600,
{
    lemma_decimal_digits(h);
    lemma_parse_decimal(h);
    let dh = decimal(h);
    let t = dh + seq!['h'];
    let a = dh.len() as int;
    assert forall|k: int| 0 <= k < a implies t[k] == dh[k] && is_digit(#[trigger] t[k]) by {
        assert(is_digit(dh[k]));
    }
    assert(is_first_index(t, 'h', a)) by {
        assert forall|k: int| 0 <= k < a implies t[k] != 'h' by {
            assert(is_digit(t[k]));
        }
    }
    lemma_first_index_unique(t, 'h', a);
    assert(!t.contains('m')) by {
        if t.contains('m') {
            let k = choose|k: int| 0 <= k < t.len() && t[k] == 'm';
            if k < a {
                assert(is_digit(t[k]));
            }
        }
    }
    assert(!t.contains('s')) by {
        if t.contains('s') {
            let k = choose|k: int| 0 <= k < t.len() && t[k] == 's';
            if k < a {
                assert(is_digit(t[k]));
            }
        }
    }
    assert(t.subrange(0, a) =~= dh);
}

/// A time written as minutes alone reads back as its total in seconds.
pub proof fn lemma_minutes_text_reads_back(m: nat)
    requires
        m * 60 <= u32::MAX,
    ensures
        !time_text_fails(decimal(m) + seq!['m']),
        text_total_seconds(decimal(m) + seq!['m']) == m * 60,
{
    lemma_decimal_digits(m);
    lemma_parse_decimal(m);
    let dm = decimal(m);
    let t = dm + seq!['m'];
    let b = dm.len() as int;
    assert forall|k: int| 0 <= k < b implies t[k] == dm[k] && is_digit(#[trigger] t[k]) by {
        assert(is_digit(dm[k]));
    }
    assert(is_first_index(t, 'm', b)) by {
        assert forall|k: int| 0 <= k < b implies t[k] != 'm' by {
            assert(is_digit(t[k]));
        }
    }
    lemma_first_index_unique(t, 'm', b);
    assert(!t.contains('h')) by {
        if t.contains('h') {
            let k = choose|k: int| 0 <= k < t.len() && t[k] == 'h';
            if k < b {
                assert(is_digit(t[k]));
            }
        }
    }
    assert(!t.contains('s')) by {
        if t.contains('s') {
            let k = choose|k: int| 0 <= k < t.len() && t[k] == 's';
            if k < b {
                assert(is_digit(t[k]));
            }
        }
    }
    assert(t.subrange(0, b) =~= dm);
}

// ---------------------------------------------------------------------
// Reading today's coding time from WakaTime's report
// ---------------------------------------------------------------------

/// The coding time that a WakaTime report for today states: its
/// `total_seconds` (as an integer, cut to 32 bits), else the
/// `total_seconds` of `data.grand_total`, else its `text`; 0 where the
/// member it settles on holds no number. Nothing where reading the text
/// fails.
pub open spec fn report_seconds(report: Json) -> Option<u32> {
    match report.field("total_seconds"@) {
        Some(total) => Some(
            match total.u64_value() {
                Some(n) => (n % 0x1_0000_0000) as u32,
                None => 0u32,
            },
        ),
        None => match report.field("data"@) {
            Some(data) => match data.field(
                "grand_total"@,
            ) {
                Some(grand) => Some(
                    match grand.field(
                        "total_seconds"@,
                    ) {
                        Some(Json::Number(n)) => n.as_u32_lossy,
                        _ => 0u32,
                    },
                ),
                None => Some(0u32),
            },
            None => match report.field("text"@) {
                Some(text) => {
                    let t = match text.text_value() {
                        Some(t) => t,
                        None => Seq::<char>::empty(),
                    };
                    if time_text_fails(t) {
                        None
                    } else {
                        Some(text_total_seconds(t) as u32)
                    }
                },
                None => Some(0u32),
            },
        },
    }
}

/// The coding time that today's WakaTime report states, in seconds, or
/// nothing where its text cannot be read.
pub fn coding_seconds(report: &Json) -> (r: Option<u32>)
    ensures
        r == report_seconds(*report),
{
    match report.get("total_seconds") {
        Some(total) => {
            return Some(
                match total.as_u64() {
                    Some(n) => (n % 0x1_0000_0000) as u32,
                    None => 0,
                },
            );
        },
        None => {},
    }
    match report.get("data") {
        Some(data) => {
            match data.get("grand_total") {
                Some(grand) => {
                    return Some(
                        match grand.get("total_seconds") {
                            Some(Json::Number(n)) => n.as_u32_lossy,
                            _ => 0,
                        },
                    );
                },
                None => {
                    return Some(0);
                },
            }
        },
        None => {},
    }
    match report.get("text") {
        Some(text) => {
            let t = match text.as_text() {
                Some(t) => t,
                None => "",
            };
            proof {
                reveal_strlit("");
            }
            time_text_seconds_checked(t)
        },
        None => Some(0),
    }
}

// ---------------------------------------------------------------------
// The party check
// ---------------------------------------------------------------------

/// A party is due: the coding time has entered an interval beyond the one
/// of the last party, and it has grown since the last check.
pub open spec fn party_due(state: PartyState, seconds: u32) -> bool {
    &&& seconds / 600 > state.last_party_threshold / 600
    &&& seconds > state.last_known_seconds
}

/// The state after a check at `seconds`.
pub open spec fn state_after(state: PartyState, seconds: u32) -> PartyState {
    if party_due(state, seconds) {
        PartyState {
            last_known_seconds: seconds,
            last_party_threshold: ((seconds / 600) * 600) as u32,
        }
    } else {
        PartyState { last_known_seconds: seconds, ..state }
    }
}

/// What a party announces.
#[derive(Clone, Copy, Debug, PartialEq, Eq)]
pub struct Party {
    /// Whole minutes coded today.
    pub minutes_coded: u32,
    /// Whole intervals coded today.
    pub intervals_completed: u32,
}

/// What a WakaTime report for today, asked of the CLI, came to.
pub enum TodayReport {
    /// The CLI could not be run; its error is passed on unchanged.
    Unavailable(String),
    /// The CLI's output is not JSON; the parser's message.
    Malformed(String),
    /// The report.
    Report(Json),
}

/// The check cannot be made: the report's text cannot be read.
pub open spec fn party_check_fails(today: TodayReport) -> bool {
    today matches TodayReport::Report(report) && report_seconds(report) is None
}

/// Whether the check of `today` cannot be made.
pub fn party_check_impossible(today: &TodayReport) -> (r: bool)
    ensures
        r == party_check_fails(*today),
{
    match today {
        TodayReport::Report(report) => coding_seconds(report).is_none(),
        _ => false,
    }
}

/// Records a check at `seconds` and tells whether it is a party.
pub fn record_coding_time(state: &mut PartyState, seconds: u32) -> (r: Option<Party>)
    ensures
        *final(state) == state_after(*old(state), seconds),
        r == if party_due(*old(state), seconds) {
            Some(Party { minutes_coded: seconds / 60, intervals_completed: seconds / 600 })
        } else {
            None::<Party>
        },
{
    let current_intervals = seconds / PARTY_INTERVAL;
    let last_intervals = state.last_party_threshold / PARTY_INTERVAL;
    if current_intervals > last_intervals && seconds > state.last_known_seconds {
        state.last_known_seconds = seconds;
        state.last_party_threshold = current_intervals * PARTY_INTERVAL;
        Some(Party { minutes_coded: seconds / 60, intervals_completed: current_intervals })
    } else {
        state.last_known_seconds = seconds;
        None
    }
}

/// Checks today's WakaTime report for a party: an error where the report
/// is missing or malformed, which leaves the state as it was; otherwise
/// the coding time is recorded, and the party, if one is due, is given
/// back.
pub fn check_party_time(state: &mut PartyState, today: TodayReport) -> (r: Result<
    Option<Party>,
    String,
>)
    requires
        !party_check_fails(today),
    ensures
        match today {
            TodayReport::Unavailable(e) => r == Err::<Option<Party>, String>(e) && *final(state)
                == *old(state),
            TodayReport::Malformed(e) => r matches Err(m) && m@
                == "Failed to parse WakaTime data: "@ + e@ && *final(state) == *old(state),
            TodayReport::Report(report) => {
                let seconds = report_seconds(report)->0;
                &&& *final(state) == state_after(*old(state), seconds)
                &&& r == Ok::<Option<Party>, String>(
                    if party_due(*old(state), seconds) {
                        Some(
                            Party {
                                minutes_coded: seconds / 60,
                                intervals_completed: seconds / 600,
                            },
                        )
                    } else {
                        None
                    },
                )
            },
        },
{
    match today {
        TodayReport::Unavailable(e) => Err(e),
        TodayReport::Malformed(e) => Err(crate::text::concat("Failed to parse WakaTime data: ", &e)),
        TodayReport::Report(report) => {
            let seconds = match coding_seconds(&report) {
                Some(s) => s,
                None => 0,
            };
            Ok(record_coding_time(state, seconds))
        },
    }
}

// ---------------------------------------------------------------------
// Laws
// ---------------------------------------------------------------------

/// A state that checks can reach from the start: the interval of the last
/// party starts on an interval boundary.
pub open spec fn party_state_valid(state: PartyState) -> bool {
    state.last_party_threshold % 600 == 0
}

/// The start state is valid, and every check keeps a state valid.
pub proof fn lemma_party_state_stays_valid(state: PartyState, seconds: u32)
    ensures
        party_state_valid(PartyState { last_known_seconds: 0, last_party_threshold: 0 }),
        party_state_valid(state) ==> party_state_valid(state_after(state, seconds)),
{
    assert(((seconds / 600) * 600) % 600 == 0) by (nonlinear_arith);
}

/// After a party, no further party comes until the coding time reaches
/// the next interval: at most one party per interval.
pub proof fn lemma_one_party_per_interval(state: PartyState, seconds: u32, later: u32)
    requires
        party_due(state, seconds),
        later / 600 <= seconds / 600,
    ensures
        !party_due(state_after(state, seconds), later),
{
    assert(((seconds / 600) * 600) / 600 == seconds / 600) by (nonlinear_arith);
}

/// The same coding time, checked twice in a row, gives no second party.
pub proof fn lemma_no_party_twice(state: PartyState, seconds: u32)
    ensures
        !party_due(state_after(state, seconds), seconds),
{
    if party_due(state, seconds) {
        lemma_one_party_per_interval(state, seconds, seconds);
    }
}

/// The interval of the last party never moves back, and a party moves it
/// to the interval of the coding time, beyond the one before.
pub proof fn lemma_party_threshold_advances(state: PartyState, seconds: u32)
    requires
        party_state_valid(state),
    ensures
        state_after(state, seconds).last_party_threshold >= state.last_party_threshold,
        party_due(state, seconds) ==> state_after(state, seconds).last_party_threshold
            > state.last_party_threshold,
        party_due(state, seconds) ==> state_after(state, seconds).last_party_threshold / 600
            == seconds / 600,
        party_due(state, seconds) ==> state_after(state, seconds).last_party_threshold
            <= seconds,
{
    let t = state.last_party_threshold;
    assert(((seconds / 600) * 600) / 600 == seconds / 600) by (nonlinear_arith);
    assert((seconds / 600) * 600 <= seconds) by (nonlinear_arith);
    assert(t % 600 == 0 ==> t == (t / 600) * 600) by (nonlinear_arith);
    assert(seconds / 600 > t / 600 ==> (seconds / 600) * 600 > (t / 600) * 600) by (
    nonlinear_arith);
}

} // verus!
