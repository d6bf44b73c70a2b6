//! Asking the WakaTime command-line tool for today's coding time and for
//! its statistics: where to look for the tool, what to run, and what to
//! answer.
use vstd::prelude::*;
use vstd::utf8::{decode_utf8, valid_utf8};
use crate::text::{
    chars_of, concat3, contains_text, opt_text, owned, push_str, replace_all, replace_text, string_of,
    text_contains, trim, trimmed,
};

verus! {

// ---------------------------------------------------------------------
// Where the tool may be
// ---------------------------------------------------------------------

/// The environment variables that paths may name.
pub struct CliEnvironment {
    /// `USERPROFILE`, where it is set.
    pub userprofile: Option<String>,
    /// `HOME`, where it is set.
    pub home: Option<String>,
    /// `USERNAME`, where it is set.
    pub username: Option<String>,
}

/// `path` with the home directory put in: a `~` becomes `USERPROFILE`, or
/// else `HOME`; otherwise `%USERPROFILE%` becomes `USERPROFILE`;
/// otherwise `%USERNAME%` becomes `USERNAME`; where the variable is not
/// set, the path stays as it is.
pub open spec fn expanded(path: Seq<char>, env: CliEnvironment) -> Seq<char> {
    if path.contains('~') {
        let home = match opt_text(env.userprofile) {
            Some(h) => Some(h),
            None => opt_text(env.home),
        };
        match home {
            Some(h) => replace_all(path, "~"@, h),
            None => path,
        }
    } else if contains_text(path, "%USERPROFILE%"@) {
        match opt_text(env.userprofile) {
            Some(h) => replace_all(path, "%USERPROFILE%"@, h),
            None => path,
        }
    } else if contains_text(path, "%USERNAME%"@) {
        match opt_text(env.username) {
            Some(u) => replace_all(path, "%USERNAME%"@, u),
            None => path,
        }
    } else {
        path
    }
}

/// `path` with the home directory put in.
pub fn expand_path(path: &str, env: &CliEnvironment) -> (r: String)
    ensures
        r@ == expanded(path@, *env),
{
    proof {
        reveal_strlit("~");
        reveal_strlit("%USERPROFILE%");
        reveal_strlit("%USERNAME%");
    }
    let has_tilde = text_contains(path, "~");
    assert(has_tilde == contains_text(path@, "~"@));
    proof {
        assert("~"@ =~= seq!['~']);
        if path@.contains('~') {
            let k = choose|k: int| 0 <= k < path@.len() && path@[k] == '~';
            assert(path@.subrange(k, k + 1) =~= "~"@);
            assert(crate::text::occurs_at(path@, "~"@, k));
        }
        if contains_text(path@, "~"@) {
            let k = choose|k: int| crate::text::occurs_at(path@, "~"@, k);
            assert(path@.subrange(k, k + 1)[0] == path@[k]);
            assert(path@[k] == '~');
        }
    }
    if has_tilde {
        let home: Option<&String> = match &env.userprofile {
            Some(h) => Some(h),
            None => match &env.home {
                Some(h) => Some(h),
                None => None,
            },
        };
        match home {
            Some(h) => replace_text(path, "~", h),
            None => owned(path),
        }
    } else if text_contains(path, "%USERPROFILE%") {
        match &env.userprofile {
            Some(h) => replace_text(path, "%USERPROFILE%", h),
            None => owned(path),
        }
    } else if text_contains(path, "%USERNAME%") {
        match &env.username {
            Some(u) => replace_text(path, "%USERNAME%", u),
            None => owned(path),
        }
    } else {
        owned(path)
    }
}

/// The places where the tool is looked for, in order.
pub open spec fn cli_candidates() -> Seq<Seq<char>> {
    seq![
        "~/.wakatime/wakatime-cli"@,
        "wakatime-cli"@,
        "C:\\Users\\%USERNAME%\\.wakatime\\wakatime-cli.exe"@,
        "%USERPROFILE%\\.wakatime\\wakatime-cli.exe"@,
    ]
}

/// How many places the tool is looked for in.
pub const CLI_CANDIDATE_COUNT: usize = 4;

/// The place number `i` where the tool is looked for.
pub fn cli_candidate(i: usize) -> (r: &'static str)
    requires
        i < CLI_CANDIDATE_COUNT,
    ensures
        r@ == cli_candidates()[i as int],
{
    if i == 0 {
        "~/.wakatime/wakatime-cli"
    } else if i == 1 {
        "wakatime-cli"
    } else if i == 2 {
        "C:\\Users\\%USERNAME%\\.wakatime\\wakatime-cli.exe"
    } else {
        "%USERPROFILE%\\.wakatime\\wakatime-cli.exe"
    }
}

// ---------------------------------------------------------------------
// Running the tool
// ---------------------------------------------------------------------

/// A command to run: a program and its arguments.
pub struct CliCommand {
    pub program: String,
    pub args: Vec<String>,
}

/// What running a command came to.
pub enum CliRun {
    /// The program could not be started; the error's message.
    NotRun(String),
    /// The program ran; whether it exited successfully, and what it wrote
    /// to its standard output.
    Ran { success: bool, stdout: String },
}

/// What `String::from_utf8_lossy` makes of `bytes`: the text that they
/// encode, with each invalid sequence replaced by U+FFFD.
pub uninterp spec fn utf8_lossy(bytes: Seq<u8>) -> Seq<char>;

/// `String::from_utf8_lossy`: decodes `bytes` as UTF-8. Stated: valid
/// UTF-8 is decoded as it is; left unsaid: the replacements made in
/// invalid input.
#[verifier::external_body]
fn decode_lossy(bytes: &[u8]) -> (r: String)
    ensures
        r@ == utf8_lossy(bytes@),
        valid_utf8(bytes@) ==> r@ == decode_utf8(bytes@),
{
    String::from_utf8_lossy(bytes).into_owned()
}

impl CliRun {
    /// A finished run, its output decoded as UTF-8 (invalid sequences
    /// replaced).
    pub fn finished(success: bool, stdout: &[u8]) -> (r: CliRun)
        ensures
            r matches CliRun::Ran { success: s, stdout: out } && s == success && out@ == utf8_lossy(
                stdout@,
            ),
            valid_utf8(stdout@) ==> (r matches CliRun::Ran { stdout: out, .. } && out@
                == decode_utf8(stdout@)),
    {
        CliRun::Ran { success, stdout: decode_lossy(stdout) }
    }
}

/// What a command asks for, by its texts.
pub open spec fn is_command(c: CliCommand, program: Seq<char>, args: Seq<Seq<char>>) -> bool {
    c.program@ == program && c.args@.map_values(|a: String| a@) == args
}

/// What comes after a reply from the tool.
pub enum CliStep {
    /// Run this command and hand its outcome back.
    Run(CliCommand),
    /// The answer.
    Finish(Result<String, String>),
}

/// `step` runs the tool from the place `at` with `args`.
pub open spec fn runs(step: CliStep, env: CliEnvironment, at: int, args: Seq<Seq<char>>) -> bool {
    step matches CliStep::Run(c) && is_command(c, expanded(cli_candidates()[at], env), args)
}

/// The answer when the tool is in none of the places.
pub open spec fn cli_not_found() -> Seq<char> {
    "WakaTime CLI not found in any common locations"@
}

/// `step` goes on at the place `at`, running `args`, or, after the last
/// place, gives up.
pub open spec fn tries_place(step: CliStep, env: CliEnvironment, at: int, args: Seq<Seq<char>>) -> bool {
    if at < 4 {
        runs(step, env, at, args)
    } else {
        step matches CliStep::Finish(Err(e)) && e@ == cli_not_found()
    }
}

fn args_of(a: &str, b: &str, c: &str) -> (r: Vec<String>)
    ensures
        r@.map_values(|s: String| s@) == seq![a@, b@, c@],
{
    let mut r: Vec<String> = Vec::new();
    r.push(owned(a));
    r.push(owned(b));
    r.push(owned(c));
    assert(r@.map_values(|s: String| s@) =~= seq![a@, b@, c@]);
    r
}

fn args_of_two(a: &str, b: &str) -> (r: Vec<String>)
    ensures
        r@.map_values(|s: String| s@) == seq![a@, b@],
{
    let mut r: Vec<String> = Vec::new();
    r.push(owned(a));
    r.push(owned(b));
    assert(r@.map_values(|s: String| s@) =~= seq![a@, b@]);
    r
}

fn args_of_one(a: &str) -> (r: Vec<String>)
    ensures
        r@.map_values(|s: String| s@) == seq![a@],
{
    let mut r: Vec<String> = Vec::new();
    r.push(owned(a));
    assert(r@.map_values(|s: String| s@) =~= seq![a@]);
    r
}

fn run_at(env: &CliEnvironment, at: usize, args: Vec<String>) -> (r: CliStep)
    requires
        at < CLI_CANDIDATE_COUNT,
    ensures
        runs(r, *env, at as int, args@.map_values(|s: String| s@)),
{
    let program = expand_path(cli_candidate(at), env);
    CliStep::Run(CliCommand { program, args })
}

fn not_found() -> (r: CliStep)
    ensures
        r matches CliStep::Finish(Err(e)) && e@ == cli_not_found(),
{
    CliStep::Finish(Err(owned("WakaTime CLI not found in any common locations")))
}

// ---------------------------------------------------------------------
// Today's coding time
// ---------------------------------------------------------------------

/// The arguments that ask for today's coding time in a format.
pub open spec fn today_args(format: Seq<char>) -> Seq<Seq<char>> {
    seq!["--today"@, "--output"@, format]
}

/// Asking the tool for today's coding time: each place in turn, until a
/// run succeeds.
pub struct WakaTimeToday {
    /// The place of the run whose outcome is awaited.
    pub at: usize,
}

impl WakaTimeToday {
    /// Begins at the first place.
    pub fn start(env: &CliEnvironment) -> (r: (WakaTimeToday, CliStep))
        ensures
            r.0.at == 0,
            runs(r.1, *env, 0, today_args("json"@)),
    {
        (WakaTimeToday { at: 0 }, run_at(env, 0, args_of("--today", "--output", "json")))
    }

    /// Takes the outcome of a run: a successful run's output is the answer;
    /// otherwise the next place is tried.
    pub fn on_outcome(&mut self, env: &CliEnvironment, outcome: CliRun) -> (r: CliStep)
        requires
            old(self).at < CLI_CANDIDATE_COUNT,
        ensures
            final(self).at < CLI_CANDIDATE_COUNT,
            outcome matches CliRun::Ran { success: true, stdout } ==> (r matches CliStep::Finish(
                Ok(s),
            ) && s@ == stdout@),
            !(outcome matches CliRun::Ran { success: true, .. }) ==> tries_place(
                r,
                *env,
                old(self).at + 1,
                today_args("json"@),
            ) && (r is Run ==> final(self).at == old(self).at + 1),
    {
        match outcome {
            CliRun::Ran { success: true, stdout } => CliStep::Finish(Ok(stdout)),
            _ => {
                if self.at + 1 < CLI_CANDIDATE_COUNT {
                    self.at = self.at + 1;
                    run_at(env, self.at, args_of("--today", "--output", "json"))
                } else {
                    not_found()
                }
            },
        }
    }
}

// ---------------------------------------------------------------------
// Today's coding time in detail
// ---------------------------------------------------------------------

/// The detailed answer made from the summary: `{"fallback":true,"data":`,
/// the summary, `}`.
pub open spec fn fallback_answer(summary: Seq<char>) -> Seq<char> {
    "{\"fallback\":true,\"data\":"@ + summary + "}"@
}

/// Asking the tool for today's coding time in detail: at each place in
/// turn, the raw report, or else the summary.
pub struct WakaTimeTodayDetailed {
    /// The place of the run whose outcome is awaited.
    pub at: usize,
    /// Whether that run asks for the summary, the raw report having failed.
    pub summary: bool,
}

impl WakaTimeTodayDetailed {
    /// Begins at the first place, with the raw report.
    pub fn start(env: &CliEnvironment) -> (r: (WakaTimeTodayDetailed, CliStep))
        ensures
            r.0.at == 0,
            !r.0.summary,
            runs(r.1, *env, 0, today_args("raw-json"@)),
    {
        (
            WakaTimeTodayDetailed { at: 0, summary: false },
            run_at(env, 0, args_of("--today", "--output", "raw-json")),
        )
    }

    /// Takes the outcome of a run: a successful raw report is the answer; a
    /// raw report that fails is followed by the summary at the same place,
    /// which, when it succeeds, is the answer wrapped as a fallback; a
    /// program that cannot be started, or a summary that fails, moves on to
    /// the next place.
    pub fn on_outcome(&mut self, env: &CliEnvironment, outcome: CliRun) -> (r: CliStep)
        requires
            old(self).at < CLI_CANDIDATE_COUNT,
        ensures
            final(self).at < CLI_CANDIDATE_COUNT,
            !old(self).summary ==> match outcome {
                CliRun::Ran { success: true, stdout } => r matches CliStep::Finish(Ok(s)) && s@
                    == stdout@,
                CliRun::Ran { success: false, .. } => runs(
                    r,
                    *env,
                    old(self).at as int,
                    today_args("json"@),
                ) && final(self).at == old(self).at && final(self).summary,
                CliRun::NotRun(_) => tries_place(
                    r,
                    *env,
                    old(self).at + 1,
                    today_args("raw-json"@),
                ) && (r is Run ==> final(self).at == old(self).at + 1 && !final(self).summary),
            },
            old(self).summary ==> match outcome {
                CliRun::Ran { success: true, stdout } => r matches CliStep::Finish(Ok(s)) && s@
                    == fallback_answer(stdout@),
                _ => tries_place(r, *env, old(self).at + 1, today_args("raw-json"@)) && (r is Run
                    ==> final(self).at == old(self).at + 1 && !final(self).summary),
            },
    {
        if !self.summary {
            match outcome {
                CliRun::Ran { success: true, stdout } => {
                    return CliStep::Finish(Ok(stdout));
                },
                CliRun::Ran { success: false, .. } => {
                    self.summary = true;
                    return run_at(env, self.at, args_of("--today", "--output", "json"));
                },
                CliRun::NotRun(_) => {},
            }
        } else {
            match outcome {
                CliRun::Ran { success: true, stdout } => {
                    return CliStep::Finish(
                        Ok(concat3("{\"fallback\":true,\"data\":", &stdout, "}")),
                    );
                },
                _ => {},
            }
        }
        if self.at + 1 < CLI_CANDIDATE_COUNT {
            self.at = self.at + 1;
            self.summary = false;
            run_at(env, self.at, args_of("--today", "--output", "raw-json"))
        } else {
            not_found()
        }
    }
}

// ---------------------------------------------------------------------
// Statistics
// ---------------------------------------------------------------------

/// The number of bytes of `c` in UTF-8.
pub open spec fn utf8_width(c: char) -> nat {
    let u = c as u32;
    if u < 0x80 {
        1
    } else if u < 0x800 {
        2
    } else if u < 0x10000 {
        3
    } else {
        4
    }
}

/// The number of bytes of `s` in UTF-8.
pub open spec fn utf8_len(s: Seq<char>) -> nat
    decreases s.len(),
{
    if s.len() == 0 {
        0
    } else {
        utf8_len(s.drop_last()) + utf8_width(s.last())
    }
}

proof fn lemma_utf8_len_take_step(s: Seq<char>, i: int)
    requires
        0 <= i < s.len(),
    ensures
        utf8_len(s.take(i + 1)) == utf8_len(s.take(i)) + utf8_width(s[i]),
{
    assert(s.take(i + 1).drop_last() =~= s.take(i));
}

/// Longer prefixes take more bytes.
proof fn lemma_utf8_len_prefix_grows(s: Seq<char>, a: int, b: int)
    requires
        0 <= a <= b <= s.len(),
    ensures
        utf8_len(s.take(a)) + (b - a) <= utf8_len(s.take(b)),
    decreases b - a,
{
    if a < b {
        lemma_utf8_len_prefix_grows(s, a, b - 1);
        lemma_utf8_len_take_step(s, b - 1);
    }
}

/// The text has a prefix of exactly `n` bytes: `n` is a character
/// boundary.
pub open spec fn has_boundary(s: Seq<char>, n: nat) -> bool {
    exists|k: int| 0 <= k <= s.len() && utf8_len(s.take(k)) == n
}

/// The characters of the first `n` bytes of `s`, where that is a
/// boundary.
pub open spec fn first_bytes(s: Seq<char>, n: nat) -> Seq<char> {
    s.take(choose|k: int| 0 <= k <= s.len() && utf8_len(s.take(k)) == n)
}

/// The preview of an API key: its first ten bytes and `...` when it is
/// longer than ten bytes, else all of it.
pub open spec fn key_preview(s: Seq<char>) -> Seq<char> {
    if utf8_len(s) > 10 {
        first_bytes(s, 10) + "..."@
    } else {
        s
    }
}

/// Making the preview of `s` fails: it is longer than ten bytes, and the
/// tenth byte ends inside a character.
pub open spec fn key_preview_fails(s: Seq<char>) -> bool {
    utf8_len(s) > 10 && !has_boundary(s, 10)
}

fn utf8_width_exec(c: char) -> (w: usize)
    ensures
        w == utf8_width(c),
{
    let u = c as u32;
    if u < 0x80 {
        1
    } else if u < 0x800 {
        2
    } else if u < 0x10000 {
        3
    } else {
        4
    }
}

/// There is at most one prefix of `n` bytes.
proof fn lemma_boundary_unique(s: Seq<char>, n: nat, k: int)
    requires
        0 <= k <= s.len(),
        utf8_len(s.take(k)) == n,
    ensures
        has_boundary(s, n),
        first_bytes(s, n) == s.take(k),
{
    let j = choose|j: int| 0 <= j <= s.len() && utf8_len(s.take(j)) == n;
    if j < k {
        lemma_utf8_len_prefix_grows(s, j, k);
    }
    if k < j {
        lemma_utf8_len_prefix_grows(s, k, j);
    }
}

/// The preview of an API key, or nothing where making it fails.
pub fn key_preview_checked(key: &str) -> (r: Option<String>)
    ensures
        key_preview_fails(key@) ==> r is None,
        !key_preview_fails(key@) ==> (r matches Some(p) && p@ == key_preview(key@)),
{
    let cs = chars_of(key);
    let mut i: usize = 0;
    let mut bytes: usize = 0;
    let mut cut: Option<usize> = None;
    assert(cs@.take(0) =~= Seq::<char>::empty());
    while i < cs.len() && bytes <= 10
        invariant
            i <= cs@.len(),
            cs@ == key@,
            bytes == utf8_len(cs@.take(i as int)),
            bytes <= 14,
            cut matches Some(k) ==> k <= i && utf8_len(cs@.take(k as int)) == 10,
            cut is None ==> forall|k: int| 0 <= k < i ==> utf8_len(cs@.take(k)) != 10,
        decreases cs@.len() - i,
    {
        if bytes == 10 {
            cut = Some(i);
        }
        proof {
            lemma_utf8_len_take_step(cs@, i as int);
        }
        bytes = bytes + utf8_width_exec(cs[i]);
        i = i + 1;
    }
    if bytes == 10 && cut.is_none() {
        cut = Some(i);
    }
    proof {
        assert(cs@.take(cs@.len() as int) =~= cs@);
        lemma_utf8_len_prefix_grows(cs@, i as int, cs@.len() as int);
    }
    if bytes > 10 {
        match cut {
            Some(k) => {
                proof {
                    lemma_boundary_unique(cs@, 10, k as int);
                }
                let mut p = string_of(&cs, 0, k);
                push_str(&mut p, "...");
                assert(cs@.subrange(0, k as int) =~= cs@.take(k as int));
                Some(p)
            },
            None => {
                proof {
                    assert forall|k: int| 0 <= k <= cs@.len() implies utf8_len(cs@.take(k)) != 10 by {
                        if k >= i {
                            lemma_utf8_len_prefix_grows(cs@, i as int, k);
                        }
                    }
                }
                None
            },
        }
    } else {
        assert(i == cs@.len());
        Some(owned(key))
    }
}

/// The answer with the count of heartbeats not yet sent.
pub open spec fn offline_count_answer(out: Seq<char>) -> Seq<char> {
    "{\"type\":\"offline_count\",\"data\":"@ + trim(out) + "}"@
}

/// The answer with the preview of the configured API key.
pub open spec fn configured_answer(key: Seq<char>) -> Seq<char> {
    "{\"type\":\"config\",\"api_key_preview\":\""@ + trim(key_preview(key))
        + "\",\"status\":\"configured\"}"@
}

/// A key that goes on past its first ten bytes `p` is previewed as `p`
/// and `...`, and making the preview does not fail.
pub proof fn lemma_key_preview_of_long_key(p: Seq<char>, rest: Seq<char>)
    requires
        utf8_len(p) == 10,
        rest.len() > 0,
    ensures
        !key_preview_fails(p + rest),
        key_preview(p + rest) == p + "..."@,
{
    let k = p + rest;
    assert(k.take(p.len() as int) =~= p);
    assert(k.take(k.len() as int) =~= k);
    lemma_utf8_len_prefix_grows(k, p.len() as int, k.len() as int);
    lemma_boundary_unique(k, 10, p.len() as int);
}

/// Only the first ten bytes of an API key reach the answer: two keys that
/// share their first ten bytes and both go on past them are answered
/// alike, whatever follows.
pub proof fn lemma_configured_answer_shows_ten_bytes(
    p: Seq<char>,
    rest1: Seq<char>,
    rest2: Seq<char>,
)
    requires
        utf8_len(p) == 10,
        rest1.len() > 0,
        rest2.len() > 0,
    ensures
        configured_answer(p + rest1) == configured_answer(p + rest2),
{
    lemma_key_preview_of_long_key(p, rest1);
    lemma_key_preview_of_long_key(p, rest2);
}

/// The answer when no API key is configured.
pub open spec fn not_configured_answer() -> Seq<char> {
    "{\"type\":\"config\",\"status\":\"not_configured\"}"@
}

/// The stage of asking for statistics at one place.
#[derive(Clone, Copy, Debug, PartialEq, Eq, Structural)]
pub enum StatsStage {
    /// `--version`: whether the program can be started there.
    Version,
    /// `--offline-count`: the heartbeats not yet sent.
    OfflineCount,
    /// `--config-read api_key`: the configured API key.
    ConfigRead,
}

/// The arguments of a stage.
pub open spec fn stage_args(stage: StatsStage) -> Seq<Seq<char>> {
    match stage {
        StatsStage::Version => seq!["--version"@],
        StatsStage::OfflineCount => seq!["--offline-count"@, "--output"@, "json"@],
        StatsStage::ConfigRead => seq!["--config-read"@, "api_key"@],
    }
}

/// Asking the tool for statistics: at each place in turn, whether it can
/// be started, then the count of heartbeats not yet sent, or else the
/// configured API key.
pub struct WakaTimeStats {
    /// The place of the run whose outcome is awaited.
    pub at: usize,
    /// What that run asks for.
    pub stage: StatsStage,
}

/// The outcome cannot be taken: it is a successful reading of an API key
/// whose preview cannot be made.
pub open spec fn stats_outcome_fails(stage: StatsStage, outcome: CliRun) -> bool {
    &&& stage == StatsStage::ConfigRead
    &&& outcome matches CliRun::Ran { success: true, stdout } && key_preview_fails(stdout@)
}

impl WakaTimeStats {
    /// Begins at the first place, checking that the program starts.
    pub fn start(env: &CliEnvironment) -> (r: (WakaTimeStats, CliStep))
        ensures
            r.0.at == 0,
            r.0.stage == StatsStage::Version,
            runs(r.1, *env, 0, stage_args(StatsStage::Version)),
    {
        (
            WakaTimeStats { at: 0, stage: StatsStage::Version },
            run_at(env, 0, args_of_one("--version")),
        )
    }

    fn next_place(&mut self, env: &CliEnvironment) -> (r: CliStep)
        requires
            old(self).at < CLI_CANDIDATE_COUNT,
        ensures
            final(self).at < CLI_CANDIDATE_COUNT,
            tries_place(r, *env, old(self).at + 1, stage_args(StatsStage::Version)),
            r is Run ==> final(self).at == old(self).at + 1 && final(self).stage
                == StatsStage::Version,
    {
        if self.at + 1 < CLI_CANDIDATE_COUNT {
            self.at = self.at + 1;
            self.stage = StatsStage::Version;
            run_at(env, self.at, args_of_one("--version"))
        } else {
            not_found()
        }
    }

    /// Whether the outcome cannot be taken.
    pub fn outcome_fails(&self, outcome: &CliRun) -> (r: bool)
        ensures
            r == stats_outcome_fails(self.stage, *outcome),
    {
        match (self.stage, outcome) {
            (StatsStage::ConfigRead, CliRun::Ran { success: true, stdout }) => key_preview_checked(
                stdout,
            ).is_none(),
            _ => false,
        }
    }

    /// Takes the outcome of a run: a program that starts at all is asked
    /// for the heartbeats not yet sent, whose count, when that succeeds, is
    /// the answer; else it is asked for the API key, whose preview is the
    /// answer, or, when that fails, the answer is that none is
    /// configured; a program that cannot be started moves on to the next
    /// place.
    pub fn on_outcome(&mut self, env: &CliEnvironment, outcome: CliRun) -> (r: CliStep)
        requires
            old(self).at < CLI_CANDIDATE_COUNT,
            !stats_outcome_fails(old(self).stage, outcome),
        ensures
            final(self).at < CLI_CANDIDATE_COUNT,
            old(self).stage == StatsStage::Version ==> match outcome {
                CliRun::NotRun(_) => tries_place(
                    r,
                    *env,
                    old(self).at + 1,
                    stage_args(StatsStage::Version),
                ) && (r is Run ==> final(self).at == old(self).at + 1 && final(self).stage
                    == StatsStage::Version),
                CliRun::Ran { .. } => runs(
                    r,
                    *env,
                    old(self).at as int,
                    stage_args(StatsStage::OfflineCount),
                ) && final(self).at == old(self).at && final(self).stage
                    == StatsStage::OfflineCount,
            },
            old(self).stage == StatsStage::OfflineCount ==> match outcome {
                CliRun::Ran { success: true, stdout } => r matches CliStep::Finish(Ok(s)) && s@
                    == offline_count_answer(stdout@),
                _ => runs(r, *env, old(self).at as int, stage_args(StatsStage::ConfigRead))
                    && final(self).at == old(self).at && final(self).stage
                    == StatsStage::ConfigRead,
            },
            old(self).stage == StatsStage::ConfigRead ==> match outcome {
                CliRun::Ran { success: true, stdout } => r matches CliStep::Finish(Ok(s)) && s@
                    == configured_answer(stdout@),
                CliRun::Ran { success: false, .. } => r matches CliStep::Finish(Ok(s)) && s@
                    == not_configured_answer(),
                CliRun::NotRun(_) => tries_place(
                    r,
                    *env,
                    old(self).at + 1,
                    stage_args(StatsStage::Version),
                ) && (r is Run ==> final(self).at == old(self).at + 1 && final(self).stage
                    == StatsStage::Version),
            },
    {
        match self.stage {
            StatsStage::Version => match outcome {
                CliRun::NotRun(_) => self.next_place(env),
                CliRun::Ran { .. } => {
                    self.stage = StatsStage::OfflineCount;
                    run_at(env, self.at, args_of("--offline-count", "--output", "json"))
                },
            },
            StatsStage::OfflineCount => match outcome {
                CliRun::Ran { success: true, stdout } => {
                    let t = trimmed(&stdout);
                    CliStep::Finish(Ok(concat3("{\"type\":\"offline_count\",\"data\":", &t, "}")))
                },
                _ => {
                    self.stage = StatsStage::ConfigRead;
                    run_at(env, self.at, args_of_two("--config-read", "api_key"))
                },
            },
            StatsStage::ConfigRead => match outcome {
                CliRun::Ran { success: true, stdout } => {
                    let preview = match key_preview_checked(&stdout) {
                        Some(p) => p,
                        None => owned(""),
                    };
                    let t = trimmed(&preview);
                    CliStep::Finish(
                        Ok(
                            concat3(
                                "{\"type\":\"config\",\"api_key_preview\":\"",
                                &t,
                                "\",\"status\":\"configured\"}",
                            ),
                        ),
                    )
                },
                CliRun::Ran { success: false, .. } => CliStep::Finish(
                    Ok(owned("{\"type\":\"config\",\"status\":\"not_configured\"}")),
                ),
                CliRun::NotRun(_) => self.next_place(env),
            },
        }
    }
}

} // verus!
