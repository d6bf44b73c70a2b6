//! Signing in with Slack: the authorization URL, the exchange of the
//! authorization code for a token (retried while Slack reports an
//! internal error), and the answer to the front end's question for the
//! result.
use vstd::prelude::*;
use crate::hackclub::{AuthLookup, CodeFile};
use crate::json::Json;
use crate::oauth::{
    JsonReply, access_token_of, authorize_url, authorize_url_result, callback_url, pair_views, reply_document,
    reply_error, required, text_pair,
};
use crate::text::{concat, owned, text_eq, trimmed, trim};

verus! {

/// What the Slack sign-in remembers: the last token answer.
pub struct SlackOAuthState {
    pub auth_result: Option<Json>,
}

impl SlackOAuthState {
    /// Nothing remembered yet.
    pub fn new() -> (s: SlackOAuthState)
        ensures
            s.auth_result is None,
    {
        SlackOAuthState { auth_result: None }
    }

    /// Remembers a token answer.
    pub fn record(&mut self, result: Json)
        ensures
            final(self).auth_result == Some(result),
    {
        self.auth_result = Some(result);
    }
}

// ---------------------------------------------------------------------
// The authorization URL
// ---------------------------------------------------------------------

/// The query of the authorization URL.
pub open spec fn slack_authorize_pairs(client_id: Seq<char>) -> Seq<(Seq<char>, Seq<char>)> {
    seq![
        ("client_id"@, client_id),
        ("scope"@, "channels:read channels:history im:read im:history users:read"@),
        ("redirect_uri"@, callback_url()),
        ("state"@, "slack"@),
    ]
}

/// The URL at which the user signs in with Slack, given the client id that
/// the environment holds (`SLACK_CLIENT_ID`).
pub fn start_slack_oauth(_reauth: Option<bool>, client_id: Option<String>) -> (r: Result<
    String,
    String,
>)
    ensures
        client_id is None ==> (r matches Err(e) && e@ == "Missing SLACK_CLIENT_ID env var"@),
        client_id is Some ==> authorize_url_result(
            r,
            "https://slack.com/oauth/v2/authorize"@,
            slack_authorize_pairs(client_id->0@),
            "Failed to build Slack auth URL: "@,
        ),
{
    let client_id = match required(client_id, "Missing SLACK_CLIENT_ID env var") {
        Ok(id) => id,
        Err(e) => return Err(e),
    };
    let mut pairs: Vec<(String, String)> = Vec::new();
    pairs.push(text_pair("client_id", &client_id));
    pairs.push(
        text_pair("scope", "channels:read channels:history im:read im:history users:read"),
    );
    pairs.push(text_pair("redirect_uri", "http://localhost:3001/callback"));
    pairs.push(text_pair("state", "slack"));
    assert(pair_views(pairs@) =~= slack_authorize_pairs(client_id@));
    authorize_url("https://slack.com/oauth/v2/authorize", &pairs, "Failed to build Slack auth URL: ")
}

// ---------------------------------------------------------------------
// The token exchange
// ---------------------------------------------------------------------

/// The form of the token request; the code is sent trimmed.
pub open spec fn slack_token_pairs(client_id: Seq<char>, client_secret: Seq<char>, code: Seq<
    char,
>) -> Seq<(Seq<char>, Seq<char>)> {
    seq![
        ("client_id"@, client_id),
        ("client_secret"@, client_secret),
        ("code"@, trim(code)),
        ("redirect_uri"@, callback_url()),
    ]
}

/// The form of the token request for `code`, given the client id and
/// secret that the environment holds.
pub fn slack_token_form(client_id: Option<String>, client_secret: Option<String>, code: &str) -> (r:
    Result<Vec<(String, String)>, String>)
    ensures
        client_id is None ==> (r matches Err(e) && e@ == "Missing SLACK_CLIENT_ID env var"@),
        client_id is Some && client_secret is None ==> (r matches Err(e) && e@
            == "Missing SLACK_CLIENT_SECRET env var"@),
        client_id is Some && client_secret is Some ==> (r matches Ok(form) && pair_views(form@)
            == slack_token_pairs(client_id->0@, client_secret->0@, code@)),
{
    let id = match required(client_id, "Missing SLACK_CLIENT_ID env var") {
        Ok(id) => id,
        Err(e) => return Err(e),
    };
    let secret = match required(client_secret, "Missing SLACK_CLIENT_SECRET env var") {
        Ok(s) => s,
        Err(e) => return Err(e),
    };
    let trimmed_code = trimmed(code);
    let mut form: Vec<(String, String)> = Vec::new();
    form.push(text_pair("client_id", &id));
    form.push(text_pair("client_secret", &secret));
    form.push(text_pair("code", &trimmed_code));
    form.push(text_pair("redirect_uri", "http://localhost:3001/callback"));
    assert(pair_views(form@) =~= slack_token_pairs(id@, secret@, code@));
    Ok(form)
}

/// How many times the token request is sent at most.
pub const SLACK_TOKEN_ATTEMPTS: u32 = 3;

/// The error that a refusing token answer names: its `error` member, or
/// `unknown_error`.
pub open spec fn slack_error_name(doc: Json) -> Seq<char> {
    match doc.field("error"@) {
        Some(v) => match v.text_value() {
            Some(t) => t,
            None => "unknown_error"@,
        },
        None => "unknown_error"@,
    }
}

/// The token answer refuses: its `ok` member is `false`.
pub open spec fn slack_refused(doc: Json) -> bool {
    doc.field("ok"@) matches Some(v) && v.bool_value() == Some(false)
}

/// Where the token exchange goes after an answer.
pub enum SlackTokenStep {
    /// Wait a second and send the request again.
    Retry,
    /// The exchange is over, with this result.
    Finish(Result<Json, String>),
}

/// The token exchange, counting the requests sent.
pub struct SlackTokenExchange {
    /// The number of the request whose answer is awaited, from 0.
    pub attempt: u32,
}

impl SlackTokenExchange {
    /// The exchange before its first answer.
    pub fn new() -> (s: SlackTokenExchange)
        ensures
            s.attempt == 0,
    {
        SlackTokenExchange { attempt: 0 }
    }

    /// Takes the answer to the current request.
    pub fn on_reply(&mut self, reply: JsonReply) -> (r: SlackTokenStep)
        requires
            old(self).attempt < SLACK_TOKEN_ATTEMPTS,
        ensures
            r is Retry ==> final(self).attempt == old(self).attempt + 1 && final(self).attempt
                < SLACK_TOKEN_ATTEMPTS,
            r is Finish ==> final(self).attempt == old(self).attempt,
            match reply {
                JsonReply::Body(Ok(doc)) => if slack_refused(doc) {
                    if slack_error_name(doc) == "internal_error"@ && old(self).attempt < 2 {
                        r is Retry
                    } else {
                        r matches SlackTokenStep::Finish(Err(e)) && e@ == "Slack OAuth error: "@
                            + slack_error_name(doc)
                    }
                } else if doc.field("access_token"@) is Some {
                    r == SlackTokenStep::Finish(Ok(doc))
                } else {
                    r matches SlackTokenStep::Finish(Err(e)) && e@ == "No access_token in response"@
                },
                _ => r matches SlackTokenStep::Finish(Err(e)) && Some(e@) == reply_error(
                    reply,
                    "Failed to exchange slack code: "@,
                    "Failed to read response text: "@,
                    "Failed to parse response: "@,
                ),
            },
    {
        let doc = match reply_document(
            reply,
            "Failed to exchange slack code: ",
            "Failed to read response text: ",
            "Failed to parse response: ",
        ) {
            Ok(doc) => doc,
            Err(e) => return SlackTokenStep::Finish(Err(e)),
        };
        let refused = match doc.get("ok") {
            Some(v) => v.as_bool() == Some(false),
            None => false,
        };
        if refused {
            let name = match doc.field_text("error") {
                Some(t) => owned(t),
                None => owned("unknown_error"),
            };
            if text_eq(&name, "internal_error") && self.attempt < 2 {
                self.attempt = self.attempt + 1;
                return SlackTokenStep::Retry;
            }
            return SlackTokenStep::Finish(Err(concat("Slack OAuth error: ", &name)));
        }
        if doc.get("access_token").is_some() {
            SlackTokenStep::Finish(Ok(doc))
        } else {
            SlackTokenStep::Finish(Err(owned("No access_token in response")))
        }
    }
}

// ---------------------------------------------------------------------
// Answering the front end
// ---------------------------------------------------------------------

/// How the question for the Slack sign-in result begins: without a code
/// file, the remembered result is the answer, or there is no result yet;
/// with one, the code is read from it.
pub fn slack_auth_lookup(code_file_exists: bool, cached: Option<Json>) -> (r: AuthLookup)
    ensures
        code_file_exists ==> r == AuthLookup::ReadCode(CodeFile::DataDir),
        !code_file_exists && cached is Some ==> r == AuthLookup::Answer(Ok(cached->0)),
        !code_file_exists && cached is None ==> (r matches AuthLookup::Answer(Err(e)) && e@
            == "No slack auth result yet"@),
{
    if code_file_exists {
        AuthLookup::ReadCode(CodeFile::DataDir)
    } else {
        match cached {
            Some(result) => AuthLookup::Answer(Ok(result)),
            None => AuthLookup::Answer(Err(owned("No slack auth result yet"))),
        }
    }
}

/// The answer once the code has been exchanged (the code file is removed
/// either way): the exchange's result; a failed exchange also forgets the
/// remembered result.
pub fn slack_auth_exchanged(state: &mut SlackOAuthState, exchanged: Result<Json, String>) -> (r:
    Result<Json, String>)
    ensures
        r == exchanged,
        exchanged is Ok ==> final(state).auth_result == old(state).auth_result,
        exchanged is Err ==> final(state).auth_result is None,
{
    if exchanged.is_err() {
        state.auth_result = None;
    }
    exchanged
}

/// Ends a step of a Slack code exchange: nothing yet while the exchange
/// retries; when it is over, a successful answer is remembered as the
/// sign-in and a failure is handed on with the sign-in untouched.
pub fn record_slack_exchange(state: &mut SlackOAuthState, step: SlackTokenStep) -> (r: Option<
    Result<(), String>,
>)
    ensures
        step is Retry ==> r is None && *final(state) == *old(state),
        step matches SlackTokenStep::Finish(Ok(doc)) ==> r == Some(Ok::<(), String>(()))
            && final(state).auth_result == Some(doc) && slack_token_of(*final(state))
            == access_token_of(doc),
        step matches SlackTokenStep::Finish(Err(e)) ==> r == Some(Err::<(), String>(e))
            && *final(state) == *old(state),
{
    match step {
        SlackTokenStep::Retry => None,
        SlackTokenStep::Finish(Ok(doc)) => {
            state.record(doc);
            Some(Ok(()))
        },
        SlackTokenStep::Finish(Err(e)) => Some(Err(e)),
    }
}

/// The access token of the remembered sign-in.
pub open spec fn slack_token_of(state: SlackOAuthState) -> Option<Seq<char>> {
    match state.auth_result {
        Some(doc) => match doc.field("access_token"@) {
            Some(v) => v.text_value(),
            None => None,
        },
        None => None,
    }
}

/// The access token of the remembered sign-in: the `access_token` member
/// of the remembered answer, when that is a string.
pub fn get_slack_token(state: &SlackOAuthState) -> (r: Option<String>)
    ensures
        match r {
            Some(t) => slack_token_of(*state) == Some(t@),
            None => slack_token_of(*state) is None,
        },
{
    match &state.auth_result {
        Some(doc) => match doc.field_text("access_token") {
            Some(t) => Some(owned(t)),
            None => None,
        },
        None => None,
    }
}

/// What the sign-in remembers is what the poller and the front end read
/// back: after a token answer is recorded, the token read is that
/// answer's access token.
pub proof fn lemma_recorded_token_is_read(state: SlackOAuthState, answer: Json)
    ensures
        slack_token_of(SlackOAuthState { auth_result: Some(answer), ..state }) == access_token_of(
            answer,
        ),
{
}

} // verus!
