//! Signing in with Hack Club: the authorization URL, the exchange of the
//! authorization code for a token, and the answer to the front end's
//! question for the result.
use vstd::prelude::*;
use crate::json::{
    Json, entry_value, has_key, is_first_key, lemma_entry_value_other, lemma_first_key_unique,
};
use crate::oauth::{
    JsonReply, access_token, access_token_of, authorize_url, authorize_url_result, callback_url,
    pair_views, reply_document, reply_error, required, text_pair,
};
use crate::text::{concat, decimal, decimal_string, owned, text_eq, trim, trim_range, chars_of,
    string_of};

verus! {

/// What the Hack Club sign-in remembers: the last token answer, with the
/// identity of its owner when that could be fetched.
pub struct HackClubOAuthState {
    pub auth_result: Option<Json>,
}

impl HackClubOAuthState {
    /// Nothing remembered yet.
    pub fn new() -> (s: HackClubOAuthState)
        ensures
            s.auth_result is None,
    {
        HackClubOAuthState { auth_result: None }
    }

    /// Remembers a token answer.
    pub fn record(&mut self, result: Json)
        ensures
            final(self).auth_result == Some(result),
    {
        self.auth_result = Some(result);
    }
}

// ---------------------------------------------------------------------
// The authorization URL
// ---------------------------------------------------------------------

/// Asking for a maximum age adds it as the last pair of the query, with
/// its decimal value, whether or not a fresh login is asked for; and the
/// pair that asks for a fresh login is there exactly when `prompt_login`
/// is `Some(true)`.
pub proof fn lemma_hackclub_query_options(client_id: Seq<char>, prompt_login: Option<bool>, age: u32)
    ensures
        hackclub_authorize_pairs(client_id, prompt_login, Some(age)) == hackclub_authorize_pairs(
            client_id,
            prompt_login,
            None,
        ).push(("max_age"@, decimal(age as nat))),
        hackclub_authorize_pairs(client_id, prompt_login, Some(age)).last() == ("max_age"@, decimal(
            age as nat,
        )),
        hackclub_authorize_pairs(client_id, prompt_login, None).contains(("prompt"@, "login"@))
            <==> prompt_login == Some(true),
        hackclub_authorize_pairs(client_id, prompt_login, None).len() == if prompt_login == Some(
            true,
        ) {
            6int
        } else {
            5int
        },
{
    reveal_strlit("prompt");
    reveal_strlit("login");
    reveal_strlit("client_id");
    reveal_strlit("scope");
    reveal_strlit("response_type");
    reveal_strlit("redirect_uri");
    reveal_strlit("state");
    let base = hackclub_authorize_pairs(client_id, prompt_login, None);
    assert(hackclub_authorize_pairs(client_id, prompt_login, Some(age)) =~= base.push(
        ("max_age"@, decimal(age as nat)),
    ));
    if prompt_login == Some(true) {
        assert(base[5] == ("prompt"@, "login"@));
    } else {
        if base.contains(("prompt"@, "login"@)) {
            let k = choose|k: int| 0 <= k < base.len() && base[k] == ("prompt"@, "login"@);
            assert(base[k].0 != "prompt"@) by {
                if k == 0 {
                    assert(base[k].0[0] != "prompt"@[0]);
                } else if k == 1 {
                    assert(base[k].0[0] != "prompt"@[0]);
                } else if k == 2 {
                    assert(base[k].0[1] != "prompt"@[1]);
                } else if k == 3 {
                    assert(base[k].0[1] != "prompt"@[1]);
                } else {
                    assert(base[k].0[0] != "prompt"@[0]);
                }
            }
        }
    }
}

/// The query of the authorization URL.
pub open spec fn hackclub_authorize_pairs(
    client_id: Seq<char>,
    prompt_login: Option<bool>,
    max_age: Option<u32>,
) -> Seq<(Seq<char>, Seq<char>)> {
    seq![
        ("client_id"@, client_id),
        ("scope"@, "openid profile email name slack_id verification_status"@),
        ("response_type"@, "code"@),
        ("redirect_uri"@, callback_url()),
        ("state"@, "hackclub"@),
    ] + (if prompt_login == Some(true) {
        seq![("prompt"@, "login"@)]
    } else {
        Seq::empty()
    }) + (match max_age {
        Some(age) => seq![("max_age"@, decimal(age as nat))],
        None => Seq::empty(),
    })
}

/// The query of the authorization URL.
pub fn hackclub_authorize_query(client_id: &str, prompt_login: Option<bool>, max_age: Option<u32>) -> (r:
    Vec<(String, String)>)
    ensures
        pair_views(r@) == hackclub_authorize_pairs(client_id@, prompt_login, max_age),
{
    let mut pairs: Vec<(String, String)> = Vec::new();
    pairs.push(text_pair("client_id", client_id));
    pairs.push(text_pair("scope", "openid profile email name slack_id verification_status"));
    pairs.push(text_pair("response_type", "code"));
    pairs.push(text_pair("redirect_uri", "http://localhost:3001/callback"));
    pairs.push(text_pair("state", "hackclub"));
    match prompt_login {
        Some(true) => pairs.push(text_pair("prompt", "login")),
        _ => {},
    }
    match max_age {
        Some(age) => {
            let a = decimal_string(age as u64);
            pairs.push(text_pair("max_age", &a));
        },
        None => {},
    }
    proof {
        assert(pair_views(pairs@) =~= hackclub_authorize_pairs(client_id@, prompt_login, max_age));
    }
    pairs
}

/// The URL at which the user signs in with Hack Club, given the client id
/// that the environment holds (`HACKCLUB_CLIENT_ID`).
pub fn start_hackclub_oauth(prompt_login: Option<bool>, max_age: Option<u32>, client_id: Option<
    String,
>) -> (r: Result<String, String>)
    ensures
        client_id is None ==> (r matches Err(e) && e@ == "Missing HACKCLUB_CLIENT_ID env var"@),
        client_id is Some ==> authorize_url_result(
            r,
            "https://auth.hackclub.com/oauth/authorize"@,
            hackclub_authorize_pairs(client_id->0@, prompt_login, max_age),
            "Failed to build auth URL: "@,
        ),
{
    let client_id = match required(client_id, "Missing HACKCLUB_CLIENT_ID env var") {
        Ok(id) => id,
        Err(e) => return Err(e),
    };
    let pairs = hackclub_authorize_query(&client_id, prompt_login, max_age);
    authorize_url("https://auth.hackclub.com/oauth/authorize", &pairs, "Failed to build auth URL: ")
}

// ---------------------------------------------------------------------
// The token exchange
// ---------------------------------------------------------------------

/// The form of the token request.
pub open spec fn hackclub_token_pairs(client_id: Seq<char>, client_secret: Seq<char>, code: Seq<
    char,
>) -> Seq<(Seq<char>, Seq<char>)> {
    seq![
        ("client_id"@, client_id),
        ("client_secret"@, client_secret),
        ("code"@, code),
        ("redirect_uri"@, callback_url()),
        ("grant_type"@, "authorization_code"@),
    ]
}

/// The form of the token request for `code`, given the client id and
/// secret that the environment holds.
pub fn hackclub_token_form(client_id: Option<String>, client_secret: Option<String>, code: &str) -> (r:
    Result<Vec<(String, String)>, String>)
    ensures
        client_id is None ==> (r matches Err(e) && e@ == "Missing HACKCLUB_CLIENT_ID env var"@),
        client_id is Some && client_secret is None ==> (r matches Err(e) && e@
            == "Missing HACKCLUB_CLIENT_SECRET env var"@),
        client_id is Some && client_secret is Some ==> (r matches Ok(form) && pair_views(form@)
            == hackclub_token_pairs(client_id->0@, client_secret->0@, code@)),
{
    let id = match required(client_id, "Missing HACKCLUB_CLIENT_ID env var") {
        Ok(id) => id,
        Err(e) => return Err(e),
    };
    let secret = match required(client_secret, "Missing HACKCLUB_CLIENT_SECRET env var") {
        Ok(s) => s,
        Err(e) => return Err(e),
    };
    let mut form: Vec<(String, String)> = Vec::new();
    form.push(text_pair("client_id", &id));
    form.push(text_pair("client_secret", &secret));
    form.push(text_pair("code", code));
    form.push(text_pair("redirect_uri", "http://localhost:3001/callback"));
    form.push(text_pair("grant_type", "authorization_code"));
    proof {
        assert(pair_views(form@) =~= hackclub_token_pairs(id@, secret@, code@));
    }
    Ok(form)
}

/// Where the token exchange goes after the token answer.
pub enum HackClubToken {
    /// The exchange failed; the message.
    Failed(String),
    /// The answer holds an access token: the owner's identity is fetched
    /// with it, to be added to the answer.
    FetchIdentity { access_token: String, answer: Json },
    /// The answer holds no access token; it is the result as it is.
    Complete(Json),
}

/// Where the token exchange goes after the token answer: a failure to
/// send, to read or to parse is reported after its prefix; an answer with
/// an access token has its owner's identity fetched; any other answer is
/// the result.
pub fn hackclub_token_reply(reply: JsonReply) -> (r: HackClubToken)
    ensures
        match reply {
            JsonReply::Body(Ok(doc)) => match access_token_of(doc) {
                Some(t) => r matches HackClubToken::FetchIdentity { access_token, answer } && access_token@
                    == t && answer == doc,
                None => r == HackClubToken::Complete(doc),
            },
            _ => r matches HackClubToken::Failed(e) && Some(e@) == reply_error(
                reply,
                "Failed to exchange code: "@,
                "Failed to read response text: "@,
                "Failed to parse response: "@,
            ),
        },
{
    match reply_document(
        reply,
        "Failed to exchange code: ",
        "Failed to read response text: ",
        "Failed to parse response: ",
    ) {
        Err(e) => HackClubToken::Failed(e),
        Ok(doc) => match access_token(&doc) {
            Some(t) => HackClubToken::FetchIdentity { access_token: t, answer: doc },
            None => HackClubToken::Complete(doc),
        },
    }
}

/// `entries` with the member `key` set to `value`: the first entry with
/// that key gets the value, or a new entry is added at the end.
pub open spec fn set_member(entries: Seq<(String, Json)>, key: Seq<char>, value: Json) -> Seq<
    (Seq<char>, Json),
> {
    let keyed = entries.map_values(|e: (String, Json)| (e.0@, e.1));
    if has_key(entries, key) {
        let i = choose|i: int| is_first_key(entries, key, i);
        keyed.update(i, (key, value))
    } else {
        keyed.push((key, value))
    }
}

/// The entries of an object, each key by its text.
pub open spec fn keyed_entries(doc: Json) -> Seq<(Seq<char>, Json)> {
    match doc {
        Json::Object(entries) => entries@.map_values(|e: (String, Json)| (e.0@, e.1)),
        _ => Seq::empty(),
    }
}

/// The token answer with the owner's identity added as its
/// `identity_info` member, when the identity could be fetched and read;
/// otherwise the answer unchanged.
pub fn attach_identity(answer: Json, identity: JsonReply) -> (r: Json)
    requires
        answer is Object,
    ensures
        identity matches JsonReply::Body(Ok(me)) ==> (r is Object && keyed_entries(r)
            == set_member(answer->Object_0@, "identity_info"@, me)),
        identity matches JsonReply::Body(Ok(me)) ==> r.field("identity_info"@) == Some(me),
        forall|key: Seq<char>| key != "identity_info"@ ==> r.field(key) == answer.field(key),
        !(identity matches JsonReply::Body(Ok(_))) ==> r == answer,
{
    let me = match identity {
        JsonReply::Body(Ok(me)) => me,
        _ => return answer,
    };
    match answer {
        Json::Object(mut entries) => {
            let ghost old_entries = entries@;
            let ghost old_vec = entries;
            let mut i: usize = 0;
            while i < entries.len()
                invariant
                    i <= entries@.len(),
                    identity == JsonReply::Body(Ok(me)),
                    answer == Json::Object(old_vec),
                    old_vec@ == old_entries,
                    entries@ == old_entries,
                    forall|k: int| 0 <= k < i ==> entries@[k].0@ != "identity_info"@,
                decreases entries@.len() - i,
            {
                if text_eq(entries[i].0.as_str(), "identity_info") {
                    let key = entries[i].0.clone();
                    entries.set(i, (key, me));
                    proof {
                        assert(is_first_key(old_entries, "identity_info"@, i as int));
                        assert(has_key(old_entries, "identity_info"@));
                        let j = choose|j: int| is_first_key(old_entries, "identity_info"@, j);
                        lemma_first_key_unique(old_entries, "identity_info"@, i as int);
                        assert(is_first_key(old_entries, "identity_info"@, j));
                        if j < i {
                            assert(old_entries[j].0@ != "identity_info"@);
                        }
                        if i < j {
                            assert(old_entries[i as int].0@ != "identity_info"@);
                        }
                        assert(entries@.map_values(|e: (String, Json)| (e.0@, e.1))
                            =~= set_member(old_entries, "identity_info"@, me));
                        lemma_first_key_unique(entries@, "identity_info"@, i as int);
                        assert forall|key: Seq<char>| key != "identity_info"@ implies entry_value(
                            entries@,
                            key,
                        ) == entry_value(old_entries, key) by {
                            lemma_entry_value_other(old_entries, entries@, "identity_info"@, key);
                        }
                    }
                    return Json::Object(entries);
                }
                i = i + 1;
            }
            assert(!has_key(old_entries, "identity_info"@));
            let key = owned("identity_info");
            entries.push((key, me));
            proof {
                let n = old_entries.len() as int;
                assert(is_first_key(entries@, "identity_info"@, n));
                lemma_first_key_unique(entries@, "identity_info"@, n);
                assert forall|key: Seq<char>| key != "identity_info"@ implies entry_value(
                    entries@,
                    key,
                ) == entry_value(old_entries, key) by {
                    lemma_entry_value_other(old_entries, entries@, "identity_info"@, key);
                }
            }
            assert(entries@.map_values(|e: (String, Json)| (e.0@, e.1)) =~= set_member(
                old_entries,
                "identity_info"@,
                me,
            ));
            Json::Object(entries)
        },
        other => other,
    }
}

// ---------------------------------------------------------------------
// Answering the front end
// ---------------------------------------------------------------------

/// The file in which the callback server leaves the authorization code.
#[derive(Clone, Copy, Debug, PartialEq, Eq)]
pub enum CodeFile {
    /// In the application's data directory.
    DataDir,
    /// Beside the callback server's script.
    Beside,
}

/// What answering the front end's question for the sign-in result begins
/// with.
pub enum AuthLookup {
    /// The answer, at once.
    Answer(Result<Json, String>),
    /// The authorization code is to be read from this file.
    ReadCode(CodeFile),
}

/// How the question for the Hack Club sign-in result begins: a
/// remembered result is the answer; else the code is read from the file
/// in the data directory, or else from the one beside the callback
/// script; with neither, there is no result yet.
pub fn hackclub_auth_lookup(cached: Option<Json>, data_dir_file_exists: bool, beside_file_exists: bool) -> (r:
    AuthLookup)
    ensures
        cached is Some ==> r == AuthLookup::Answer(Ok(cached->0)),
        cached is None && data_dir_file_exists ==> r == AuthLookup::ReadCode(CodeFile::DataDir),
        cached is None && !data_dir_file_exists && beside_file_exists ==> r == AuthLookup::ReadCode(
            CodeFile::Beside,
        ),
        cached is None && !data_dir_file_exists && !beside_file_exists ==> (r matches AuthLookup::Answer(
            Err(e),
        ) && e@ == "No auth result yet"@),
{
    match cached {
        Some(result) => AuthLookup::Answer(Ok(result)),
        None => {
            if data_dir_file_exists {
                AuthLookup::ReadCode(CodeFile::DataDir)
            } else if beside_file_exists {
                AuthLookup::ReadCode(CodeFile::Beside)
            } else {
                AuthLookup::Answer(Err(owned("No auth result yet")))
            }
        },
    }
}

/// The authorization code that a code file holds: its text, trimmed; a
/// failure to read it is reported after `read_failure`, and an empty code
/// is `empty_message`.
pub fn auth_code(read: Result<String, String>, read_failure: &str, empty_message: &str) -> (r: Result<
    String,
    String,
>)
    ensures
        read matches Err(e) ==> (r matches Err(m) && m@ == read_failure@ + e@),
        read matches Ok(text) ==> (trim(text@).len() == 0 ==> (r matches Err(m) && m@
            == empty_message@)),
        read matches Ok(text) ==> (trim(text@).len() > 0 ==> (r matches Ok(code) && code@ == trim(
            text@,
        ))),
{
    match read {
        Err(e) => Err(concat(read_failure, &e)),
        Ok(text) => {
            let cs = chars_of(&text);
            let (a, b) = trim_range(&cs, 0, cs.len());
            assert(cs@.subrange(0, cs@.len() as int) =~= cs@);
            if a == b {
                Err(owned(empty_message))
            } else {
                Ok(string_of(&cs, a, b))
            }
        },
    }
}

/// The answer once the code has been exchanged: the exchange's result;
/// the code file is removed only after a successful exchange.
pub fn hackclub_auth_exchanged(exchanged: Result<Json, String>) -> (r: (bool, Result<Json, String>))
    ensures
        r.0 == exchanged is Ok,
        r.1 == exchanged,
{
    let ok = exchanged.is_ok();
    (ok, exchanged)
}

/// Ends a Hack Club code exchange: a successful answer (with the owner's
/// identity where it was fetched) is remembered as the sign-in; a failure
/// is handed on with the sign-in untouched.
pub fn record_hackclub_exchange(state: &mut HackClubOAuthState, answer: Result<Json, String>) -> (r:
    Result<(), String>)
    ensures
        answer matches Ok(doc) ==> r is Ok && final(state).auth_result == Some(doc),
        answer matches Err(e) ==> r == Err::<(), String>(e) && *final(state) == *old(state),
{
    match answer {
        Ok(doc) => {
            state.record(doc);
            Ok(())
        },
        Err(e) => Err(e),
    }
}

} // verus!
