use orpheus_buddy::hackclub::{
    attach_identity, auth_code, hackclub_auth_exchanged, hackclub_auth_lookup, hackclub_token_form,
    hackclub_token_reply, record_hackclub_exchange, start_hackclub_oauth, AuthLookup, CodeFile,
    HackClubOAuthState, HackClubToken,
};
use orpheus_buddy::json::{Json, JsonNumber};
use orpheus_buddy::oauth::JsonReply;
use orpheus_buddy::slack::{
    get_slack_token, record_slack_exchange, slack_auth_exchanged, slack_auth_lookup,
    slack_token_form, start_slack_oauth, SlackOAuthState, SlackTokenExchange, SlackTokenStep,
};

fn dup(j: &Json) -> Json {
    match j {
        Json::Null => Json::Null,
        Json::Bool(b) => Json::Bool(*b),
        Json::Number(n) => Json::Number(n.clone()),
        Json::Text(s) => Json::Text(s.clone()),
        Json::Array(items) => Json::Array(items.iter().map(dup).collect()),
        Json::Object(entries) => Json::Object(entries.iter().map(|(k, v)| (k.clone(), dup(v))).collect()),
    }
}

fn text(s: &str) -> Json {
    Json::Text(s.to_string())
}

fn object(entries: Vec<(&str, Json)>) -> Json {
    Json::Object(entries.into_iter().map(|(k, v)| (k.to_string(), v)).collect())
}

fn pairs(v: &[(String, String)]) -> Vec<(&str, &str)> {
    v.iter().map(|(a, b)| (a.as_str(), b.as_str())).collect()
}

#[test]
fn hackclub_authorize_url() {
    let url = start_hackclub_oauth(None, None, Some("abc".to_string())).unwrap();
    assert_eq!(
        url,
        "https://auth.hackclub.com/oauth/authorize?client_id=abc&scope=openid+profile+email+name+slack_id+verification_status&response_type=code&redirect_uri=http%3A%2F%2Flocalhost%3A3001%2Fcallback&state=hackclub"
    );
}

#[test]
fn hackclub_authorize_url_with_prompt_and_max_age() {
    let url = start_hackclub_oauth(Some(true), Some(3600), Some("a b&c".to_string())).unwrap();
    assert!(url.starts_with("https://auth.hackclub.com/oauth/authorize?client_id=a+b%26c&scope="));
    assert!(url.ends_with("&state=hackclub&prompt=login&max_age=3600"));
    let url = start_hackclub_oauth(Some(false), None, Some("id".to_string())).unwrap();
    assert!(url.ends_with("&state=hackclub"));
}

#[test]
fn hackclub_authorize_url_needs_client_id() {
    assert_eq!(
        start_hackclub_oauth(None, None, None),
        Err("Missing HACKCLUB_CLIENT_ID env var".to_string())
    );
}

#[test]
fn slack_authorize_url() {
    let url = start_slack_oauth(None, Some("123.456".to_string())).unwrap();
    assert_eq!(
        url,
        "https://slack.com/oauth/v2/authorize?client_id=123.456&scope=channels%3Aread+channels%3Ahistory+im%3Aread+im%3Ahistory+users%3Aread&redirect_uri=http%3A%2F%2Flocalhost%3A3001%2Fcallback&state=slack"
    );
    assert_eq!(start_slack_oauth(Some(true), None), Err("Missing SLACK_CLIENT_ID env var".to_string()));
}

#[test]
fn token_forms() {
    let form = hackclub_token_form(Some("id".into()), Some("secret".into()), " code ").unwrap();
    assert_eq!(
        pairs(&form),
        vec![
            ("client_id", "id"),
            ("client_secret", "secret"),
            ("code", " code "),
            ("redirect_uri", "http://localhost:3001/callback"),
            ("grant_type", "authorization_code"),
        ]
    );
    assert_eq!(
        hackclub_token_form(None, Some("s".into()), "c"),
        Err("Missing HACKCLUB_CLIENT_ID env var".to_string())
    );
    assert_eq!(
        hackclub_token_form(Some("i".into()), None, "c"),
        Err("Missing HACKCLUB_CLIENT_SECRET env var".to_string())
    );
    let form = slack_token_form(Some("id".into()), Some("secret".into()), " code\n").unwrap();
    assert_eq!(
        pairs(&form),
        vec![
            ("client_id", "id"),
            ("client_secret", "secret"),
            ("code", "code"),
            ("redirect_uri", "http://localhost:3001/callback"),
        ]
    );
    assert_eq!(slack_token_form(None, None, "c"), Err("Missing SLACK_CLIENT_ID env var".to_string()));
    assert_eq!(
        slack_token_form(Some("i".into()), None, "c"),
        Err("Missing SLACK_CLIENT_SECRET env var".to_string())
    );
}

#[test]
fn hackclub_token_replies() {
    match hackclub_token_reply(JsonReply::SendFailed("timeout".into())) {
        HackClubToken::Failed(e) => assert_eq!(e, "Failed to exchange code: timeout"),
        _ => panic!("expected a failure"),
    }
    match hackclub_token_reply(JsonReply::ReadFailed("reset".into())) {
        HackClubToken::Failed(e) => assert_eq!(e, "Failed to read response text: reset"),
        _ => panic!("expected a failure"),
    }
    match hackclub_token_reply(JsonReply::Body(Err("EOF".into()))) {
        HackClubToken::Failed(e) => assert_eq!(e, "Failed to parse response: EOF"),
        _ => panic!("expected a failure"),
    }
    let answer = object(vec![("access_token", text("tok")), ("token_type", text("Bearer"))]);
    match hackclub_token_reply(JsonReply::Body(Ok(dup(&answer)))) {
        HackClubToken::FetchIdentity { access_token, answer: a } => {
            assert_eq!(access_token, "tok");
            assert_eq!(a, answer);
        }
        _ => panic!("expected an identity fetch"),
    }
    let answer = object(vec![("error", text("invalid_grant"))]);
    match hackclub_token_reply(JsonReply::Body(Ok(dup(&answer)))) {
        HackClubToken::Complete(a) => assert_eq!(a, answer),
        _ => panic!("expected the answer as it is"),
    }
}

#[test]
fn identity_is_attached_to_the_answer() {
    let answer = object(vec![("access_token", text("tok"))]);
    let me = object(vec![("name", text("Orpheus"))]);
    let r = attach_identity(answer, JsonReply::Body(Ok(dup(&me))));
    assert_eq!(r, object(vec![("access_token", text("tok")), ("identity_info", dup(&me))]));
    // an existing member is replaced where it stands
    let answer = object(vec![("identity_info", Json::Null), ("access_token", text("tok"))]);
    let r = attach_identity(answer, JsonReply::Body(Ok(dup(&me))));
    assert_eq!(r, object(vec![("identity_info", dup(&me)), ("access_token", text("tok"))]));
    // a failed identity request leaves the answer as it is
    let answer = object(vec![("access_token", text("tok"))]);
    let r = attach_identity(dup(&answer), JsonReply::SendFailed("down".into()));
    assert_eq!(r, answer);
    let r = attach_identity(dup(&answer), JsonReply::Body(Err("bad".into())));
    assert_eq!(r, answer);
}

#[test]
fn hackclub_lookup() {
    let cached = object(vec![("access_token", text("t"))]);
    match hackclub_auth_lookup(Some(dup(&cached)), true, true) {
        AuthLookup::Answer(Ok(a)) => assert_eq!(a, cached),
        _ => panic!("expected the remembered result"),
    }
    assert!(matches!(hackclub_auth_lookup(None, true, true), AuthLookup::ReadCode(CodeFile::DataDir)));
    assert!(matches!(hackclub_auth_lookup(None, false, true), AuthLookup::ReadCode(CodeFile::Beside)));
    match hackclub_auth_lookup(None, false, false) {
        AuthLookup::Answer(Err(e)) => assert_eq!(e, "No auth result yet"),
        _ => panic!("expected no result"),
    }
}

#[test]
fn auth_codes_are_trimmed() {
    assert_eq!(auth_code(Ok("  abc\n".into()), "F: ", "none"), Ok("abc".to_string()));
    assert_eq!(auth_code(Ok(" \n\t".into()), "F: ", "none"), Err("none".to_string()));
    assert_eq!(auth_code(Err("denied".into()), "F: ", "none"), Err("F: denied".to_string()));
    let (remove, r) = hackclub_auth_exchanged(Err("x".into()));
    assert!(!remove);
    assert_eq!(r, Err("x".to_string()));
    let (remove, r) = hackclub_auth_exchanged(Ok(Json::Null));
    assert!(remove);
    assert_eq!(r, Ok(Json::Null));
}

#[test]
fn remembered_results() {
    let mut state = HackClubOAuthState::new();
    assert!(state.auth_result.is_none());
    state.record(Json::Bool(true));
    assert_eq!(state.auth_result, Some(Json::Bool(true)));

    let mut slack = SlackOAuthState::new();
    assert_eq!(get_slack_token(&slack), None);
    slack.record(object(vec![("access_token", text("xoxp-1"))]));
    assert_eq!(get_slack_token(&slack), Some("xoxp-1".to_string()));
    slack.record(object(vec![("access_token", Json::Number(JsonNumber { literal: "1".into(), as_u64: Some(1), as_u32_lossy: 1 }))]));
    assert_eq!(get_slack_token(&slack), None);
    // a failed exchange forgets the remembered result
    let r = slack_auth_exchanged(&mut slack, Err("boom".into()));
    assert_eq!(r, Err("boom".to_string()));
    assert!(slack.auth_result.is_none());
    slack.record(Json::Null);
    let r = slack_auth_exchanged(&mut slack, Ok(Json::Bool(false)));
    assert_eq!(r, Ok(Json::Bool(false)));
    assert_eq!(slack.auth_result, Some(Json::Null));
}

#[test]
fn slack_lookup() {
    assert!(matches!(slack_auth_lookup(true, Some(Json::Null)), AuthLookup::ReadCode(CodeFile::DataDir)));
    match slack_auth_lookup(false, Some(Json::Bool(true))) {
        AuthLookup::Answer(Ok(a)) => assert_eq!(a, Json::Bool(true)),
        _ => panic!("expected the remembered result"),
    }
    match slack_auth_lookup(false, None) {
        AuthLookup::Answer(Err(e)) => assert_eq!(e, "No slack auth result yet"),
        _ => panic!("expected no result"),
    }
}

fn refusal(error: Option<&str>) -> JsonReply {
    let mut entries = vec![("ok", Json::Bool(false))];
    if let Some(e) = error {
        entries.push(("error", text(e)));
    }
    JsonReply::Body(Ok(object(entries)))
}

#[test]
fn slack_exchange_retries_internal_errors_twice() {
    let mut x = SlackTokenExchange::new();
    assert!(matches!(x.on_reply(refusal(Some("internal_error"))), SlackTokenStep::Retry));
    assert_eq!(x.attempt, 1);
    assert!(matches!(x.on_reply(refusal(Some("internal_error"))), SlackTokenStep::Retry));
    assert_eq!(x.attempt, 2);
    match x.on_reply(refusal(Some("internal_error"))) {
        SlackTokenStep::Finish(Err(e)) => assert_eq!(e, "Slack OAuth error: internal_error"),
        _ => panic!("expected the exchange to give up"),
    }
}

#[test]
fn slack_exchange_outcomes() {
    let mut x = SlackTokenExchange::new();
    match x.on_reply(refusal(Some("invalid_code"))) {
        SlackTokenStep::Finish(Err(e)) => assert_eq!(e, "Slack OAuth error: invalid_code"),
        _ => panic!("expected a refusal"),
    }
    let mut x = SlackTokenExchange::new();
    match x.on_reply(refusal(None)) {
        SlackTokenStep::Finish(Err(e)) => assert_eq!(e, "Slack OAuth error: unknown_error"),
        _ => panic!("expected a refusal"),
    }
    let answer = object(vec![("ok", Json::Bool(true)), ("access_token", text("xoxp"))]);
    let mut x = SlackTokenExchange::new();
    match x.on_reply(JsonReply::Body(Ok(dup(&answer)))) {
        SlackTokenStep::Finish(Ok(a)) => assert_eq!(a, answer),
        _ => panic!("expected the answer"),
    }
    let mut x = SlackTokenExchange::new();
    match x.on_reply(JsonReply::Body(Ok(object(vec![("ok", Json::Bool(true))])))) {
        SlackTokenStep::Finish(Err(e)) => assert_eq!(e, "No access_token in response"),
        _ => panic!("expected an error"),
    }
    let mut x = SlackTokenExchange::new();
    match x.on_reply(JsonReply::SendFailed("dns".into())) {
        SlackTokenStep::Finish(Err(e)) => assert_eq!(e, "Failed to exchange slack code: dns"),
        _ => panic!("expected an error"),
    }
    let mut x = SlackTokenExchange::new();
    match x.on_reply(JsonReply::ReadFailed("eof".into())) {
        SlackTokenStep::Finish(Err(e)) => assert_eq!(e, "Failed to read response text: eof"),
        _ => panic!("expected an error"),
    }
    let mut x = SlackTokenExchange::new();
    match x.on_reply(JsonReply::Body(Err("bad json".into()))) {
        SlackTokenStep::Finish(Err(e)) => assert_eq!(e, "Failed to parse response: bad json"),
        _ => panic!("expected an error"),
    }
}

#[test]
fn a_finished_slack_exchange_is_remembered() {
    let mut state = SlackOAuthState::new();
    assert_eq!(record_slack_exchange(&mut state, SlackTokenStep::Retry), None);
    assert!(state.auth_result.is_none());
    let failed = record_slack_exchange(&mut state, SlackTokenStep::Finish(Err("Slack OAuth error: invalid_code".to_string())));
    assert_eq!(failed, Some(Err("Slack OAuth error: invalid_code".to_string())));
    assert!(state.auth_result.is_none());
    let answer = object(vec![("ok", Json::Bool(true)), ("access_token", text("xoxp-1"))]);
    assert_eq!(record_slack_exchange(&mut state, SlackTokenStep::Finish(Ok(dup(&answer)))), Some(Ok(())));
    assert_eq!(state.auth_result, Some(answer));
    assert_eq!(get_slack_token(&state), Some("xoxp-1".to_string()));
    // a later failure leaves the sign-in as it was
    let _ = record_slack_exchange(&mut state, SlackTokenStep::Finish(Err("dns".to_string())));
    assert_eq!(get_slack_token(&state), Some("xoxp-1".to_string()));
}

#[test]
fn a_finished_hackclub_exchange_is_remembered() {
    let mut state = HackClubOAuthState::new();
    assert_eq!(record_hackclub_exchange(&mut state, Err("Failed to parse token response: eof".to_string())), Err("Failed to parse token response: eof".to_string()));
    assert!(state.auth_result.is_none());
    let answer = object(vec![("access_token", text("tok")), ("identity_info", object(vec![("id", text("u1"))]))]);
    assert_eq!(record_hackclub_exchange(&mut state, Ok(dup(&answer))), Ok(()));
    assert_eq!(state.auth_result, Some(answer));
}
