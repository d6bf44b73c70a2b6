use orpheus_buddy::json::Json;
use orpheus_buddy::oauth::JsonReply;
use orpheus_buddy::slack::SlackOAuthState;
use orpheus_buddy::slack_poll::{
    conversation_ids_of, poller_token, read_channel_history, read_dm_history, record_slack_user,
    ChannelCursors, NotificationKind, PollNext, PollPhase, SlackNotification,
    SlackNotificationState, SlackPoll, SlackRequest,
};

fn text(s: &str) -> Json {
    Json::Text(s.to_string())
}

fn object(entries: Vec<(&str, Json)>) -> Json {
    Json::Object(entries.into_iter().map(|(k, v)| (k.to_string(), v)).collect())
}

fn message(ts: Option<&str>, body: Option<&str>) -> Json {
    let mut e = vec![];
    if let Some(t) = ts {
        e.push(("ts", text(t)));
    }
    if let Some(b) = body {
        e.push(("text", text(b)));
    }
    object(e)
}

fn history(msgs: Vec<Json>) -> Json {
    object(vec![("ok", Json::Bool(true)), ("messages", Json::Array(msgs))])
}

fn channel_list(ids: Vec<Option<&str>>) -> Json {
    object(vec![(
        "channels",
        Json::Array(
            ids.into_iter()
                .map(|id| match id {
                    Some(i) => object(vec![("id", text(i))]),
                    None => object(vec![("name", text("no id"))]),
                })
                .collect(),
        ),
    )])
}

fn summary(n: &SlackNotification) -> (NotificationKind, Option<String>, String, String) {
    (n.kind, n.channel_id.clone(), n.text.clone(), n.ts.clone())
}

fn user_state() -> SlackNotificationState {
    let mut s = SlackNotificationState::new();
    s.user_id = Some("U1".to_string());
    s
}

#[test]
fn starting_state() {
    let s = SlackNotificationState::new();
    assert_eq!(s.last_dm_ts, "0");
    assert_eq!(s.last_mention_ts, "0");
    assert!(s.user_id.is_none());
}

#[test]
fn poller_needs_a_token() {
    assert_eq!(poller_token(&SlackOAuthState::new()), Err("Slack not authenticated".to_string()));
    let mut auth = SlackOAuthState::new();
    auth.record(object(vec![("access_token", text("xoxp"))]));
    assert_eq!(poller_token(&auth), Ok("xoxp".to_string()));
}

#[test]
fn auth_test_names_the_user() {
    let mut s = SlackNotificationState::new();
    assert_eq!(record_slack_user(&mut s, JsonReply::Body(Ok(object(vec![("user_id", text("U9"))])))), Ok(()));
    assert_eq!(s.user_id, Some("U9".to_string()));
    assert_eq!(record_slack_user(&mut s, JsonReply::Body(Ok(object(vec![("ok", Json::Bool(false))])))), Ok(()));
    assert_eq!(s.user_id, Some("U9".to_string()));
    assert_eq!(
        record_slack_user(&mut s, JsonReply::SendFailed("offline".into())),
        Err("Failed to get user ID: offline".to_string())
    );
    assert_eq!(
        record_slack_user(&mut s, JsonReply::Body(Err("bad".into()))),
        Err("Failed to parse auth.test: bad".to_string())
    );
}

#[test]
fn listed_ids() {
    let ids = conversation_ids_of(&channel_list(vec![Some("D1"), None, Some("D2")]));
    assert_eq!(ids, vec!["D1".to_string(), "D2".to_string()]);
    assert!(conversation_ids_of(&object(vec![("channels", text("x"))])).is_empty());
    assert!(conversation_ids_of(&Json::Null).is_empty());
}

#[test]
fn direct_messages_are_announced_in_order() {
    let mut s = user_state();
    let h = history(vec![
        message(Some("1.1"), Some("hi")),
        message(Some("1.2"), None),
        message(None, Some("no ts")),
        message(Some("1.3"), Some("there")),
    ]);
    let notes = read_dm_history(&h, &mut s);
    assert_eq!(
        notes.iter().map(summary).collect::<Vec<_>>(),
        vec![
            (NotificationKind::Dm, None, "hi".to_string(), "1.1".to_string()),
            (NotificationKind::Dm, None, "there".to_string(), "1.3".to_string()),
        ]
    );
    assert_eq!(s.last_dm_ts, "1.3");
    // a history without messages announces nothing and keeps the last one
    let notes = read_dm_history(&object(vec![("ok", Json::Bool(false))]), &mut s);
    assert!(notes.is_empty());
    assert_eq!(s.last_dm_ts, "1.3");
}

#[test]
fn mentions_are_announced_and_the_cursor_moves_to_the_newest() {
    let mut cursors = ChannelCursors::new();
    assert_eq!(cursors.cursor("C1"), "0");
    let h = history(vec![
        message(Some("5.0"), Some("hello <@U1>!")),
        message(Some("7.0"), Some("unrelated")),
        message(Some("6.0"), Some("<@U2> and <@U1>")),
        message(Some("4.0"), Some("<@U1")),
    ]);
    let notes = read_channel_history(&h, "C1", "0", "U1", &mut cursors);
    assert_eq!(
        notes.iter().map(summary).collect::<Vec<_>>(),
        vec![
            (NotificationKind::Mention, Some("C1".to_string()), "hello <@U1>!".to_string(), "5.0".to_string()),
            (NotificationKind::Mention, Some("C1".to_string()), "<@U2> and <@U1>".to_string(), "6.0".to_string()),
        ]
    );
    assert_eq!(cursors.cursor("C1"), "7.0");
    assert_eq!(cursors.cursor("C2"), "0");
    // an older cursor is kept when nothing newer comes
    let notes = read_channel_history(&history(vec![message(Some("3.0"), Some("x"))]), "C1", "7.0", "U1", &mut cursors);
    assert!(notes.is_empty());
    assert_eq!(cursors.cursor("C1"), "7.0");
    // no messages: the cursor is not touched
    read_channel_history(&object(vec![]), "C2", "0", "U1", &mut cursors);
    assert_eq!(cursors.cursor("C2"), "0");
}

#[test]
fn cursors_keep_other_channels() {
    let mut c = ChannelCursors::new();
    c.set("A", "1".to_string());
    c.set("B", "2".to_string());
    c.set("A", "3".to_string());
    assert_eq!(c.cursor("A"), "3");
    assert_eq!(c.cursor("B"), "2");
    assert_eq!(c.cursor("C"), "0");
}

fn expect_history(next: &PollNext, channel: &str, oldest: &str, limit: &str) {
    match next {
        PollNext::Send(SlackRequest::History { channel: c, oldest: o, limit: l }) => {
            assert_eq!((c.as_str(), o.as_str(), l.as_str()), (channel, oldest, limit));
        }
        _ => panic!("expected a history request"),
    }
}

fn expect_list(next: &PollNext, types: &str, limit: &str) {
    match next {
        PollNext::Send(SlackRequest::ListConversations { types: t, limit: l }) => {
            assert_eq!((t.as_str(), l.as_str()), (types, limit));
        }
        _ => panic!("expected a list request"),
    }
}

#[test]
fn a_whole_round_of_polling() {
    let mut state = user_state();
    state.last_dm_ts = "10.0".to_string();
    let mut cursors = ChannelCursors::new();
    cursors.set("C2", "20.0".to_string());
    let (mut poll, first) = SlackPoll::start(&state).unwrap();
    match first {
        SlackRequest::ListConversations { types, limit } => assert_eq!((types.as_str(), limit.as_str()), ("im", "20")),
        _ => panic!("expected the DM list first"),
    }
    let step = poll.on_reply(JsonReply::Body(Ok(channel_list(vec![Some("D1"), Some("D2")]))), &mut state, &mut cursors);
    assert!(step.notifications.is_empty());
    expect_history(&step.next, "D1", "10.0", "10");
    let step = poll.on_reply(JsonReply::Body(Ok(history(vec![message(Some("11.0"), Some("a"))]))), &mut state, &mut cursors);
    assert_eq!(step.notifications.len(), 1);
    assert_eq!(state.last_dm_ts, "11.0");
    // every DM history is asked since the last DM seen before the round
    expect_history(&step.next, "D2", "10.0", "10");
    let step = poll.on_reply(JsonReply::Body(Ok(history(vec![]))), &mut state, &mut cursors);
    assert!(step.notifications.is_empty());
    expect_list(&step.next, "public_channel", "50");
    let step = poll.on_reply(JsonReply::Body(Ok(channel_list(vec![Some("C1"), Some("C2")]))), &mut state, &mut cursors);
    expect_history(&step.next, "C1", "0", "20");
    let step = poll.on_reply(
        JsonReply::Body(Ok(history(vec![message(Some("30.0"), Some("hey <@U1>"))]))),
        &mut state,
        &mut cursors,
    );
    assert_eq!(step.notifications.len(), 1);
    assert_eq!(step.notifications[0].kind, NotificationKind::Mention);
    expect_history(&step.next, "C2", "20.0", "20");
    let step = poll.on_reply(JsonReply::Body(Ok(history(vec![]))), &mut state, &mut cursors);
    assert!(matches!(step.next, PollNext::Done(Ok(()))));
    assert_eq!(poll.phase, PollPhase::Finished);
    assert_eq!(cursors.cursor("C1"), "30.0");
    assert_eq!(cursors.cursor("C2"), "20.0");
}

#[test]
fn polling_errors_end_the_round() {
    let mut state = SlackNotificationState::new();
    assert_eq!(SlackPoll::start(&state).err(), Some("User ID not set".to_string()));
    state.user_id = Some("U1".to_string());
    let mut cursors = ChannelCursors::new();

    let (mut poll, _) = SlackPoll::start(&state).unwrap();
    let step = poll.on_reply(JsonReply::SendFailed("offline".into()), &mut state, &mut cursors);
    assert!(matches!(step.next, PollNext::Done(Err(ref e)) if e == "Failed to list DMs: offline"));
    assert_eq!(poll.phase, PollPhase::Finished);

    let (mut poll, _) = SlackPoll::start(&state).unwrap();
    let step = poll.on_reply(JsonReply::Body(Err("bad".into())), &mut state, &mut cursors);
    assert!(matches!(step.next, PollNext::Done(Err(ref e)) if e == "Failed to parse DM list: bad"));

    let (mut poll, _) = SlackPoll::start(&state).unwrap();
    poll.on_reply(JsonReply::Body(Ok(channel_list(vec![Some("D1")]))), &mut state, &mut cursors);
    let step = poll.on_reply(JsonReply::SendFailed("x".into()), &mut state, &mut cursors);
    assert!(matches!(step.next, PollNext::Done(Err(ref e)) if e == "Failed to get DM history: x"));

    let (mut poll, _) = SlackPoll::start(&state).unwrap();
    poll.on_reply(JsonReply::Body(Ok(channel_list(vec![]))), &mut state, &mut cursors);
    let step = poll.on_reply(JsonReply::ReadFailed("y".into()), &mut state, &mut cursors);
    assert!(matches!(step.next, PollNext::Done(Err(ref e)) if e == "Failed to parse channel list: y"));

    let (mut poll, _) = SlackPoll::start(&state).unwrap();
    poll.on_reply(JsonReply::Body(Ok(channel_list(vec![]))), &mut state, &mut cursors);
    let step = poll.on_reply(JsonReply::Body(Ok(channel_list(vec![Some("C9")]))), &mut state, &mut cursors);
    expect_history(&step.next, "C9", "0", "20");
    let step = poll.on_reply(JsonReply::SendFailed("z".into()), &mut state, &mut cursors);
    assert!(matches!(step.next, PollNext::Done(Err(ref e)) if e == "Failed to get channel history for C9: z"));

    let (mut poll, _) = SlackPoll::start(&state).unwrap();
    poll.on_reply(JsonReply::Body(Ok(channel_list(vec![]))), &mut state, &mut cursors);
    poll.on_reply(JsonReply::Body(Ok(channel_list(vec![Some("C9")]))), &mut state, &mut cursors);
    let step = poll.on_reply(JsonReply::Body(Err("w".into())), &mut state, &mut cursors);
    assert!(matches!(step.next, PollNext::Done(Err(ref e)) if e == "Failed to parse channel history: w"));
    // a finished round stays finished
    let step = poll.on_reply(JsonReply::Body(Ok(Json::Null)), &mut state, &mut cursors);
    assert!(matches!(step.next, PollNext::Done(Ok(()))));

    let (mut poll, _) = SlackPoll::start(&state).unwrap();
    poll.on_reply(JsonReply::Body(Ok(channel_list(vec![]))), &mut state, &mut cursors);
    let step = poll.on_reply(JsonReply::SendFailed("v".into()), &mut state, &mut cursors);
    assert!(matches!(step.next, PollNext::Done(Err(ref e)) if e == "Failed to list public channels: v"));

    let (mut poll, _) = SlackPoll::start(&state).unwrap();
    poll.on_reply(JsonReply::Body(Ok(channel_list(vec![Some("D1")]))), &mut state, &mut cursors);
    let step = poll.on_reply(JsonReply::Body(Err("u".into())), &mut state, &mut cursors);
    assert!(matches!(step.next, PollNext::Done(Err(ref e)) if e == "Failed to parse DM history: u"));
}

#[test]
fn a_channel_cursor_never_moves_back() {
    let mut cursors = ChannelCursors::new();
    read_channel_history(
        &history(vec![message(Some("9.5"), Some("a")), message(None, Some("b")), message(Some("10.1"), None)]),
        "C",
        "9.9",
        "U1",
        &mut cursors,
    );
    // "9.9" < "9.5" is false and "10.1" < "9.9" as text, so the cursor stays
    assert_eq!(cursors.cursor("C"), "9.9");
    read_channel_history(&history(vec![message(Some("9.95"), None)]), "C", "9.9", "U1", &mut cursors);
    assert_eq!(cursors.cursor("C"), "9.95");
}
