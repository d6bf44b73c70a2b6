//! Slack notifications: every few seconds the direct messages since the
//! last one seen, and the messages of public channels that mention the
//! user, are fetched and announced.
//!
//! One round of polling is a machine: it says which request to send next,
//! takes the reply, and says which notifications to announce.
use vstd::prelude::*;
use crate::json::Json;
use crate::oauth::{JsonReply, reply_document, reply_error};
use crate::slack::{SlackOAuthState, get_slack_token, slack_token_of};
use crate::text::{
    chars_of, concat, concat3, contains_exec, contains_text, owned, text_eq, text_less,
    lemma_text_less_irreflexive, lemma_text_less_transitive,
    text_less_exec,
};

verus! {

/// What the notification poller remembers.
pub struct SlackNotificationState {
    /// The timestamp of the last direct message announced.
    pub last_dm_ts: String,
    /// The timestamp of the last mention announced.
    pub last_mention_ts: String,
    /// The user's Slack id, once known.
    pub user_id: Option<String>,
}

impl SlackNotificationState {
    /// The state before the poller starts: nothing seen, no user known.
    pub fn new() -> (s: SlackNotificationState)
        ensures
            s.last_dm_ts@ == "0"@,
            s.last_mention_ts@ == "0"@,
            s.user_id is None,
    {
        SlackNotificationState {
            last_dm_ts: owned("0"),
            last_mention_ts: owned("0"),
            user_id: None,
        }
    }
}

// ---------------------------------------------------------------------
// Starting the poller
// ---------------------------------------------------------------------

/// The token with which the poller starts: that of the remembered
/// sign-in, or an error when there is none.
pub fn poller_token(state: &SlackOAuthState) -> (r: Result<String, String>)
    ensures
        match r {
            Ok(t) => slack_token_of(*state) == Some(t@),
            Err(e) => slack_token_of(*state) is None && e@ == "Slack not authenticated"@,
        },
{
    match get_slack_token(state) {
        Some(t) => Ok(t),
        None => Err(owned("Slack not authenticated")),
    }
}

/// The user id that an `auth.test` answer names.
pub open spec fn answer_user_id(doc: Json) -> Option<Seq<char>> {
    match doc.field("user_id"@) {
        Some(v) => v.text_value(),
        None => None,
    }
}

/// The user recorded from an `auth.test` answer is the text of its
/// `user_id` member whenever that is a string, and only that member
/// counts: two answers that agree on `user_id` name the same user,
/// whatever their other members (such as `user`, the user's name) hold.
pub proof fn lemma_user_id_is_the_user_id_member(doc: Json, other: Json, v: Json, t: Seq<char>)
    requires
        doc.field("user_id"@) == Some(v),
        v.text_value() == Some(t),
    ensures
        answer_user_id(doc) == Some(t),
        other.field("user_id"@) == doc.field("user_id"@) ==> answer_user_id(other)
            == answer_user_id(doc),
{
}

/// An answer whose `user_id` member is missing or not a string names no
/// user.
pub proof fn lemma_no_user_id_member_names_no_user(doc: Json)
    requires
        match doc.field("user_id"@) {
            Some(v) => v.text_value() is None,
            None => true,
        },
    ensures
        answer_user_id(doc) is None,
{
}

/// Records the user that the `auth.test` answer names: a failure to send
/// or to read it is an error after its prefix; an answer that names a
/// user makes it the poller's user; any other answer changes nothing.
pub fn record_slack_user(state: &mut SlackNotificationState, auth_test: JsonReply) -> (r: Result<
    (),
    String,
>)
    ensures
        match auth_test {
            JsonReply::Body(Ok(doc)) => {
                &&& r is Ok
                &&& final(state).last_dm_ts == old(state).last_dm_ts
                &&& final(state).last_mention_ts == old(state).last_mention_ts
                &&& match answer_user_id(doc) {
                    Some(id) => final(state).user_id matches Some(u) && u@ == id,
                    None => final(state).user_id == old(state).user_id,
                }
            },
            _ => {
                &&& *final(state) == *old(state)
                &&& r matches Err(e) && Some(e@) == reply_error(
                    auth_test,
                    "Failed to get user ID: "@,
                    "Failed to parse auth.test: "@,
                    "Failed to parse auth.test: "@,
                )
            },
        },
{
    let doc = match reply_document(
        auth_test,
        "Failed to get user ID: ",
        "Failed to parse auth.test: ",
        "Failed to parse auth.test: ",
    ) {
        Ok(doc) => doc,
        Err(e) => return Err(e),
    };
    match doc.field_text("user_id") {
        Some(id) => {
            state.user_id = Some(owned(id));
        },
        None => {},
    }
    Ok(())
}

// ---------------------------------------------------------------------
// Where each public channel's reading stands
// ---------------------------------------------------------------------

/// `i` is the first entry of `entries` for the channel `id`.
pub open spec fn is_first_channel(entries: Seq<(String, String)>, id: Seq<char>, i: int) -> bool {
    &&& 0 <= i < entries.len()
    &&& entries[i].0@ == id
    &&& forall|k: int| 0 <= k < i ==> entries[k].0@ != id
}

/// The timestamp that the first entry for the channel `id` holds, or
/// `"0"` where there is none.
pub open spec fn cursor_in(entries: Seq<(String, String)>, id: Seq<char>) -> Seq<char> {
    if exists|i: int| 0 <= i < entries.len() && entries[i].0@ == id {
        entries[choose|i: int| is_first_channel(entries, id, i)].1@
    } else {
        "0"@
    }
}

proof fn lemma_cursor_at(entries: Seq<(String, String)>, id: Seq<char>, i: int)
    requires
        is_first_channel(entries, id, i),
    ensures
        cursor_in(entries, id) == entries[i].1@,
{
    assert(exists|i: int| 0 <= i < entries.len() && entries[i].0@ == id);
    let j = choose|j: int| is_first_channel(entries, id, j);
    assert(is_first_channel(entries, id, j)) by {
        assert(is_first_channel(entries, id, i));
    }
    if j < i {
        assert(entries[j].0@ != id);
    }
    if i < j {
        assert(entries[i].0@ != id);
    }
}

/// An entry list whose keys are those of `old`, and whose values differ
/// from those of `old` only at entries for `id`, gives every other
/// channel the same timestamp.
proof fn lemma_cursor_other(
    old: Seq<(String, String)>,
    new: Seq<(String, String)>,
    id: Seq<char>,
    other: Seq<char>,
)
    requires
        other != id,
        old.len() <= new.len(),
        forall|k: int| 0 <= k < old.len() ==> new[k].0@ == old[k].0@,
        forall|k: int| 0 <= k < old.len() && old[k].0@ != id ==> new[k].1@ == old[k].1@,
        forall|k: int| old.len() <= k < new.len() ==> new[k].0@ == id,
    ensures
        cursor_in(new, other) == cursor_in(old, other),
{
    if exists|i: int| 0 <= i < old.len() && old[i].0@ == other {
        let j = choose|i: int| 0 <= i < old.len() && old[i].0@ == other;
        let f = choose|f: int| is_first_channel(old, other, f);
        assert(exists|f: int| is_first_channel(old, other, f)) by {
            lemma_first_exists(old, other, j);
        }
        assert(is_first_channel(old, other, f));
        lemma_cursor_at(old, other, f);
        assert(is_first_channel(new, other, f));
        lemma_cursor_at(new, other, f);
    } else {
        assert(!(exists|i: int| 0 <= i < new.len() && new[i].0@ == other)) by {
            if exists|i: int| 0 <= i < new.len() && new[i].0@ == other {
                let i = choose|i: int| 0 <= i < new.len() && new[i].0@ == other;
                if i < old.len() {
                    assert(old[i].0@ == other);
                }
            }
        }
    }
}

/// Where some entry is for `id`, a first one is.
proof fn lemma_first_exists(entries: Seq<(String, String)>, id: Seq<char>, j: int)
    requires
        0 <= j < entries.len(),
        entries[j].0@ == id,
    ensures
        exists|f: int| is_first_channel(entries, id, f),
    decreases j,
{
    if forall|k: int| 0 <= k < j ==> entries[k].0@ != id {
        assert(is_first_channel(entries, id, j));
    } else {
        let k = choose|k: int| 0 <= k < j && entries[k].0@ == id;
        lemma_first_exists(entries, id, k);
    }
}

/// The timestamp of the newest message seen in each public channel.
pub struct ChannelCursors {
    entries: Vec<(String, String)>,
}

impl ChannelCursors {
    /// The timestamp of the newest message seen in the channel `id`, or
    /// `"0"` before any.
    pub closed spec fn cursor_of(self, id: Seq<char>) -> Seq<char> {
        cursor_in(self.entries@, id)
    }

    /// No channel read yet.
    pub fn new() -> (c: ChannelCursors)
        ensures
            forall|id: Seq<char>| c.cursor_of(id) == "0"@,
    {
        ChannelCursors { entries: Vec::new() }
    }

    /// The timestamp of the newest message seen in the channel `id`.
    pub fn cursor(&self, id: &str) -> (r: String)
        ensures
            r@ == self.cursor_of(id@),
    {
        let mut i: usize = 0;
        while i < self.entries.len()
            invariant
                i <= self.entries@.len(),
                forall|k: int| 0 <= k < i ==> self.entries@[k].0@ != id@,
            decreases self.entries@.len() - i,
        {
            if text_eq(self.entries[i].0.as_str(), id) {
                proof {
                    lemma_cursor_at(self.entries@, id@, i as int);
                }
                return self.entries[i].1.clone();
            }
            i = i + 1;
        }
        owned("0")
    }

    /// Records `ts` as the newest timestamp seen in the channel `id`; the
    /// other channels keep theirs.
    pub fn set(&mut self, id: &str, ts: String)
        ensures
            final(self).cursor_of(id@) == ts@,
            forall|other: Seq<char>| other != id@ ==> final(self).cursor_of(other) == old(self).cursor_of(other),
    {
        let ghost old_entries = self.entries@;
        let ghost ts_view = ts@;
        let mut i: usize = 0;
        while i < self.entries.len()
            invariant
                i <= self.entries@.len(),
                self.entries@ == old_entries,
                old_entries == old(self).entries@,
                forall|k: int| 0 <= k < i ==> self.entries@[k].0@ != id@,
            decreases self.entries@.len() - i,
        {
            if text_eq(self.entries[i].0.as_str(), id) {
                let key = self.entries[i].0.clone();
                self.entries.set(i, (key, ts));
                proof {
                    lemma_cursor_at(self.entries@, id@, i as int);
                    assert forall|other: Seq<char>| other != id@ implies cursor_in(
                        self.entries@,
                        other,
                    ) == cursor_in(old_entries, other) by {
                        lemma_cursor_other(old_entries, self.entries@, id@, other);
                    }
                }
                return;
            }
            i = i + 1;
        }
        let key = owned(id);
        self.entries.push((key, ts));
        proof {
            let n = old_entries.len() as int;
            assert(is_first_channel(self.entries@, id@, n));
            lemma_cursor_at(self.entries@, id@, n);
            assert forall|other: Seq<char>| other != id@ implies cursor_in(self.entries@, other)
                == cursor_in(old_entries, other) by {
                lemma_cursor_other(old_entries, self.entries@, id@, other);
            }
        }
    }
}

// ---------------------------------------------------------------------
// Reading the answers
// ---------------------------------------------------------------------

/// What kind of event a notification announces.
#[derive(Clone, Copy, Debug, PartialEq, Eq)]
pub enum NotificationKind {
    /// A direct message.
    Dm,
    /// A message in a public channel that mentions the user.
    Mention,
}

/// A Slack event to announce to the front end.
#[derive(Clone, Debug)]
pub struct SlackNotification {
    pub kind: NotificationKind,
    /// The channel, for a mention.
    pub channel_id: Option<String>,
    pub text: String,
    pub ts: String,
}

/// A notification, its texts by their characters.
pub struct NotificationView {
    pub kind: NotificationKind,
    pub channel_id: Option<Seq<char>>,
    pub text: Seq<char>,
    pub ts: Seq<char>,
}

impl View for SlackNotification {
    type V = NotificationView;

    open spec fn view(&self) -> NotificationView {
        NotificationView {
            kind: self.kind,
            channel_id: match self.channel_id {
                Some(c) => Some(c@),
                None => None,
            },
            text: self.text@,
            ts: self.ts@,
        }
    }
}

/// The views of a list of notifications.
pub open spec fn notes_view(ns: Seq<SlackNotification>) -> Seq<NotificationView> {
    ns.map_values(|n: SlackNotification| n@)
}

/// The texts of a list of strings.
pub open spec fn texts_view(ss: Seq<String>) -> Seq<Seq<char>> {
    ss.map_values(|s: String| s@)
}

/// The `id` of a listed conversation, when it is a string.
pub open spec fn item_id(item: Json) -> Option<Seq<char>> {
    match item.field("id"@) {
        Some(v) => v.text_value(),
        None => None,
    }
}

/// The ids of the listed conversations that have one, in order.
pub open spec fn listed_ids(items: Seq<Json>) -> Seq<Seq<char>>
    decreases items.len(),
{
    if items.len() == 0 {
        Seq::empty()
    } else {
        listed_ids(items.drop_last()) + match item_id(items.last()) {
            Some(id) => seq![id],
            None => Seq::empty(),
        }
    }
}

/// The `id` member of a listed conversation is a string.
pub open spec fn has_string_id(x: Json) -> bool {
    x.field("id"@) is Some && x.field("id"@)->0.text_value() is Some
}

/// Listing one more conversation adds its id at the end when it has a
/// string id, and nothing otherwise: no listed conversation is dropped,
/// however many come before it.
pub proof fn lemma_listed_ids_push(items: Seq<Json>, x: Json)
    ensures
        has_string_id(x) ==> listed_ids(items.push(x)) == listed_ids(items).push(
            x.field("id"@)->0.text_value()->0,
        ),
        !has_string_id(x) ==> listed_ids(items.push(x)) == listed_ids(items),
{
    assert(items.push(x).drop_last() =~= items);
}

/// The ids are exactly those of the listed conversations with a string
/// id, one each and in the order listed: however many are listed, none is
/// left out.
pub proof fn lemma_listed_ids_are_all_string_ids(items: Seq<Json>)
    ensures
        listed_ids(items) == items.filter(|x: Json| has_string_id(x)).map_values(
            |x: Json| x.field("id"@)->0.text_value()->0,
        ),
    decreases items.len(),
{
    reveal(Seq::filter);
    let p = |x: Json| has_string_id(x);
    let f = |x: Json| x.field("id"@)->0.text_value()->0;
    if items.len() == 0 {
        assert(items.filter(p).map_values(f) =~= Seq::<Seq<char>>::empty());
    } else {
        let init = items.drop_last();
        let x = items.last();
        lemma_listed_ids_are_all_string_ids(init);
        lemma_listed_ids_push(init, x);
        assert(init.push(x) =~= items);
        if has_string_id(x) {
            assert(items.filter(p) == init.filter(p).push(x));
            assert(init.filter(p).push(x).map_values(f) =~= init.filter(p).map_values(f).push(
                f(x),
            ));
        } else {
            assert(items.filter(p) == init.filter(p));
        }
    }
}

/// The ids of the conversations that a `conversations.list` answer lists.
pub open spec fn conversation_ids(list: Json) -> Seq<Seq<char>> {
    match list.field("channels"@) {
        Some(c) => match c.array_items() {
            Some(items) => listed_ids(items),
            None => Seq::empty(),
        },
        None => Seq::empty(),
    }
}

/// The ids of the conversations that a `conversations.list` answer lists.
pub fn conversation_ids_of(list: &Json) -> (r: Vec<String>)
    ensures
        texts_view(r@) == conversation_ids(*list),
{
    let mut r: Vec<String> = Vec::new();
    let items = match list.get("channels") {
        Some(c) => match c.as_array() {
            Some(items) => items,
            None => {
                assert(texts_view(r@) =~= Seq::<Seq<char>>::empty());
                return r;
            },
        },
        None => {
            assert(texts_view(r@) =~= Seq::<Seq<char>>::empty());
            return r;
        },
    };
    let mut i: usize = 0;
    assert(items@.take(0) =~= Seq::<Json>::empty());
    assert(texts_view(r@) =~= listed_ids(items@.take(0)));
    while i < items.len()
        invariant
            i <= items@.len(),
            texts_view(r@) == listed_ids(items@.take(i as int)),
        decreases items@.len() - i,
    {
        assert(items@.take(i + 1).drop_last() =~= items@.take(i as int));
        match items[i].field_text("id") {
            Some(id) => {
                r.push(owned(id));
            },
            None => {},
        }
        i = i + 1;
        assert(texts_view(r@) =~= listed_ids(items@.take(i as int)));
    }
    assert(items@.take(items@.len() as int) =~= items@);
    r
}

/// The `ts` of a message, when it is a string.
pub open spec fn message_ts(m: Json) -> Option<Seq<char>> {
    match m.field("ts"@) {
        Some(v) => v.text_value(),
        None => None,
    }
}

/// The `text` of a message, when it is a string.
pub open spec fn message_text(m: Json) -> Option<Seq<char>> {
    match m.field("text"@) {
        Some(v) => v.text_value(),
        None => None,
    }
}

/// The messages of a `conversations.history` answer.
pub open spec fn history_messages(h: Json) -> Option<Seq<Json>> {
    match h.field("messages"@) {
        Some(v) => v.array_items(),
        None => None,
    }
}

/// The direct messages to announce: each message with a `ts` and a
/// `text`, in order.
pub open spec fn dm_notes(msgs: Seq<Json>) -> Seq<NotificationView>
    decreases msgs.len(),
{
    if msgs.len() == 0 {
        Seq::empty()
    } else {
        dm_notes(msgs.drop_last()) + match (message_ts(msgs.last()), message_text(msgs.last())) {
            (Some(ts), Some(text)) => seq![
                NotificationView { kind: NotificationKind::Dm, channel_id: None, text, ts },
            ],
            _ => Seq::empty(),
        }
    }
}

/// The last direct message seen after `msgs`: the `ts` of the last
/// announced one, or `last` where none is announced.
pub open spec fn dm_ts_after(msgs: Seq<Json>, last: Seq<char>) -> Seq<char>
    decreases msgs.len(),
{
    if msgs.len() == 0 {
        last
    } else {
        match (message_ts(msgs.last()), message_text(msgs.last())) {
            (Some(ts), Some(_)) => ts,
            _ => dm_ts_after(msgs.drop_last(), last),
        }
    }
}

/// A direct message is announced: it has a string `ts` and a string
/// `text`.
pub open spec fn is_announced(m: Json) -> bool {
    message_ts(m) is Some && message_text(m) is Some
}

/// Where the direct messages were read up to moves only to the `ts` of
/// an announced message, the last one announced; where none is announced
/// (an empty history among them) it stays where it was.
pub proof fn lemma_dm_ts_moves_only_on_announcement(msgs: Seq<Json>, last: Seq<char>)
    ensures
        (forall|i: int| 0 <= i < msgs.len() ==> !is_announced(#[trigger] msgs[i])) ==> dm_ts_after(
            msgs,
            last,
        ) == last,
        forall|i: int|
            0 <= i < msgs.len() && is_announced(#[trigger] msgs[i]) && (forall|j: int|
                i < j < msgs.len() ==> !is_announced(#[trigger] msgs[j])) ==> dm_ts_after(msgs, last)
                == message_ts(msgs[i])->0,
    decreases msgs.len(),
{
    if msgs.len() > 0 {
        let init = msgs.drop_last();
        lemma_dm_ts_moves_only_on_announcement(init, last);
        let n = msgs.len() - 1;
        if (forall|i: int| 0 <= i < msgs.len() ==> !is_announced(#[trigger] msgs[i])) {
            assert(!is_announced(msgs[n]));
            assert forall|i: int| 0 <= i < init.len() implies !is_announced(#[trigger] init[i]) by {
                assert(init[i] == msgs[i]);
                assert(!is_announced(msgs[i]));
            }
        }
        assert forall|i: int|
            0 <= i < msgs.len() && is_announced(#[trigger] msgs[i]) && (forall|j: int|
                i < j < msgs.len() ==> !is_announced(#[trigger] msgs[j])) implies dm_ts_after(
            msgs,
            last,
        ) == message_ts(msgs[i])->0 by {
            if i < n {
                assert(!is_announced(msgs[n]));
                assert(init[i] == msgs[i]);
                assert forall|j: int| i < j < init.len() implies !is_announced(#[trigger] init[j]) by {
                    assert(init[j] == msgs[j]);
                    assert(!is_announced(msgs[j]));
                }
            }
        }
    }
}

/// Announces the direct messages of a `conversations.history` answer and
/// records the last one announced.
pub fn read_dm_history(history: &Json, state: &mut SlackNotificationState) -> (r: Vec<
    SlackNotification,
>)
    ensures
        final(state).user_id == old(state).user_id,
        final(state).last_mention_ts == old(state).last_mention_ts,
        match history_messages(*history) {
            Some(msgs) => notes_view(r@) == dm_notes(msgs) && final(state).last_dm_ts@
                == dm_ts_after(msgs, old(state).last_dm_ts@),
            None => r@.len() == 0 && final(state).last_dm_ts == old(state).last_dm_ts,
        },
{
    let mut r: Vec<SlackNotification> = Vec::new();
    let msgs = match history.get("messages") {
        Some(m) => match m.as_array() {
            Some(items) => items,
            None => return r,
        },
        None => return r,
    };
    let ghost start = state.last_dm_ts@;
    let mut i: usize = 0;
    assert(msgs@.take(0) =~= Seq::<Json>::empty());
    assert(notes_view(r@) =~= dm_notes(msgs@.take(0)));
    while i < msgs.len()
        invariant
            i <= msgs@.len(),
            notes_view(r@) == dm_notes(msgs@.take(i as int)),
            state.last_dm_ts@ == dm_ts_after(msgs@.take(i as int), start),
            start == old(state).last_dm_ts@,
            state.user_id == old(state).user_id,
            state.last_mention_ts == old(state).last_mention_ts,
        decreases msgs@.len() - i,
    {
        assert(msgs@.take(i + 1).drop_last() =~= msgs@.take(i as int));
        assert(msgs@.take(i + 1).last() == msgs@[i as int]);
        let m = &msgs[i];
        match (m.field_text("ts"), m.field_text("text")) {
            (Some(ts), Some(text)) => {
                r.push(
                    SlackNotification {
                        kind: NotificationKind::Dm,
                        channel_id: None,
                        text: owned(text),
                        ts: owned(ts),
                    },
                );
                state.last_dm_ts = owned(ts);
            },
            _ => {},
        }
        i = i + 1;
        assert(notes_view(r@) =~= dm_notes(msgs@.take(i as int)));
    }
    assert(msgs@.take(msgs@.len() as int) =~= msgs@);
    r
}

/// The tag that mentions a user in a message's text.
pub open spec fn mention_tag(user_id: Seq<char>) -> Seq<char> {
    "<@"@ + user_id + ">"@
}

/// The newest timestamp after `msgs`: the greatest of `last` and the
/// `ts` of each message, in the order of `str`.
pub open spec fn newest_ts(msgs: Seq<Json>, last: Seq<char>) -> Seq<char>
    decreases msgs.len(),
{
    if msgs.len() == 0 {
        last
    } else {
        let prev = newest_ts(msgs.drop_last(), last);
        match message_ts(msgs.last()) {
            Some(ts) => if text_less(prev, ts) {
                ts
            } else {
                prev
            },
            None => prev,
        }
    }
}

/// A channel's cursor never moves back and lands on the newest timestamp
/// seen: after `msgs` it is not below the cursor it started from nor below
/// the `ts` of any message, and it is that cursor or one of those `ts`.
pub proof fn lemma_newest_ts_is_greatest(msgs: Seq<Json>, last: Seq<char>)
    ensures
        !text_less(newest_ts(msgs, last), last),
        forall|i: int|
            #![trigger msgs[i]]
            0 <= i < msgs.len() && message_ts(msgs[i]) is Some ==> !text_less(
                newest_ts(msgs, last),
                message_ts(msgs[i])->0,
            ),
        newest_ts(msgs, last) == last || exists|i: int|
            0 <= i < msgs.len() && message_ts(#[trigger] msgs[i]) == Some(newest_ts(msgs, last)),
    decreases msgs.len(),
{
    if msgs.len() == 0 {
        lemma_text_less_irreflexive(last);
    } else {
        let init = msgs.drop_last();
        lemma_newest_ts_is_greatest(init, last);
        let prev = newest_ts(init, last);
        let n = newest_ts(msgs, last);
        match message_ts(msgs.last()) {
            Some(ts) => {
                if text_less(prev, ts) {
                    lemma_text_less_irreflexive(ts);
                    if text_less(ts, last) {
                        lemma_text_less_transitive(prev, ts, last);
                    }
                    assert forall|i: int|
                        0 <= i < msgs.len() && message_ts(#[trigger] msgs[i]) is Some implies !text_less(
                        n,
                        message_ts(msgs[i])->0,
                    ) by {
                        if i < msgs.len() - 1 {
                            assert(init[i] == msgs[i]);
                            if text_less(ts, message_ts(msgs[i])->0) {
                                lemma_text_less_transitive(prev, ts, message_ts(msgs[i])->0);
                            }
                        }
                    }
                    assert(message_ts(msgs[msgs.len() - 1]) == Some(n));
                } else {
                    assert forall|i: int|
                        0 <= i < msgs.len() && message_ts(#[trigger] msgs[i]) is Some implies !text_less(
                        n,
                        message_ts(msgs[i])->0,
                    ) by {
                        if i < msgs.len() - 1 {
                            assert(init[i] == msgs[i]);
                        }
                    }
                    if n != last {
                        let k = choose|k: int|
                            0 <= k < init.len() && message_ts(#[trigger] init[k]) == Some(prev);
                        assert(msgs[k] == init[k]);
                    }
                }
            },
            None => {
                assert forall|i: int|
                    0 <= i < msgs.len() && message_ts(#[trigger] msgs[i]) is Some implies !text_less(
                    n,
                    message_ts(msgs[i])->0,
                ) by {
                    if i < msgs.len() - 1 {
                        assert(init[i] == msgs[i]);
                    }
                }
                if n != last {
                    let k = choose|k: int|
                        0 <= k < init.len() && message_ts(#[trigger] init[k]) == Some(prev);
                    assert(msgs[k] == init[k]);
                }
            },
        }
    }
}

/// The mentions to announce: each message with a `ts` and a `text` that
/// holds the user's tag, in order.
pub open spec fn mention_notes(msgs: Seq<Json>, channel: Seq<char>, tag: Seq<char>) -> Seq<
    NotificationView,
>
    decreases msgs.len(),
{
    if msgs.len() == 0 {
        Seq::empty()
    } else {
        mention_notes(msgs.drop_last(), channel, tag) + match (
            message_ts(msgs.last()),
            message_text(msgs.last()),
        ) {
            (Some(ts), Some(text)) => if contains_text(text, tag) {
                seq![
                    NotificationView {
                        kind: NotificationKind::Mention,
                        channel_id: Some(channel),
                        text,
                        ts,
                    },
                ]
            } else {
                Seq::empty()
            },
            _ => Seq::empty(),
        }
    }
}

/// Announces the mentions of the user in a public channel's
/// `conversations.history` answer and moves the channel's cursor to the
/// newest message seen.
pub fn read_channel_history(
    history: &Json,
    channel: &str,
    oldest: &str,
    user_id: &str,
    cursors: &mut ChannelCursors,
) -> (r: Vec<SlackNotification>)
    ensures
        match history_messages(*history) {
            Some(msgs) => {
                &&& notes_view(r@) == mention_notes(msgs, channel@, mention_tag(user_id@))
                &&& final(cursors).cursor_of(channel@) == newest_ts(msgs, oldest@)
                &&& forall|other: Seq<char>| other != channel@ ==> final(cursors).cursor_of(other)
                    == old(cursors).cursor_of(other)
            },
            None => r@.len() == 0 && *final(cursors) == *old(cursors),
        },
{
    let mut r: Vec<SlackNotification> = Vec::new();
    let msgs = match history.get("messages") {
        Some(m) => match m.as_array() {
            Some(items) => items,
            None => return r,
        },
        None => return r,
    };
    let tag = concat3("<@", user_id, ">");
    let tag_chars = chars_of(&tag);
    let mut newest = owned(oldest);
    let mut i: usize = 0;
    assert(msgs@.take(0) =~= Seq::<Json>::empty());
    assert(notes_view(r@) =~= mention_notes(msgs@.take(0), channel@, mention_tag(user_id@)));
    while i < msgs.len()
        invariant
            i <= msgs@.len(),
            tag_chars@ == mention_tag(user_id@),
            notes_view(r@) == mention_notes(msgs@.take(i as int), channel@, mention_tag(user_id@)),
            newest@ == newest_ts(msgs@.take(i as int), oldest@),
        decreases msgs@.len() - i,
    {
        assert(msgs@.take(i + 1).drop_last() =~= msgs@.take(i as int));
        assert(msgs@.take(i + 1).last() == msgs@[i as int]);
        let m = &msgs[i];
        match m.field_text("ts") {
            Some(ts) => {
                if text_less_exec(&newest, ts) {
                    newest = owned(ts);
                }
                match m.field_text("text") {
                    Some(text) => {
                        let text_chars = chars_of(text);
                        if contains_exec(&text_chars, &tag_chars) {
                            r.push(
                                SlackNotification {
                                    kind: NotificationKind::Mention,
                                    channel_id: Some(owned(channel)),
                                    text: owned(text),
                                    ts: owned(ts),
                                },
                            );
                        }
                    },
                    None => {},
                }
            },
            None => {},
        }
        i = i + 1;
        assert(notes_view(r@) =~= mention_notes(
            msgs@.take(i as int),
            channel@,
            mention_tag(user_id@),
        ));
    }
    assert(msgs@.take(msgs@.len() as int) =~= msgs@);
    cursors.set(channel, newest);
    r
}

// ---------------------------------------------------------------------
// One round of polling
// ---------------------------------------------------------------------

/// A request of the poller to Slack's Web API.
pub enum SlackRequest {
    /// `conversations.list` of the given `types`, at most `limit` of them.
    ListConversations { types: String, limit: String },
    /// `conversations.history` of `channel` since `oldest`, at most `limit`
    /// messages.
    History { channel: String, oldest: String, limit: String },
}

/// `req` lists conversations of `types`, at most `limit`.
pub open spec fn is_list_request(req: SlackRequest, types: Seq<char>, limit: Seq<char>) -> bool {
    req matches SlackRequest::ListConversations { types: t, limit: l } && t@ == types && l@ == limit
}

/// `req` asks for the history of `channel` since `oldest`, at most
/// `limit` messages.
pub open spec fn is_history_request(
    req: SlackRequest,
    channel: Seq<char>,
    oldest: Seq<char>,
    limit: Seq<char>,
) -> bool {
    req matches SlackRequest::History { channel: c, oldest: o, limit: l } && c@ == channel && o@
        == oldest && l@ == limit
}

/// What the poller does after a reply.
pub enum PollNext {
    /// Sends this request and hands its reply back.
    Send(SlackRequest),
    /// The round is over, with this outcome.
    Done(Result<(), String>),
}

/// The notifications to announce, and what comes next.
pub struct PollStep {
    pub notifications: Vec<SlackNotification>,
    pub next: PollNext,
}

/// Where a round of polling stands.
#[derive(Clone, Copy, Debug, PartialEq, Eq, Structural)]
pub enum PollPhase {
    /// The direct-message conversations are being listed.
    ListingDms,
    /// The history of the direct-message conversation `next` is awaited.
    DmHistory,
    /// The public channels are being listed.
    ListingChannels,
    /// The history of the public channel `next` is awaited.
    ChannelHistory,
    /// The round is over.
    Finished,
}

/// A round of polling.
pub struct SlackPoll {
    pub phase: PollPhase,
    /// The conversations being read, in order.
    pub channels: Vec<String>,
    /// The conversation whose history is awaited.
    pub next: usize,
    /// The timestamp since which that public channel's history is asked.
    pub oldest: String,
    /// The user whose mentions are announced.
    pub user_id: String,
    /// The timestamp since which every direct-message history is asked:
    /// the last direct message announced before the round.
    pub dm_oldest: String,
}

impl SlackPoll {
    /// A history is awaited only of a conversation that was listed.
    pub open spec fn wf(self) -> bool {
        (self.phase == PollPhase::DmHistory || self.phase == PollPhase::ChannelHistory) ==> self.next
            < self.channels@.len()
    }

    /// The conversations being read.
    pub open spec fn ids(self) -> Seq<Seq<char>> {
        texts_view(self.channels@)
    }
}

/// After the direct-message conversation `at - 1`: the history of
/// conversation `at` is asked for, or, after the last, the public channels
/// are listed.
pub open spec fn dms_advanced(p: SlackPoll, next: PollNext, at: int) -> bool {
    if at < p.ids().len() {
        &&& p.phase == PollPhase::DmHistory
        &&& p.next == at
        &&& next matches PollNext::Send(req) && is_history_request(
            req,
            p.ids()[at],
            p.dm_oldest@,
            "10"@,
        )
    } else {
        &&& p.phase == PollPhase::ListingChannels
        &&& next matches PollNext::Send(req) && is_list_request(req, "public_channel"@, "50"@)
    }
}

/// After the public channel `at - 1`: the history of channel `at` since
/// its cursor is asked for, or, after the last, the round is over.
pub open spec fn channels_advanced(p: SlackPoll, next: PollNext, at: int, cursors: ChannelCursors) -> bool {
    if at < p.ids().len() {
        &&& p.phase == PollPhase::ChannelHistory
        &&& p.next == at
        &&& p.oldest@ == cursors.cursor_of(p.ids()[at])
        &&& next matches PollNext::Send(req) && is_history_request(
            req,
            p.ids()[at],
            p.oldest@,
            "20"@,
        )
    } else {
        &&& p.phase == PollPhase::Finished
        &&& next == PollNext::Done(Ok(()))
    }
}

/// The round ends with the error `e`, announcing nothing.
pub open spec fn poll_failed(p: SlackPoll, step: PollStep, e: Seq<char>) -> bool {
    &&& p.phase == PollPhase::Finished
    &&& step.notifications@.len() == 0
    &&& step.next matches PollNext::Done(Err(m)) && m@ == e
}

/// The rank of a phase in a round.
pub open spec fn phase_rank(p: PollPhase) -> int {
    match p {
        PollPhase::ListingDms => 0,
        PollPhase::DmHistory => 1,
        PollPhase::ListingChannels => 2,
        PollPhase::ChannelHistory => 3,
        PollPhase::Finished => 4,
    }
}

/// `new` is further on in the round than `old`: in a later phase, or in
/// the same one at a later conversation.
pub open spec fn poll_advanced(old: SlackPoll, new: SlackPoll) -> bool {
    ||| phase_rank(new.phase) > phase_rank(old.phase)
    ||| (new.phase == old.phase && new.next > old.next)
}

/// The poll keeps its user and the timestamp of its direct-message
/// histories.
pub open spec fn poll_keeps(new: SlackPoll, old: SlackPoll) -> bool {
    new.user_id == old.user_id && new.dm_oldest == old.dm_oldest
}

impl SlackPoll {
    /// Begins a round: the direct-message conversations are listed first;
    /// without a known user there is no round.
    pub fn start(state: &SlackNotificationState) -> (r: Result<(SlackPoll, SlackRequest), String>)
        ensures
            state.user_id is None ==> (r matches Err(e) && e@ == "User ID not set"@),
            state.user_id is Some ==> (r matches Ok((p, req)) && p.phase == PollPhase::ListingDms
                && p.user_id@ == state.user_id->0@ && p.dm_oldest@ == state.last_dm_ts@ && p.wf()
                && is_list_request(req, "im"@, "20"@)),
    {
        let user_id = match &state.user_id {
            Some(u) => u.clone(),
            None => return Err(owned("User ID not set")),
        };
        let p = SlackPoll {
            phase: PollPhase::ListingDms,
            channels: Vec::new(),
            next: 0,
            oldest: owned("0"),
            user_id,
            dm_oldest: state.last_dm_ts.clone(),
        };
        Ok((p, SlackRequest::ListConversations { types: owned("im"), limit: owned("20") }))
    }

    fn fail(&mut self, e: String) -> (r: PollStep)
        ensures
            poll_failed(*final(self), r, e@),
            final(self).channels == old(self).channels,
            final(self).next == old(self).next,
            poll_keeps(*final(self), *old(self)),
            final(self).wf(),
    {
        self.phase = PollPhase::Finished;
        PollStep { notifications: Vec::new(), next: PollNext::Done(Err(e)) }
    }

    fn advance_dms(&mut self, at: usize) -> (r: PollNext)
        ensures
            dms_advanced(*final(self), r, at as int),
            final(self).channels == old(self).channels,
            poll_keeps(*final(self), *old(self)),
            final(self).wf(),
    {
        if at < self.channels.len() {
            self.phase = PollPhase::DmHistory;
            self.next = at;
            PollNext::Send(
                SlackRequest::History {
                    channel: self.channels[at].clone(),
                    oldest: self.dm_oldest.clone(),
                    limit: owned("10"),
                },
            )
        } else {
            self.phase = PollPhase::ListingChannels;
            PollNext::Send(
                SlackRequest::ListConversations {
                    types: owned("public_channel"),
                    limit: owned("50"),
                },
            )
        }
    }

    fn advance_channels(&mut self, at: usize, cursors: &ChannelCursors) -> (r: PollNext)
        ensures
            channels_advanced(*final(self), r, at as int, *cursors),
            final(self).channels == old(self).channels,
            poll_keeps(*final(self), *old(self)),
            final(self).wf(),
    {
        if at < self.channels.len() {
            let oldest = cursors.cursor(&self.channels[at]);
            self.phase = PollPhase::ChannelHistory;
            self.next = at;
            self.oldest = oldest.clone();
            PollNext::Send(
                SlackRequest::History {
                    channel: self.channels[at].clone(),
                    oldest,
                    limit: owned("20"),
                },
            )
        } else {
            self.phase = PollPhase::Finished;
            PollNext::Done(Ok(()))
        }
    }

    /// Takes the reply to the last request sent.
    ///
    /// The listing of direct-message conversations, then the history of
    /// each since the last direct message announced before the round, then
    /// the listing of public channels, then the history of each since its
    /// cursor: each direct message is announced and becomes the last one,
    /// each mention of the user is announced, and each channel's cursor
    /// moves to its newest message. A reply that fails ends the round with
    /// its error.
    pub fn on_reply(
        &mut self,
        reply: JsonReply,
        state: &mut SlackNotificationState,
        cursors: &mut ChannelCursors,
    ) -> (r: PollStep)
        requires
            old(self).wf(),
        ensures
            final(self).wf(),
            poll_keeps(*final(self), *old(self)),
            old(self).phase != PollPhase::Finished ==> poll_advanced(*old(self), *final(self)),
            old(self).phase == PollPhase::ListingDms ==> {
                &&& *final(state) == *old(state)
                &&& *final(cursors) == *old(cursors)
                &&& match reply {
                    JsonReply::Body(Ok(list)) => {
                        &&& final(self).ids() == conversation_ids(list)
                        &&& r.notifications@.len() == 0
                        &&& dms_advanced(*final(self), r.next, 0)
                    },
                    _ => poll_failed(
                        *final(self),
                        r,
                        reply_error(
                            reply,
                            "Failed to list DMs: "@,
                            "Failed to parse DM list: "@,
                            "Failed to parse DM list: "@,
                        )->0,
                    ),
                }
            },
            old(self).phase == PollPhase::DmHistory ==> {
                &&& *final(cursors) == *old(cursors)
                &&& match reply {
                    JsonReply::Body(Ok(history)) => {
                        &&& final(self).channels == old(self).channels
                        &&& final(state).user_id == old(state).user_id
                        &&& match history_messages(history) {
                            Some(msgs) => notes_view(r.notifications@) == dm_notes(msgs)
                                && final(state).last_dm_ts@ == dm_ts_after(
                                msgs,
                                old(state).last_dm_ts@,
                            ),
                            None => r.notifications@.len() == 0 && final(state).last_dm_ts
                                == old(state).last_dm_ts,
                        }
                        &&& dms_advanced(*final(self), r.next, old(self).next + 1)
                    },
                    _ => *final(state) == *old(state) && poll_failed(
                        *final(self),
                        r,
                        reply_error(
                            reply,
                            "Failed to get DM history: "@,
                            "Failed to parse DM history: "@,
                            "Failed to parse DM history: "@,
                        )->0,
                    ),
                }
            },
            old(self).phase == PollPhase::ListingChannels ==> {
                &&& *final(state) == *old(state)
                &&& *final(cursors) == *old(cursors)
                &&& match reply {
                    JsonReply::Body(Ok(list)) => {
                        &&& final(self).ids() == conversation_ids(list)
                        &&& r.notifications@.len() == 0
                        &&& channels_advanced(*final(self), r.next, 0, *final(cursors))
                    },
                    _ => poll_failed(
                        *final(self),
                        r,
                        reply_error(
                            reply,
                            "Failed to list public channels: "@,
                            "Failed to parse channel list: "@,
                            "Failed to parse channel list: "@,
                        )->0,
                    ),
                }
            },
            old(self).phase == PollPhase::ChannelHistory ==> {
                let id = old(self).ids()[old(self).next as int];
                &&& *final(state) == *old(state)
                &&& match reply {
                    JsonReply::Body(Ok(history)) => {
                        &&& final(self).channels == old(self).channels
                        &&& match history_messages(history) {
                            Some(msgs) => {
                                &&& notes_view(r.notifications@) == mention_notes(
                                    msgs,
                                    id,
                                    mention_tag(old(self).user_id@),
                                )
                                &&& final(cursors).cursor_of(id) == newest_ts(
                                    msgs,
                                    old(self).oldest@,
                                )
                                &&& forall|other: Seq<char>| other != id ==> final(cursors).cursor_of(other) == old(cursors).cursor_of(other)
                            },
                            None => r.notifications@.len() == 0 && *final(cursors) == *old(cursors),
                        }
                        &&& channels_advanced(*final(self), r.next, old(self).next + 1, *final(cursors))
                    },
                    JsonReply::SendFailed(e) => *final(cursors) == *old(cursors) && poll_failed(
                        *final(self),
                        r,
                        "Failed to get channel history for "@ + id + ": "@ + e@,
                    ),
                    _ => *final(cursors) == *old(cursors) && poll_failed(
                        *final(self),
                        r,
                        reply_error(
                            reply,
                            "Failed to get channel history for "@,
                            "Failed to parse channel history: "@,
                            "Failed to parse channel history: "@,
                        )->0,
                    ),
                }
            },
            old(self).phase == PollPhase::Finished ==> {
                &&& *final(state) == *old(state)
                &&& *final(cursors) == *old(cursors)
                &&& *final(self) == *old(self)
                &&& r.notifications@.len() == 0
                &&& r.next == PollNext::Done(Ok(()))
            },
    {
        match self.phase {
            PollPhase::ListingDms => {
                match reply_document(
                    reply,
                    "Failed to list DMs: ",
                    "Failed to parse DM list: ",
                    "Failed to parse DM list: ",
                ) {
                    Err(e) => self.fail(e),
                    Ok(list) => {
                        self.channels = conversation_ids_of(&list);
                        let next = self.advance_dms(0);
                        PollStep { notifications: Vec::new(), next }
                    },
                }
            },
            PollPhase::DmHistory => {
                match reply_document(
                    reply,
                    "Failed to get DM history: ",
                    "Failed to parse DM history: ",
                    "Failed to parse DM history: ",
                ) {
                    Err(e) => self.fail(e),
                    Ok(history) => {
                        let notifications = read_dm_history(&history, state);
                        let count = self.channels.len();
                        assert(self.next < count);
                        let next = self.advance_dms(self.next + 1);
                        PollStep { notifications, next }
                    },
                }
            },
            PollPhase::ListingChannels => {
                match reply_document(
                    reply,
                    "Failed to list public channels: ",
                    "Failed to parse channel list: ",
                    "Failed to parse channel list: ",
                ) {
                    Err(e) => self.fail(e),
                    Ok(list) => {
                        self.channels = conversation_ids_of(&list);
                        let next = self.advance_channels(0, cursors);
                        PollStep { notifications: Vec::new(), next }
                    },
                }
            },
            PollPhase::ChannelHistory => {
                let history = match reply {
                    JsonReply::SendFailed(e) => {
                        let id = self.channels[self.next].clone();
                        let mut m = concat3("Failed to get channel history for ", &id, ": ");
                        crate::text::push_str(&mut m, &e);
                        return self.fail(m);
                    },
                    JsonReply::ReadFailed(e) => {
                        return self.fail(concat("Failed to parse channel history: ", &e));
                    },
                    JsonReply::Body(Err(e)) => {
                        return self.fail(concat("Failed to parse channel history: ", &e));
                    },
                    JsonReply::Body(Ok(history)) => history,
                };
                let id = self.channels[self.next].clone();
                let notifications = read_channel_history(
                    &history,
                    &id,
                    &self.oldest,
                    &self.user_id,
                    cursors,
                );
                let count = self.channels.len();
                assert(self.next < count);
                let next = self.advance_channels(self.next + 1, cursors);
                PollStep { notifications, next }
            },
            PollPhase::Finished => PollStep { notifications: Vec::new(), next: PollNext::Done(Ok(())) },
        }
    }
}

} // verus!
