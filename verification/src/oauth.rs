//! What the OAuth sign-in flows of Hack Club and Slack share: the
//! authorization URLs, the forms of the token requests, and the replies of
//! HTTP exchanges.
use vstd::prelude::*;
use vstd::utf8::encode_utf8;
use crate::json::Json;
use crate::text::{concat, owned};

verus! {

/// The address to which both services send the browser back.
pub open spec fn callback_url() -> Seq<char> {
    "http://localhost:3001/callback"@
}

// ---------------------------------------------------------------------
// application/x-www-form-urlencoded
// ---------------------------------------------------------------------

/// A byte that form encoding writes as it is.
pub open spec fn is_form_safe(b: u8) -> bool {
    ||| b == 0x2a
    ||| b == 0x2d
    ||| b == 0x2e
    ||| 0x30 <= b <= 0x39
    ||| 0x41 <= b <= 0x5a
    ||| b == 0x5f
    ||| 0x61 <= b <= 0x7a
}

/// The upper-case hexadecimal digit of `n`.
pub open spec fn hex_upper(n: int) -> char {
    if n < 10 {
        (48 + n) as char
    } else {
        (55 + n) as char
    }
}

/// What form encoding writes for one byte: the byte itself where it is
/// safe, `+` for a space, `%` and two upper-case hexadecimal digits
/// otherwise.
pub open spec fn form_byte(b: u8) -> Seq<char> {
    if is_form_safe(b) {
        seq![b as char]
    } else if b == 0x20 {
        seq!['+']
    } else {
        seq!['%', hex_upper((b / 16) as int), hex_upper((b % 16) as int)]
    }
}

/// The form encoding of a byte sequence.
pub open spec fn form_bytes(bs: Seq<u8>) -> Seq<char>
    decreases bs.len(),
{
    if bs.len() == 0 {
        Seq::<char>::empty()
    } else {
        form_byte(bs[0]) + form_bytes(bs.drop_first())
    }
}

/// The form encoding of a text: of its UTF-8 bytes.
pub open spec fn form_text(s: Seq<char>) -> Seq<char> {
    form_bytes(encode_utf8(s))
}

/// One `name=value` pair, each side form-encoded.
pub open spec fn form_pair(p: (Seq<char>, Seq<char>)) -> Seq<char> {
    form_text(p.0) + seq!['='] + form_text(p.1)
}

/// Pairs, form-encoded and separated by `&`.
pub open spec fn form_pairs(ps: Seq<(Seq<char>, Seq<char>)>) -> Seq<char>
    decreases ps.len(),
{
    if ps.len() == 0 {
        Seq::<char>::empty()
    } else if ps.len() == 1 {
        form_pair(ps[0])
    } else {
        form_pairs(ps.drop_last()) + seq!['&'] + form_pair(ps.last())
    }
}

/// The texts of a list of pairs.
pub open spec fn pair_views(ps: Seq<(String, String)>) -> Seq<(Seq<char>, Seq<char>)> {
    ps.map_values(|p: (String, String)| (p.0@, p.1@))
}

/// A URL serialization with neither a query nor a fragment.
pub open spec fn plain_url(p: Seq<char>) -> bool {
    !p.contains('?') && !p.contains('#')
}

/// What `url::Url::parse` makes of `input`: the serialization of the
/// URL, or the text of the parse error.
pub uninterp spec fn url_parse(input: Seq<char>) -> Result<Seq<char>, Seq<char>>;

/// Parses `base` with `url::Url::parse`, appends each pair with
/// `query_pairs_mut().append_pair`, in order, and gives the serialization
/// (`to_string`), or the text of the parse error.
///
/// Stated: the call fails exactly when parsing does, with the parse
/// error's text; when the parsed URL has neither a query nor a fragment,
/// the result is it, `?`, and the pairs, form-encoded and joined by `&`.
/// Left unsaid: the result for a base that already has a query or a
/// fragment.
#[verifier::external_body]
fn url_with_query_pairs(base: &str, pairs: &Vec<(String, String)>) -> (r: Result<String, String>)
    ensures
        r is Ok <==> url_parse(base@) is Ok,
        r matches Err(e) ==> (url_parse(base@) matches Err(pe) && pe == e@),
        r matches Ok(s) ==> (url_parse(base@) matches Ok(p) ==> (plain_url(p) ==> s@ == p
            + seq!['?'] + form_pairs(pair_views(pairs@)))),
{
    let mut url = url::Url::parse(base).map_err(|e| e.to_string())?;
    {
        let mut query = url.query_pairs_mut();
        for (name, value) in pairs.iter() {
            query.append_pair(name, value);
        }
    }
    Ok(url.to_string())
}

/// The authorization URL that a sign-in opens: `base` with the query of
/// `pairs`, or the parse error's text after `failure`.
pub open spec fn authorize_url_result(
    r: Result<String, String>,
    base: Seq<char>,
    pairs: Seq<(Seq<char>, Seq<char>)>,
    failure: Seq<char>,
) -> bool {
    &&& r is Ok <==> url_parse(base) is Ok
    &&& r matches Err(e) ==> url_parse(base) matches Err(pe) && e@ == failure + pe
    &&& r matches Ok(s) ==> (url_parse(base) matches Ok(p) ==> (plain_url(p) ==> s@ == p + seq!['?']
        + form_pairs(pairs)))
}

/// Builds an authorization URL: `base` with the query of `pairs`; a parse
/// error is reported after `failure`.
pub fn authorize_url(base: &str, pairs: &Vec<(String, String)>, failure: &str) -> (r: Result<
    String,
    String,
>)
    ensures
        authorize_url_result(r, base@, pair_views(pairs@), failure@),
{
    match url_with_query_pairs(base, pairs) {
        Ok(s) => Ok(s),
        Err(e) => Err(concat(failure, &e)),
    }
}

/// A pair of texts.
pub fn text_pair(name: &str, value: &str) -> (r: (String, String))
    ensures
        r.0@ == name@,
        r.1@ == value@,
{
    (owned(name), owned(value))
}

// ---------------------------------------------------------------------
// HTTP exchanges that answer with JSON
// ---------------------------------------------------------------------

/// What an HTTP exchange whose answer is a JSON document came to.
pub enum JsonReply {
    /// The request could not be sent; the client's message.
    SendFailed(String),
    /// The answer could not be read; the client's message.
    ReadFailed(String),
    /// The answer was read: the document, or the parser's message.
    Body(Result<Json, String>),
}

/// The error of a reply, after the prefix of its kind.
pub open spec fn reply_error(
    reply: JsonReply,
    send_prefix: Seq<char>,
    read_prefix: Seq<char>,
    parse_prefix: Seq<char>,
) -> Option<Seq<char>> {
    match reply {
        JsonReply::SendFailed(e) => Some(send_prefix + e@),
        JsonReply::ReadFailed(e) => Some(read_prefix + e@),
        JsonReply::Body(Err(e)) => Some(parse_prefix + e@),
        JsonReply::Body(Ok(_)) => None,
    }
}

/// The document of a reply, or its error after the prefix of its kind.
pub fn reply_document(reply: JsonReply, send_prefix: &str, read_prefix: &str, parse_prefix: &str) -> (r:
    Result<Json, String>)
    ensures
        match r {
            Ok(doc) => reply == JsonReply::Body(Ok(doc)),
            Err(e) => reply_error(reply, send_prefix@, read_prefix@, parse_prefix@) == Some(e@),
        },
{
    match reply {
        JsonReply::SendFailed(e) => Err(concat(send_prefix, &e)),
        JsonReply::ReadFailed(e) => Err(concat(read_prefix, &e)),
        JsonReply::Body(Err(e)) => Err(concat(parse_prefix, &e)),
        JsonReply::Body(Ok(doc)) => Ok(doc),
    }
}

/// The access token of a token answer: its `access_token` member, when
/// that is a string.
pub open spec fn access_token_of(doc: Json) -> Option<Seq<char>> {
    match doc.field("access_token"@) {
        Some(v) => v.text_value(),
        None => None,
    }
}

/// The access token of a token answer.
pub fn access_token(doc: &Json) -> (r: Option<String>)
    ensures
        match r {
            Some(t) => access_token_of(*doc) == Some(t@),
            None => access_token_of(*doc) is None,
        },
{
    match doc.field_text("access_token") {
        Some(t) => Some(owned(t)),
        None => None,
    }
}

/// The text of a configuration value, or the message `missing`.
pub fn required(value: Option<String>, missing: &str) -> (r: Result<String, String>)
    ensures
        value is Some ==> r == Ok::<String, String>(value->0),
        value is None ==> (r matches Err(e) && e@ == missing@),
{
    match value {
        Some(v) => Ok(v),
        None => Err(owned(missing)),
    }
}

} // verus!
