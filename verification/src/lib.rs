//! The logic of Orpheus Buddy: reading WakaTime's coding time and deciding
//! on parties, signing in with Hack Club and Slack, polling Slack for
//! notifications, and the files and texts around them.
use vstd::prelude::*;

pub mod text;
pub mod json;
pub mod party;
pub mod notification;
pub mod oauth;
pub mod hackclub;
pub mod slack;
pub mod slack_poll;
pub mod wakatime;
pub mod paths;
pub mod dinosaurs;

verus! {

} // verus!
