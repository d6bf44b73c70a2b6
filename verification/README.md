# orpheus_buddy

The logic of Orpheus Buddy, a desktop companion that celebrates coding time
reported by WakaTime, signs in with Hack Club and Slack, and announces Slack
direct messages and mentions. The library is written in Verus: each function
carries a contract that Verus proves.

- `src/` — the verified library:
  - `text` — characters, trimming, searching, replacing, numerals;
  - `json` — JSON documents as plain values;
  - `party` — reading today's coding time and deciding on parties;
  - `notification` — the XML of a clickable toast;
  - `oauth`, `hackclub`, `slack` — sign-in URLs, token exchanges, answers;
  - `slack_poll` — one round of polling Slack, as a machine;
  - `wakatime` — finding and asking the WakaTime command-line tool;
  - `paths` — where the callback server and the code files are;
  - `dinosaurs` — which pictures to resize, and the messages.
- `app/` — the Tauri application around it: commands, I/O, shared state.
- `tests/` — tests of the library on concrete values.
