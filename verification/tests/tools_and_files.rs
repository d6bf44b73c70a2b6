use orpheus_buddy::dinosaurs::{
    cleaned_message, is_png_name, resize_dinosaur, resized_dinosaur_names, updated_message,
    ResizeFailure, TARGET_SIZE,
};
use orpheus_buddy::notification::{escape_xml, toast_xml};
use orpheus_buddy::paths::{
    app_data_dir, callback_auth_code_fallback_path, callback_auth_code_path,
    callback_server_script_path, slack_auth_code_path, CallbackServerLaunch, LaunchOutcome,
    LaunchStep,
};
use orpheus_buddy::text::{decimal_string, replace_text, text_contains, text_less_exec, trimmed};
use orpheus_buddy::wakatime::{
    cli_candidate, expand_path, key_preview_checked, CliCommand, CliEnvironment, CliRun, CliStep,
    StatsStage, WakaTimeStats, WakaTimeToday, WakaTimeTodayDetailed,
};

fn env() -> CliEnvironment {
    CliEnvironment {
        userprofile: Some("C:\\Users\\ada".to_string()),
        home: Some("/home/ada".to_string()),
        username: Some("ada".to_string()),
    }
}

fn command(step: &CliStep) -> (String, Vec<String>) {
    match step {
        CliStep::Run(CliCommand { program, args }) => (program.clone(), args.clone()),
        CliStep::Finish(r) => panic!("expected a run, got {:?}", r),
    }
}

fn args(a: &[&str]) -> Vec<String> {
    a.iter().map(|s| s.to_string()).collect()
}

fn ran(success: bool, out: &str) -> CliRun {
    CliRun::finished(success, out.as_bytes())
}

#[test]
fn text_helpers() {
    assert_eq!(trimmed("\u{3000} a b \n"), "a b");
    assert_eq!(replace_text("a~b~", "~", "HOME"), "aHOMEbHOME");
    assert_eq!(replace_text("aaa", "aa", "b"), "ba");
    assert!(text_contains("hello <@U1>", "<@U1>"));
    assert!(!text_contains("hello", "<@U1>"));
    assert!(text_less_exec("1.5", "1.6"));
    assert!(text_less_exec("1", "1.0"));
    assert!(!text_less_exec("2", "10"));
    assert!(!text_less_exec("a", "a"));
    assert_eq!(decimal_string(0), "0");
    assert_eq!(decimal_string(18446744073709551615), "18446744073709551615");
}

#[test]
fn paths_are_expanded() {
    let e = env();
    assert_eq!(expand_path("~/.wakatime/wakatime-cli", &e), "C:\\Users\\ada/.wakatime/wakatime-cli");
    let no_profile = CliEnvironment { userprofile: None, home: Some("/home/ada".into()), username: None };
    assert_eq!(expand_path("~/.wakatime/wakatime-cli", &no_profile), "/home/ada/.wakatime/wakatime-cli");
    let nothing = CliEnvironment { userprofile: None, home: None, username: None };
    assert_eq!(expand_path("~/x", &nothing), "~/x");
    assert_eq!(expand_path("%USERPROFILE%\\.wakatime\\wakatime-cli.exe", &e), "C:\\Users\\ada\\.wakatime\\wakatime-cli.exe");
    assert_eq!(expand_path("C:\\Users\\%USERNAME%\\.wakatime\\wakatime-cli.exe", &e), "C:\\Users\\ada\\.wakatime\\wakatime-cli.exe");
    assert_eq!(expand_path("wakatime-cli", &e), "wakatime-cli");
    assert_eq!(cli_candidate(1), "wakatime-cli");
}

#[test]
fn today_tries_each_place() {
    let e = env();
    let (mut m, step) = WakaTimeToday::start(&e);
    assert_eq!(command(&step), ("C:\\Users\\ada/.wakatime/wakatime-cli".to_string(), args(&["--today", "--output", "json"])));
    let step = m.on_outcome(&e, CliRun::NotRun("not found".into()));
    assert_eq!(command(&step), ("wakatime-cli".to_string(), args(&["--today", "--output", "json"])));
    let step = m.on_outcome(&e, ran(false, "{}"));
    assert_eq!(command(&step).0, "C:\\Users\\ada\\.wakatime\\wakatime-cli.exe");
    let step = m.on_outcome(&e, ran(true, "{\"total_seconds\":5}"));
    assert!(matches!(step, CliStep::Finish(Ok(ref s)) if s == "{\"total_seconds\":5}"));
}

#[test]
fn today_gives_up_after_the_last_place() {
    let e = env();
    let (mut m, _) = WakaTimeToday::start(&e);
    for _ in 0..3 {
        assert!(matches!(m.on_outcome(&e, CliRun::NotRun("x".into())), CliStep::Run(_)));
    }
    let step = m.on_outcome(&e, CliRun::NotRun("x".into()));
    assert!(matches!(step, CliStep::Finish(Err(ref s)) if s == "WakaTime CLI not found in any common locations"));
}

#[test]
fn detailed_falls_back_to_the_summary() {
    let e = env();
    let (mut m, step) = WakaTimeTodayDetailed::start(&e);
    assert_eq!(command(&step).1, args(&["--today", "--output", "raw-json"]));
    let step = m.on_outcome(&e, ran(false, ""));
    assert_eq!(command(&step), ("C:\\Users\\ada/.wakatime/wakatime-cli".to_string(), args(&["--today", "--output", "json"])));
    let step = m.on_outcome(&e, ran(true, "{\"a\":1}"));
    assert!(matches!(step, CliStep::Finish(Ok(ref s)) if s == "{\"fallback\":true,\"data\":{\"a\":1}}"));

    let (mut m, _) = WakaTimeTodayDetailed::start(&e);
    let step = m.on_outcome(&e, ran(true, "raw"));
    assert!(matches!(step, CliStep::Finish(Ok(ref s)) if s == "raw"));

    let (mut m, _) = WakaTimeTodayDetailed::start(&e);
    m.on_outcome(&e, ran(false, ""));
    let step = m.on_outcome(&e, ran(false, ""));
    assert_eq!(command(&step), ("wakatime-cli".to_string(), args(&["--today", "--output", "raw-json"])));
}

#[test]
fn stats_count_offline_heartbeats() {
    let e = env();
    let (mut m, step) = WakaTimeStats::start(&e);
    assert_eq!(command(&step).1, args(&["--version"]));
    let step = m.on_outcome(&e, ran(false, ""));
    assert_eq!(command(&step).1, args(&["--offline-count", "--output", "json"]));
    assert_eq!(m.stage, StatsStage::OfflineCount);
    let step = m.on_outcome(&e, ran(true, " 12\n"));
    assert!(matches!(step, CliStep::Finish(Ok(ref s)) if s == "{\"type\":\"offline_count\",\"data\":12}"));
}

#[test]
fn stats_read_the_api_key() {
    let e = env();
    let (mut m, _) = WakaTimeStats::start(&e);
    m.on_outcome(&e, ran(true, "v1"));
    let step = m.on_outcome(&e, CliRun::NotRun("x".into()));
    assert_eq!(command(&step).1, args(&["--config-read", "api_key"]));
    let key = "waka_0123456789abcdef\n";
    assert!(!m.outcome_fails(&ran(true, key)));
    let step = m.on_outcome(&e, ran(true, key));
    assert!(matches!(step, CliStep::Finish(Ok(ref s)) if s == "{\"type\":\"config\",\"api_key_preview\":\"waka_01234...\",\"status\":\"configured\"}"));

    let (mut m, _) = WakaTimeStats::start(&e);
    m.on_outcome(&e, ran(true, ""));
    m.on_outcome(&e, ran(false, ""));
    let step = m.on_outcome(&e, ran(false, ""));
    assert!(matches!(step, CliStep::Finish(Ok(ref s)) if s == "{\"type\":\"config\",\"status\":\"not_configured\"}"));

    let (mut m, _) = WakaTimeStats::start(&e);
    m.on_outcome(&e, ran(true, ""));
    m.on_outcome(&e, ran(false, ""));
    let step = m.on_outcome(&e, ran(true, " short "));
    assert!(matches!(step, CliStep::Finish(Ok(ref s)) if s == "{\"type\":\"config\",\"api_key_preview\":\"short\",\"status\":\"configured\"}"));
}

#[test]
fn stats_move_on_when_the_program_does_not_start() {
    let e = env();
    let (mut m, _) = WakaTimeStats::start(&e);
    let step = m.on_outcome(&e, CliRun::NotRun("x".into()));
    assert_eq!(command(&step), ("wakatime-cli".to_string(), args(&["--version"])));
    assert_eq!(m.at, 1);
    m.on_outcome(&e, ran(true, ""));
    m.on_outcome(&e, ran(false, ""));
    let step = m.on_outcome(&e, CliRun::NotRun("x".into()));
    assert_eq!(command(&step).1, args(&["--version"]));
    assert_eq!(m.at, 2);
}

#[test]
fn key_previews() {
    assert_eq!(key_preview_checked("0123456789"), Some("0123456789".to_string()));
    assert_eq!(key_preview_checked("0123456789a"), Some("0123456789...".to_string()));
    assert_eq!(key_preview_checked("01234567é9"), Some("01234567é...".to_string()));
    // the tenth byte ends inside "é"
    assert_eq!(key_preview_checked("012345678é"), None);
    let (mut m, _) = WakaTimeStats::start(&env());
    m.on_outcome(&env(), ran(true, ""));
    m.on_outcome(&env(), ran(false, ""));
    assert!(m.outcome_fails(&ran(true, "012345678é")));
    assert!(!m.outcome_fails(&ran(false, "012345678é")));
}

#[test]
fn output_is_decoded_lossily() {
    match CliRun::finished(true, &[0x61, 0xff, 0x62]) {
        CliRun::Ran { success, stdout } => {
            assert!(success);
            assert_eq!(stdout, "a\u{FFFD}b");
        }
        _ => panic!("expected a run"),
    }
}

#[test]
fn callback_paths() {
    assert_eq!(
        callback_server_script_path("/home/ada/orpheus/src-tauri"),
        Some("/home/ada/orpheus/callback/https_server.py".to_string())
    );
    assert_eq!(callback_server_script_path("/"), None);
    assert_eq!(app_data_dir("/home/ada/.local/share"), "/home/ada/.local/share/orpheus-buddy");
    assert_eq!(
        callback_auth_code_path(&Some("/data".to_string()), "/p/src-tauri"),
        Some("/data/orpheus-buddy/hackclub_auth_code.txt".to_string())
    );
    assert_eq!(
        callback_auth_code_path(&None, "/p/src-tauri"),
        Some("/p/callback/hackclub_auth_code.txt".to_string())
    );
    assert_eq!(
        callback_auth_code_fallback_path("/p/src-tauri"),
        Some("/p/callback/hackclub_auth_code.txt".to_string())
    );
    assert_eq!(
        slack_auth_code_path(&Some("/data".to_string()), "/p/src-tauri"),
        Some("/data/orpheus-buddy/slack_auth_code.txt".to_string())
    );
    assert_eq!(slack_auth_code_path(&None, "/"), None);
}

#[test]
fn callback_server_launch() {
    let (_, step) = CallbackServerLaunch::start(false);
    assert!(matches!(step, LaunchStep::Done(LaunchOutcome::ScriptMissing)));
    let (mut l, step) = CallbackServerLaunch::start(true);
    assert!(matches!(step, LaunchStep::Spawn(ref p) if p == "python"));
    assert!(matches!(l.on_spawn(false), LaunchStep::Spawn(ref p) if p == "py"));
    assert!(matches!(l.on_spawn(false), LaunchStep::Spawn(ref p) if p == "python3"));
    assert!(matches!(l.on_spawn(false), LaunchStep::Done(LaunchOutcome::NoInterpreter)));
    let (mut l, _) = CallbackServerLaunch::start(true);
    assert!(matches!(l.on_spawn(true), LaunchStep::Done(LaunchOutcome::Started)));
}

#[test]
fn png_names() {
    assert!(is_png_name("rex.png"));
    assert!(is_png_name("a.b.png"));
    assert!(is_png_name(".x.png"));
    assert!(!is_png_name(".png"));
    assert!(!is_png_name("rex.PNG"));
    assert!(!is_png_name("rex.png.bak"));
    assert!(!is_png_name("png"));
    assert!(!is_png_name("rex."));
    let names = vec![Some("b.png".to_string()), None, Some("notes.txt".to_string()), Some("a.png".to_string())];
    assert_eq!(resized_dinosaur_names(names), vec!["b.png".to_string(), "a.png".to_string()]);
}

#[test]
fn dinosaur_messages() {
    assert_eq!(TARGET_SIZE, 256);
    assert_eq!(updated_message(), "Successfully updated and resized images to 256");
    assert_eq!(cleaned_message(3), "Deleted 3 files in dinosaurs folder (folders kept)");
    assert_eq!(cleaned_message(0), "Deleted 0 files in dinosaurs folder (folders kept)");
}

#[test]
fn xml_escaping() {
    assert_eq!(escape_xml("a<b & \"c\">"), "a&lt;b &amp; &quot;c&quot;&gt;");
    assert_eq!(escape_xml("&lt;"), "&amp;lt;");
    assert_eq!(escape_xml("it's"), "it's");
    assert_eq!(
        toast_xml("Hi <3", "a & b"),
        "<toast activationType=\"foreground\">\n                <visual>\n                    <binding template=\"ToastGeneric\">\n                        <text>Hi &lt;3</text>\n                        <text>a &amp; b</text>\n                    </binding>\n                </visual>\n            </toast>"
    );
}

fn small_png() -> Vec<u8> {
    let img = image::DynamicImage::ImageRgb8(image::RgbImage::from_pixel(3, 2, image::Rgb([200, 10, 30])));
    let mut out = std::io::Cursor::new(Vec::new());
    img.write_to(&mut out, image::ImageFormat::Png).unwrap();
    out.into_inner()
}

#[test]
fn a_dinosaur_picture_is_resized_to_the_target_square() {
    let resized = match resize_dinosaur("trex.png", &small_png()) {
        Some(Ok(bytes)) => bytes,
        other => panic!("unexpected {:?}", other.map(|r| r.map(|b| b.len()))),
    };
    assert_eq!(
        &resized[..24],
        &[137, 80, 78, 71, 13, 10, 26, 10, 0, 0, 0, 13, 73, 72, 68, 82, 0, 0, 1, 0, 0, 0, 1, 0]
    );
    let back = image::load_from_memory_with_format(&resized, image::ImageFormat::Png).unwrap();
    assert_eq!((back.width(), back.height()), (TARGET_SIZE, TARGET_SIZE));
}

#[test]
fn only_png_files_are_resized() {
    assert!(resize_dinosaur("notes.txt", &small_png()).is_none());
    assert!(resize_dinosaur(".png", &small_png()).is_none());
    assert!(resize_dinosaur("trex.PNG", &small_png()).is_none());
}

#[test]
fn a_broken_picture_cannot_be_read() {
    match resize_dinosaur("broken.png", b"not a picture") {
        Some(Err(ResizeFailure::Unreadable(text))) => assert!(!text.is_empty()),
        other => panic!("unexpected {:?}", other.map(|r| r.map(|b| b.len()))),
    }
}

fn unescape(t: &str) -> String {
    t.replace("&lt;", "<").replace("&gt;", ">").replace("&quot;", "\"").replace("&amp;", "&")
}

#[test]
fn escaped_text_decodes_back() {
    for s in ["a & b", "<a href=\"x\">&amp;</a>", "&lt;", "plain", "", "\"&\"<>"] {
        let e = escape_xml(s);
        assert_eq!(unescape(&e), s);
        for (i, _) in e.match_indices('&') {
            let rest = &e[i..];
            assert!(
                rest.starts_with("&amp;")
                    || rest.starts_with("&lt;")
                    || rest.starts_with("&gt;")
                    || rest.starts_with("&quot;")
            );
        }
    }
}

#[test]
fn only_the_first_ten_bytes_of_a_key_are_shown() {
    assert_eq!(key_preview_checked("0123456789abc"), key_preview_checked("0123456789xyz"));
    assert_eq!(key_preview_checked("0123456789abc"), Some("0123456789...".to_string()));
    assert_eq!(key_preview_checked("01234567é-secret"), Some("01234567é...".to_string()));
}
