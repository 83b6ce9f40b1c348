use squeaky::director::{command, director_path, lines, DirectorCmd, DirectorFeed};
use squeaky::frame::{
    demo_due, draw_action, flight_end, fly_back_target, idle_action, point_step, DrawAction, FlightEnd, IdleAction,
    PointStep,
};
use squeaky::modes::RunMode;
use squeaky::hotkey::{event_devices, Chord};
use squeaky::hypr::{cursor_from_reply, cursor_pos, focused_from_reply, focused_monitor, socket_path};
use squeaky::ink::{alive, buddy_at, point_fade, trail_bands, trail_life_us, Fade, PenSession};
use squeaky::json::Json;
use squeaky::session::{
    copy_command, pictures_dir, points_summary, session_id, sessions_log, shot_path, transcript_event, wall_ms,
    wall_ms_of,
};
use squeaky::settings::{
    default_cursor_color, find_model, hex_is_sliceable, home_dir, join, list_models, model_candidates, model_dirs,
    parse_hex_rgb, same_path, settings_from_file, settings_path, status_path, BuddyPrefs, Settings, Status,
};
use squeaky::stt::{decimate, transcript, wav_samples, AudioAction, SttWorker};

fn s(x: &str) -> Json {
    Json::Str(x.to_string())
}

fn n(x: i64) -> Json {
    Json::Num(Some(x))
}

fn obj(fields: Vec<(&str, Json)>) -> Json {
    Json::Obj(fields.into_iter().map(|(k, v)| (k.to_string(), v)).collect())
}

// --- director feed ---------------------------------------------------------------

#[test]
fn director_commands() {
    let fly = obj(vec![("cmd", s("fly")), ("x", n(800)), ("y", n(500)), ("label", s("click here"))]);
    assert_eq!(command(&fly), Some(DirectorCmd::Fly { x: 800, y: 500, label: "click here".into() }));
    let bare = obj(vec![("cmd", s("fly"))]);
    assert_eq!(command(&bare), Some(DirectorCmd::Fly { x: 0, y: 0, label: "look here".into() }));
    let wide = obj(vec![("cmd", s("fly")), ("x", n(4294967297)), ("y", n(-1))]);
    assert_eq!(command(&wide), Some(DirectorCmd::Fly { x: 1, y: -1, label: "look here".into() }));
    assert_eq!(command(&obj(vec![("cmd", s("say"))])), Some(DirectorCmd::Say { text: "".into() }));
    assert_eq!(command(&obj(vec![("cmd", s("say")), ("text", s("hi"))])), Some(DirectorCmd::Say { text: "hi".into() }));
    assert_eq!(command(&obj(vec![("cmd", s("dance"))])), None);
    assert_eq!(command(&Json::Null), None);
}

#[test]
fn agent_events_read_back() {
    let f = squeaky::agent::fly(-3, 7, "there");
    assert_eq!(command(&f), Some(DirectorCmd::Fly { x: -3, y: 7, label: "there".into() }));
    let t = squeaky::agent::say("working");
    assert_eq!(command(&t), Some(DirectorCmd::Say { text: "working".into() }));
}

#[test]
fn text_lines() {
    assert_eq!(lines("a\r\nb\n\nc"), vec!["a", "b", "", "c"]);
    assert!(lines("").is_empty());
    assert_eq!(lines("x\n"), vec!["x"]);
    assert_eq!(lines("\n"), vec![""]);
    assert_eq!(lines("a\rb\r"), vec!["a\rb\r"]);
}

#[test]
fn feed_cursor() {
    let mut feed = DirectorFeed::new(10);
    assert!(!feed.changed(10));
    assert!(feed.changed(11));
    assert!(!feed.changed(11));
    let ev = vec![
        Some(obj(vec![("cmd", s("say")), ("text", s("a"))])),
        None,
        Some(obj(vec![("cmd", s("nop"))])),
        Some(obj(vec![("cmd", s("fly")), ("x", n(1)), ("y", n(2))])),
    ];
    let cmds = feed.take(&ev);
    assert_eq!(
        cmds,
        vec![DirectorCmd::Say { text: "a".into() }, DirectorCmd::Fly { x: 1, y: 2, label: "look here".into() }]
    );
    assert_eq!(feed.seen, 4);
    // nothing is executed twice
    assert!(feed.take(&ev).is_empty());
    let mut more = ev;
    more.push(Some(obj(vec![("cmd", s("say")), ("text", s("b"))])));
    assert_eq!(feed.take(&more), vec![DirectorCmd::Say { text: "b".into() }]);
    // a shrunk file is replayed from the top
    let shrunk = vec![Some(obj(vec![("cmd", s("say")), ("text", s("c"))]))];
    assert_eq!(feed.take(&shrunk), vec![DirectorCmd::Say { text: "c".into() }]);
    feed.unreadable();
    assert_eq!(feed.seen, 0);
    assert_eq!(director_path("/home/u"), "/home/u/.local/state/heyclicky/director.jsonl");
}

#[test]
fn feed_text() {
    let mut feed = DirectorFeed::new(0);
    let txt = "{\"cmd\":\"say\",\"text\":\"researching\u{2026}\"}\nnot json\n{\"cmd\":\"fly\",\"x\":800,\"y\":500,\"label\":\"click here\"}\n";
    assert_eq!(
        feed.take_text(txt),
        vec![
            DirectorCmd::Say { text: "researching\u{2026}".into() },
            DirectorCmd::Fly { x: 800, y: 500, label: "click here".into() },
        ]
    );
    assert_eq!(feed.seen, 3);
    assert!(feed.take_text(txt).is_empty());
    let longer = format!("{}{}\n", txt, "{\"cmd\":\"say\"}");
    assert_eq!(feed.take_text(&longer), vec![DirectorCmd::Say { text: "".into() }]);
    assert_eq!(feed.take_text("{\"cmd\":\"fly\",\"x\":1.5}"), vec![DirectorCmd::Fly { x: 0, y: 0, label: "look here".into() }]);
}

// --- speech ------------------------------------------------------------------------

#[test]
fn transcripts_drop_stage_directions() {
    let segs = vec!["  Hello ".to_string(), "[BLANK_AUDIO]".into(), " (music)".into(), "world ".into()];
    assert_eq!(transcript(&segs), "Helloworld");
    assert_eq!(transcript(&vec![" [MUSIC] ".into()]), "");
    assert_eq!(transcript(&vec![]), "");
    assert_eq!(transcript(&vec![" a b ".into(), "".into()]), "a b");
}

#[test]
fn worker_decisions() {
    let mut w = SttWorker::new("/m/a.bin", true);
    assert!(!w.wants_load("/m/a.bin"));
    assert!(w.wants_load("/m/b.bin"));
    assert!(!w.wants_load("/m//a.bin"));
    assert!(!w.wants_load("/m/./a.bin/"));
    assert!(w.wants_load("m/a.bin"));
    w.load_done("/m/b.bin", false);
    assert_eq!(w.current, "/m/a.bin");
    assert!(w.loaded);
    w.load_done("/m/b.bin", true);
    assert_eq!(w.current, "/m/b.bin");
    assert_eq!(w.on_audio(7999), AudioAction::TooShort);
    assert_eq!(w.on_audio(8000), AudioAction::Transcribe);
    let none = SttWorker::new("/m/x.bin", false);
    assert_eq!(none.on_audio(100000), AudioAction::NoModel);
}

#[test]
fn decimation() {
    let data = [1, 2, 3, 4, 5, 6, 7, 8];
    assert_eq!(decimate(&data, 16000, 1), data.to_vec());
    assert_eq!(decimate(&data, 8000, 1), data.to_vec());
    assert_eq!(decimate(&data, 16000, 2), vec![1, 3, 5, 7]);
    assert_eq!(decimate(&data, 48000, 2), vec![1, 7]);
    assert_eq!(decimate(&data, 48000, 1), vec![1, 4, 7]);
    assert_eq!(decimate(&[1.0f32, 2.0, 3.0], 16000, 2), vec![1.0f32, 3.0]);
    assert!(decimate::<i16>(&[], 44100, 2).is_empty());
}

// `first` is the first field of the fmt chunk, which the reader takes as the
// channel count; the standard channel field after it says stereo
fn wav(chans: u16, rate: u32, data: &[u8], extra: &[u8]) -> Vec<u8> {
    let mut b = b"RIFF".to_vec();
    b.extend_from_slice(&0u32.to_le_bytes());
    b.extend_from_slice(b"WAVE");
    b.extend_from_slice(extra);
    b.extend_from_slice(b"fmt ");
    b.extend_from_slice(&16u32.to_le_bytes());
    b.extend_from_slice(&1u16.to_le_bytes());
    b.extend_from_slice(&chans.to_le_bytes());
    b.extend_from_slice(&rate.to_le_bytes());
    b.extend_from_slice(&[0u8; 8]);
    b.extend_from_slice(b"data");
    b.extend_from_slice(&(data.len() as u32).to_le_bytes());
    b.extend_from_slice(data);
    b
}

#[test]
fn wav_files() {
    let w = wav(1, 16000, &[1, 0, 0xff, 0xff, 0, 0x80], &[]);
    assert_eq!(wav_samples(&w), Ok(vec![1, -1, -32768]));
    // an odd-sized chunk before fmt is skipped with its pad byte
    let w = wav(1, 16000, &[2, 0], b"LIST\x03\x00\x00\x00abc\x00");
    assert_eq!(wav_samples(&w), Ok(vec![2]));
    // stereo PCM16 at 16 kHz: the first channel of each frame
    let w = wav(2, 16000, &[0x00, 0x40, 0, 0, 0x00, 0xC0, 0, 0], &[]);
    assert_eq!(wav_samples(&w), Ok(vec![16384, -16384]));
    // stereo at 32 kHz: the first channel of each frame, every other frame
    let frames: Vec<u8> = (0u8..8).flat_map(|i| [i, 0, 100, 0]).collect();
    let w = wav(2, 32000, &frames, &[]);
    assert_eq!(wav_samples(&w), Ok(vec![0, 2, 4, 6]));
    // the same bytes as mono at 32 kHz: every other sample
    let w = wav(1, 32000, &frames, &[]);
    assert_eq!(wav_samples(&w), Ok(vec![0, 1, 2, 3, 4, 5, 6, 7]));
    // a data chunk longer than the file is cut at the end
    let mut w = wav(1, 16000, &[5, 0, 6, 0], &[]);
    let len = w.len();
    w[len - 8..len - 4].copy_from_slice(&100u32.to_le_bytes());
    assert_eq!(wav_samples(&w), Ok(vec![5, 6]));
    assert_eq!(wav_samples(b"RIFX\x00\x00\x00\x00WAVE"), Err("not a WAV file".to_string()));
    assert_eq!(wav_samples(b"RIFF\x00\x00\x00\x00WAVX"), Err("not a WAV file".to_string()));
    assert_eq!(wav_samples(b"RIFF\x00\x00\x00\x00WAVE"), Err("no fmt chunk".to_string()));
    let mut no_data = b"RIFF\x00\x00\x00\x00WAVEfmt \x10\x00\x00\x00".to_vec();
    no_data.extend_from_slice(&[1, 0, 1, 0, 0x80, 0x3e, 0, 0, 0, 0, 0, 0, 0, 0, 0, 0]);
    assert_eq!(wav_samples(&no_data), Err("no data chunk".to_string()));
}

// --- settings -------------------------------------------------------------------------

#[test]
fn settings_defaults() {
    let d = Settings::default();
    assert!(d.voice_enabled);
    assert_eq!(d.model, "ggml-base.en.bin");
    assert_eq!(d.language, "en");
    assert_eq!(d.buddy_gap, 8);
    assert_eq!(d.cursor_color, "#A78BFA");
    assert_eq!(default_cursor_color(), "#A78BFA");
    assert_eq!(settings_from_file(None).model, "ggml-base.en.bin");
    let mine = Settings { buddy_gap: 20, ..Settings::default() };
    assert_eq!(settings_from_file(Some(mine)).buddy_gap, 20);
    let st = Status::idle("m.bin", "hello");
    assert!(!st.listening && !st.transcribing && !st.agent_busy);
    assert_eq!(st.model, "m.bin");
    assert_eq!(st.last_transcript, "hello");
}

#[test]
fn prefs_follow_settings() {
    let mut p = BuddyPrefs { gap_x: 8, gap_y: 8, voice_enabled: true, cursor_color: "#A78BFA".into(), model_name: "a".into() };
    let s1 = Settings { buddy_gap: 12, model: "b.bin".into(), ..Settings::default() };
    assert!(!p.apply(&s1, false));
    assert_eq!((p.gap_x, p.gap_y), (12, 12));
    assert!(!p.voice_enabled);
    assert_eq!(p.model_name, "b.bin");
    let s2 = Settings { cursor_color: "#FF0000".into(), ..Settings::default() };
    assert!(p.apply(&s2, true));
    assert!(p.voice_enabled);
    assert_eq!(p.cursor_color, "#FF0000");
}

#[test]
fn paths_and_models() {
    assert_eq!(join("/home/u", "x"), "/home/u/x");
    assert_eq!(join("/home/u/", "x"), "/home/u/x");
    assert_eq!(join("", "x"), "x");
    assert_eq!(join("/a", "/b"), "/b");
    assert_eq!(home_dir(None), "/tmp");
    assert_eq!(home_dir(Some("/home/u".into())), "/home/u");
    assert_eq!(settings_path("/home/u"), "/home/u/.config/heyclicky/settings.json");
    assert_eq!(status_path("/home/u"), "/home/u/.local/state/heyclicky/status.json");
    let dirs = model_dirs("/home/u");
    assert_eq!(dirs, vec!["/home/u/.local/share/heyclicky/models", "/home/u/.local/share/voxtype/models"]);
    let c = model_candidates(&dirs, "ggml-base.en.bin");
    assert_eq!(c[1], "/home/u/.local/share/voxtype/models/ggml-base.en.bin");
    assert_eq!(find_model(&c, &vec![false, true]), Some(c[1].clone()));
    assert_eq!(find_model(&c, &vec![true, true]), Some(c[0].clone()));
    assert_eq!(find_model(&c, &vec![false, false]), None);
    let names: Vec<String> = ["b.bin", "a.bin", "x.txt", "b.bin", "c.bin", "B.bin"].iter().map(|x| x.to_string()).collect();
    assert_eq!(list_models(&names), vec!["B.bin", "a.bin", "b.bin", "c.bin"]);
    assert!(list_models(&vec![]).is_empty());
}

#[test]
fn cursor_colors() {
    assert_eq!(parse_hex_rgb(" #A78BFA "), Some((167, 139, 250)));
    assert_eq!(parse_hex_rgb("##a78bfa"), Some((167, 139, 250)));
    assert_eq!(parse_hex_rgb("#fff"), None);
    assert_eq!(parse_hex_rgb("+f+f+f"), Some((15, 15, 15)));
    assert_eq!(parse_hex_rgb("zzzzzz"), None);
    assert!(hex_is_sliceable("é1234"));
    assert_eq!(parse_hex_rgb("é1234"), None);
    assert!(!hex_is_sliceable("aé123"));
    assert!(hex_is_sliceable("#A78BFA"));
}

// --- ink -------------------------------------------------------------------------------

#[test]
fn point_lifetime() {
    assert_eq!(trail_life_us(), 2_100_000);
    assert!(alive(2_099_999, 0));
    assert!(!alive(2_100_000, 0));
    assert_eq!(point_fade(900_000, 0), Fade::Held);
    assert_eq!(point_fade(1_000_000, 0), Fade::Fading { elapsed: 100_000 });
    assert_eq!(point_fade(2_099_999, 0), Fade::Fading { elapsed: 1_199_999 });
    assert_eq!(point_fade(2_100_000, 0), Fade::Gone);
}

#[test]
fn trail_bands_overlap_by_one() {
    assert!(trail_bands(0).is_empty());
    assert!(trail_bands(1).is_empty());
    assert_eq!(trail_bands(2), vec![(0, 2)]);
    assert_eq!(trail_bands(6), vec![(0, 6)]);
    assert_eq!(trail_bands(7), vec![(0, 6), (5, 7)]);
    assert_eq!(trail_bands(10), vec![(0, 6), (5, 10)]);
    assert_eq!(trail_bands(13), vec![(0, 6), (5, 11), (10, 13)]);
    // every segment is painted by exactly one band
    for len in 2..40usize {
        let b = trail_bands(len);
        for k in 0..len - 1 {
            assert_eq!(b.iter().filter(|(s, e)| *s <= k && k + 1 < *e).count(), 1);
        }
    }
}

#[test]
fn pen_sessions() {
    let mut p = PenSession::new();
    assert!(p.pen_down(100, 5000, Some((10, 10)), true, false));
    assert_eq!(p.pts, 1);
    assert_eq!((p.start_mono, p.start_wall), (100, 5000));
    assert!(!p.on_cursor(10, 10));
    assert!(p.on_cursor(11, 10));
    assert_eq!(p.pts, 2);
    let up = p.pen_up(Some(8000), true);
    assert!(up.capture && up.send_audio);
    assert_eq!(p.pts, 0);
    // a tap without movement captures nothing
    assert!(!p.pen_down(200, 6000, Some((3, 3)), true, true));
    let up = p.pen_up(Some(7999), true);
    assert!(!up.capture && !up.send_audio);
    // the synthetic pen does not start the microphone
    assert!(!p.pen_down(300, 7000, None, true, false));
    assert_eq!(p.pts, 0);
    p.on_synthetic();
    p.on_synthetic();
    assert!(p.pen_up(None, true).capture);
    assert_eq!(buddy_at(100, 200, 8, 8), (108, 208));
}

// --- hotkey, hyprland, session -------------------------------------------------------------

#[test]
fn chord_state() {
    let mut c = Chord::new();
    assert_eq!(c.on_event(true, 29, 1), Some(false));
    assert_eq!(c.on_event(false, 56, 1), None);
    assert_eq!(c.on_event(true, 100, 1), Some(true));
    assert_eq!(c.on_event(true, 100, 2), Some(true));
    assert_eq!(c.on_event(true, 30, 0), Some(true));
    // either ctrl key releases the ctrl half
    assert_eq!(c.on_event(true, 97, 0), Some(false));
}

#[test]
fn input_devices() {
    let paths: Vec<String> = ["/dev/input/mice", "/dev/input/event3", "/dev/input/event1", "/dev/input/by-id"]
        .iter()
        .map(|x| x.to_string())
        .collect();
    assert_eq!(event_devices(&paths), vec!["/dev/input/event1", "/dev/input/event3"]);
}

#[test]
fn hyprland_replies() {
    assert_eq!(socket_path(1000, "abc_1"), "/run/user/1000/hypr/abc_1/.socket.sock");
    assert_eq!(cursor_pos(&obj(vec![("x", n(10)), ("y", n(20))])), Some((10, 20)));
    assert_eq!(cursor_pos(&obj(vec![("x", n(10))])), None);
    assert_eq!(cursor_pos(&obj(vec![("x", n(10)), ("y", s("1"))])), None);
    let mons = Json::Arr(vec![
        obj(vec![("name", s("A")), ("focused", Json::Bool(false))]),
        obj(vec![("name", s("B")), ("focused", Json::Bool(true))]),
        obj(vec![("name", s("C")), ("focused", Json::Bool(true))]),
    ]);
    assert_eq!(focused_monitor(&mons), Some("B".to_string()));
    let nameless = Json::Arr(vec![obj(vec![("focused", Json::Bool(true))]), obj(vec![("name", s("D")), ("focused", Json::Bool(true))])]);
    assert_eq!(focused_monitor(&nameless), None);
    assert_eq!(focused_monitor(&obj(vec![])), None);
    // the raw replies
    assert_eq!(cursor_from_reply(b"{\"x\": 1280, \"y\": -4}"), Some((1280, -4)));
    assert_eq!(cursor_from_reply(b"unknown request"), None);
    assert_eq!(cursor_from_reply(b"{\"x\": 1.5, \"y\": 2}"), None);
    let out = br#"[{"name":"eDP-1","focused":false},{"name":"HDMI-A-1","focused":true}]"#;
    assert_eq!(focused_from_reply(out), Some("HDMI-A-1".to_string()));
    assert_eq!(focused_from_reply(b""), None);
}

#[test]
fn session_records() {
    assert_eq!(session_id(1718000000123), "ink-1718000000123");
    assert_eq!(points_summary(42), "[42 pts]");
    assert_eq!(pictures_dir("/home/u"), "/home/u/Pictures/heyclicky");
    assert_eq!(shot_path("/home/u/Pictures/heyclicky", 17), "/home/u/Pictures/heyclicky/ink-17.png");
    assert_eq!(copy_command("/p/x.png"), "exec wl-copy -t image/png < '/p/x.png'");
    assert_eq!(sessions_log("/home/u"), "/home/u/.local/state/heyclicky/sessions.jsonl");
    assert_eq!(
        transcript_event("ink-1", "hi"),
        obj(vec![("kind", s("transcript")), ("session", s("ink-1")), ("text", s("hi"))])
    );
    assert_eq!(wall_ms_of(None), 0);
    assert_eq!(wall_ms_of(Some(1234)), 1234);
    assert_eq!(wall_ms_of(Some(u64::MAX as u128 + 5)), 4);
    // the clock is well past 2020
    assert!(wall_ms() > 1_577_836_800_000);
}

#[test]
fn paths_compare_by_components() {
    assert!(same_path("a//b/", "a/b"));
    assert!(same_path("/x/./y", "/x/y"));
    assert!(same_path("", ""));
    assert!(!same_path("./a", "a"));
    assert!(same_path("./a", "./a/"));
    assert!(!same_path("/a", "a"));
    assert!(!same_path("/a/b", "/a/c"));
    assert!(!same_path("/a/b", "/a/b/c"));
    assert!(!same_path("/a/../b", "/b"));
}

#[test]
fn frame_decisions_while_hidden() {
    assert_eq!(idle_action(&RunMode::Hotkey, false, 10, true), IdleAction::PenDownAtCursor);
    assert_eq!(idle_action(&RunMode::Hotkey, false, 10, false), IdleAction::Nothing);
    assert_eq!(idle_action(&RunMode::Demo, false, 10, true), IdleAction::Nothing);
    assert_eq!(idle_action(&RunMode::Scribble, false, 800_000, true), IdleAction::Nothing);
    assert_eq!(idle_action(&RunMode::Scribble, false, 800_001, false), IdleAction::SyntheticPenDown);
    assert_eq!(idle_action(&RunMode::Scribble, true, 900_000, true), IdleAction::Nothing);
    assert_eq!(idle_action(&RunMode::Follow { secs: 3 }, false, 10, true), IdleAction::PenDownAtCursor);
    assert!(demo_due(&RunMode::Demo, false, 2_000_001));
    assert!(!demo_due(&RunMode::Demo, false, 2_000_000));
    assert!(!demo_due(&RunMode::Demo, true, 5_000_000));
    assert!(!demo_due(&RunMode::Hotkey, false, 5_000_000));
}

#[test]
fn frame_decisions_while_drawing() {
    assert_eq!(draw_action(Some((0, 70)), false), DrawAction::Synthetic { release: false });
    assert_eq!(draw_action(Some((68, 70)), true), DrawAction::Synthetic { release: false });
    assert_eq!(draw_action(Some((69, 70)), true), DrawAction::Synthetic { release: true });
    assert_eq!(draw_action(None, false), DrawAction::Release);
    assert_eq!(draw_action(None, true), DrawAction::FollowCursor);
}

#[test]
fn frame_decisions_after_flights() {
    assert_eq!(flight_end(true, 5_000_000), FlightEnd::Hide);
    assert_eq!(flight_end(false, 5_000_000), FlightEnd::Point { until: 6_200_000 });
    assert_eq!(point_step(100, 200, 2), PointStep::Hold);
    assert_eq!(point_step(200, 200, 2), PointStep::NextTarget);
    assert_eq!(point_step(300, 200, 0), PointStep::BackToCursor);
    assert_eq!(fly_back_target(Some((800, 500))), Some((795, 497)));
    assert_eq!(fly_back_target(None), None);
}
