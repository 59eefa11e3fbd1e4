use chatwheel::cli::{plan, run_play, Step};
use chatwheel::layout::{click_action, forward_command, get_coords, App, Click};
use chatwheel::line::Line;
use chatwheel::pulseaudio::{parse_module_id, setup_script, PulseSetup, SetupError};
use chatwheel::text::decimal_string;
use chatwheel::chatwheel::Chatwheel;

fn line(id: Option<&str>, text: &str, audios: &[&str]) -> Line {
    Line {
        id: id.map(|s| s.to_string()),
        text: text.to_string(),
        audios: audios.iter().map(|s| s.to_string()).collect(),
    }
}

#[test]
fn setup_script_commands() {
    let s = setup_script("alsa_input.pci\n");
    assert_eq!(s.len(), 6);
    assert_eq!(s[0], "pactl load-module module-pipe-source source_name=Chatwheel file=/tmp/chatwheel-rs.pipe");
    assert_eq!(s[2], "pactl load-module module-loopback sink=ChatwheelMicSink source=Chatwheel latency_msec=100");
    assert_eq!(s[3], "pactl load-module module-loopback sink=ChatwheelMicSink source=alsa_input.pci\n");
    assert_eq!(s[4], "pactl load-module module-null-sink sink_name=drop");
}

#[test]
fn module_ids_parse_like_std() {
    for s in ["42\n", "  7 ", "+9", "0", "4294967295", "4294967296", "", "\n", "-1", "1 2", "abc", "+", "\u{3000}5\u{85}", "０", "007"] {
        assert_eq!(parse_module_id(s), s.trim().parse::<u32>().ok(), "{:?}", s);
    }
}

#[test]
fn decimal_reads_back() {
    for n in [0u32, 1, 9, 10, 99, 100, 8053, 65535, 4294967295] {
        assert_eq!(parse_module_id(&decimal_string(n)), Some(n));
    }
}

#[test]
fn setup_runs_commands_in_order() {
    let mut setup = PulseSetup::new("mic");
    let (i, cmd) = setup.next_command().unwrap();
    assert_eq!(i, 0);
    assert!(cmd.starts_with("pactl load-module module-pipe-source"));
    assert!(setup.record(true, "25\n").is_ok());
    let (i, _) = setup.next_command().unwrap();
    assert_eq!(i, 1);
    assert!(setup.record(true, "26\n").is_ok());
    assert_eq!(setup.loaded_modules(), &vec![25, 26]);
    assert!(setup.record(false, "").is_ok());
    assert!(setup.next_command().is_none());
    assert_eq!(setup.loaded_modules(), &vec![25, 26]);
}

#[test]
fn setup_runs_all_six() {
    let mut setup = PulseSetup::new("mic");
    let mut n = 0;
    while let Some((i, _)) = setup.next_command() {
        assert_eq!(i, n);
        assert!(setup.record(true, &format!("{}\n", 100 + i)).is_ok());
        n += 1;
    }
    assert_eq!(n, 6);
    assert_eq!(setup.loaded_modules(), &vec![100, 101, 102, 103, 104, 105]);
}

#[test]
fn setup_error_on_bad_output() {
    let mut setup = PulseSetup::new("mic");
    assert!(matches!(setup.record(true, "Failure: oops"), Err(SetupError::InvalidModuleId)));
    assert!(setup.next_command().is_none());
    assert!(setup.loaded_modules().is_empty());
}

#[test]
fn coords_are_the_circle() {
    let c = get_coords(3);
    assert_eq!(c.len(), 16);
    assert_eq!(c[0], (1, 3));
    assert_eq!(c[15], (4, 1));
    for i in 0..c.len() {
        assert!(c[i] != (3, 3));
        assert!((1..=5).contains(&c[i].0) && (1..=5).contains(&c[i].1));
        for j in (i + 1)..c.len() {
            assert!(c[i] != c[j]);
        }
    }
}

#[test]
fn buttons_follow_lines() {
    let lines: Vec<Line> = (0..20).map(|i| line(Some(&format!("l{}", i)), &format!("text {}", i), &[])).collect();
    let app = App::new(Chatwheel::load(lines));
    let b = app.buttons();
    assert_eq!(b.len(), 16);
    assert_eq!(b[0].label, "text 0");
    assert_eq!((b[0].x, b[0].y), (1, 3));
    assert_eq!(b[5].line, 5);
    let few = App::new(Chatwheel::load(vec![line(Some("a"), "A", &[])]));
    assert_eq!(few.buttons().len(), 1);
}

#[test]
fn click_actions() {
    assert!(matches!(click_action(&line(Some("a"), "A", &[]), true), Click::Close));
    assert!(matches!(click_action(&line(None, "A", &["u"]), false), Click::MissingId));
    match click_action(&line(Some("thanks"), "A", &["u"]), true) {
        Click::PlayAndClose(c) => assert_eq!(c, "chatwheel-rs --forward-to-mic play thanks"),
        _ => panic!("expected a command"),
    }
    match click_action(&line(Some("thanks"), "A", &["u"]), false) {
        Click::PlayAndClose(c) => assert_eq!(c, "chatwheel-rs  play thanks"),
        _ => panic!("expected a command"),
    }
    let mut wheel = Chatwheel::load(vec![line(Some("x"), "X", &["u"])]);
    wheel.set_forward_audio(true);
    let app = App::new(wheel);
    assert!(app.forward_audio_enabled());
    assert!(matches!(app.click(0), Click::PlayAndClose(_)));
}

#[test]
fn ffmpeg_command() {
    assert_eq!(
        forward_command("/c/audio/thanks.mp3"),
        "ffmpeg -re -i /c/audio/thanks.mp3 -f s16le -ar 44100 -ac 2 - > /tmp/chatwheel-rs.pipe"
    );
}

fn names(steps: &[Step]) -> Vec<String> {
    steps
        .iter()
        .map(|s| match s {
            Step::ForwardAudio(id) => format!("forward {}", id),
            Step::PlayAudio(id) => format!("play {}", id),
            Step::Configure => "config".to_string(),
            Step::Gui(f) => format!("gui {}", f),
        })
        .collect()
}

#[test]
fn play_steps() {
    assert_eq!(names(&run_play("a", true)), vec!["forward a", "play a"]);
    assert_eq!(names(&run_play("a", false)), vec!["play a"]);
}

#[test]
fn plans_for_options() {
    assert_eq!(names(&plan(&None, false, false)), vec!["gui false"]);
    assert_eq!(names(&plan(&None, true, false)), vec!["gui true"]);
    assert_eq!(names(&plan(&Some("x".to_string()), true, true)), vec!["forward x", "play x", "config"]);
    assert_eq!(names(&plan(&None, true, true)), vec!["config"]);
    assert_eq!(names(&plan(&Some("x".to_string()), false, false)), vec!["play x"]);
}
