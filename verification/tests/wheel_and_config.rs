use chatwheel::chatwheel::{
    audio_dir, chatwheel_config_dir, config_file, config_lines, find_audio_entry, profile_config_file,
    profile_file, Chatwheel,
};
use chatwheel::configure::{
    browser_command, configure_address, configure_line_table, configure_page, is_configured,
    save_path, selected_line_ids,
};
use chatwheel::line::{Line, Lines};
use chatwheel::settings::{get_audio_file_path, Settings};

fn line(id: Option<&str>, text: &str, audios: &[&str]) -> Line {
    Line {
        id: id.map(|s| s.to_string()),
        text: text.to_string(),
        audios: audios.iter().map(|s| s.to_string()).collect(),
    }
}

fn catalogue() -> Lines {
    let mut all = Lines::new();
    all.insert("thanks".to_string(), line(None, "Thanks!", &["https://x/thanks.mp3"]));
    all.insert("ez".to_string(), line(None, "Easiest money of my life", &[]));
    all.insert("wow".to_string(), line(None, "Wow", &["https://x/wow.mp3", "https://x/wow2.mp3"]));
    all
}

fn strings(v: &[&str]) -> Vec<String> {
    v.iter().map(|s| s.to_string()).collect()
}

#[test]
fn empty_chatwheel() {
    let c = Chatwheel::empty();
    assert!(!c.forward_audio_enabled);
    assert!(c.lines.is_empty());
    assert!(c.profile.is_none());
}

#[test]
fn load_keeps_lines() {
    let c = Chatwheel::load(vec![line(Some("a"), "A", &[])]);
    assert_eq!(c.lines.len(), 1);
    assert_eq!(c.lines[0].text, "A");
    assert!(c.profile.is_none());
    assert!(!c.forward_audio_enabled);
}

#[test]
fn load_by_profile_sets_profile() {
    let c = Chatwheel::load_by_profile("dota", vec![line(Some("a"), "A", &[])]);
    assert_eq!(c.profile.as_deref(), Some("dota"));
    assert_eq!(c.lines.len(), 1);
}

#[test]
fn setters_change_one_field() {
    let mut c = Chatwheel::load(vec![line(Some("a"), "A", &[])]);
    c.set_profile("p".to_string());
    assert_eq!(c.profile.as_deref(), Some("p"));
    c.set_forward_audio(true);
    assert!(c.forward_audio_enabled);
    assert_eq!(c.profile.as_deref(), Some("p"));
    assert_eq!(c.lines.len(), 1);
}

#[test]
fn config_paths() {
    let dir = chatwheel_config_dir("/home/u/.config");
    assert_eq!(dir, "/home/u/.config/chatwheel-rs");
    assert_eq!(audio_dir(&dir), "/home/u/.config/chatwheel-rs/audio");
    assert_eq!(config_file(&dir), "/home/u/.config/chatwheel-rs/chatwheel.json");
    assert_eq!(profile_file("dota"), "dota.json");
    assert_eq!(profile_config_file(&dir, "dota"), "/home/u/.config/chatwheel-rs/dota.json");
}

#[test]
fn settings_audio_file_path() {
    assert_eq!(
        get_audio_file_path("/c/chatwheel-rs", "thanks"),
        "/c/chatwheel-rs/audio/thanks.mp3.mpeg.mpga"
    );
    let s = Settings::load(vec![line(None, "x", &[])]);
    assert_eq!(s.lines.len(), 1);
}

#[test]
fn find_audio_entry_first_prefix() {
    let names = strings(&["wow.mp3", "thanks.mp3", "thanks2.mp3"]);
    assert_eq!(find_audio_entry(&names, "thanks"), Some(1));
    assert_eq!(find_audio_entry(&names, "ez"), None);
    assert_eq!(find_audio_entry(&names, ""), Some(0));
}

#[test]
fn config_lines_all_found() {
    let all = catalogue();
    let plan = config_lines(&all, &strings(&["wow", "ez"]));
    assert!(plan.missing.is_none());
    assert_eq!(plan.lines.len(), 2);
    assert_eq!(plan.lines[0].id.as_deref(), Some("wow"));
    assert_eq!(plan.lines[0].text, "Wow");
    assert_eq!(plan.lines[0].audios.len(), 2);
    assert_eq!(plan.lines[1].id.as_deref(), Some("ez"));
    assert_eq!(plan.fetches, vec![("wow".to_string(), "https://x/wow.mp3".to_string())]);
}

#[test]
fn config_lines_stops_at_missing() {
    let all = catalogue();
    let plan = config_lines(&all, &strings(&["thanks", "nope", "wow"]));
    assert_eq!(plan.missing, Some(1));
    assert_eq!(plan.lines.len(), 1);
    assert_eq!(plan.fetches, vec![("thanks".to_string(), "https://x/thanks.mp3".to_string())]);
}

fn expected_row(id: &str, l: &Line, checked: bool) -> String {
    let audio_button = if let Some(audio) = l.audios.get(0) {
        format!(
            "
                    <button type='button' onclick='this.nextElementSibling.play()'>Play</button>
                    <audio preload='none'><source src='{}' type='audio/mpeg'></audio>
                ",
            audio
        )
    } else {
        format!("")
    };
    format!(
        "<tr>
                    <td class='line-checkbox'>
                        <input type='checkbox' id='{id}' name='{id}' {checked}>
                    </td>
                    <td class='line-id'>
                        {id}
                    </td>
                    <td class='line-audio'>
                        {audio}
                    </td>
                    <td class='line-text'>
                        <label for='{id}'>{line}</label>
                    </td>
                </tr>",
        id = id,
        line = l.text,
        checked = if checked { "checked" } else { "" },
        audio = audio_button,
    )
}

#[test]
fn line_table_matches_format() {
    let all = catalogue();
    let wheel = Chatwheel::load(vec![line(Some("wow"), "Wow", &[])]);
    let table = configure_line_table(&wheel, &all).unwrap();
    let rows = vec![
        expected_row("ez", all.get("ez").unwrap(), false),
        expected_row("thanks", all.get("thanks").unwrap(), false),
        expected_row("wow", all.get("wow").unwrap(), true),
    ];
    assert_eq!(table, format!("<table>{}</table>", rows.join("\n")));
}

#[test]
fn line_table_of_empty_catalogue() {
    let wheel = Chatwheel::empty();
    assert_eq!(configure_line_table(&wheel, &Lines::new()).unwrap(), "<table></table>");
}

#[test]
fn line_table_fails_on_line_without_id() {
    let all = catalogue();
    let wheel = Chatwheel::load(vec![line(None, "no id", &[])]);
    assert!(configure_line_table(&wheel, &all).is_none());
    assert!(configure_page(&wheel, &all).is_none());
}

#[test]
fn is_configured_scans_in_order() {
    let lines = vec![line(Some("a"), "A", &[]), line(None, "B", &[])];
    assert_eq!(is_configured(&lines, "a"), Some(true));
    assert_eq!(is_configured(&lines, "b"), None);
    assert_eq!(is_configured(&lines[..1].to_vec(), "b"), Some(false));
}

#[test]
fn page_wraps_table() {
    let all = catalogue();
    let wheel = Chatwheel::empty();
    let table = configure_line_table(&wheel, &all).unwrap();
    let page = configure_page(&wheel, &all).unwrap();
    let expected = format!(
        "<html>
            <head>
                <title>chatwheel-rs config</title>
                <meta charset='utf-8'>
                <style>
                    #save-button {{
                        position: fixed;
                        top: 40px;
                        right: 40px;
                        font-size: 20px;
                    }}
                    tr:nth-child(odd) {{
                        background-color: #E6E6E6;
                    }}
                    td {{
                        padding: 3px;
                    }}
                </style>
            </head>
            <body>
            <form method='POST' action='/'>
                <button type='submit' id='save-button'>Save</button>
                {}
            </form>
            </body>
        </html>",
        table
    );
    assert_eq!(page, expected);
}

fn std_split_selection(body: &str) -> Vec<String> {
    body.split('&')
        .map(|kv| kv.split('=').collect::<Vec<_>>())
        .filter_map(|item| match item[..] {
            [key, "on"] => Some(key.to_string()),
            _ => None,
        })
        .collect()
}

#[test]
fn selected_ids_from_form() {
    assert_eq!(selected_line_ids("a=on&b=off&c=on&d"), strings(&["a", "c"]));
    assert_eq!(selected_line_ids(""), Vec::<String>::new());
    assert_eq!(selected_line_ids("x=y=on&=on&&on"), strings(&[""]));
}

#[test]
fn selected_ids_match_split() {
    for body in ["a=on", "a=on&", "&a=on", "a=onn&b=on", "a==on", "é=on&ü=on", "=on=on", "a=on&a=on"] {
        assert_eq!(selected_line_ids(body), std_split_selection(body), "{:?}", body);
    }
}

#[test]
fn form_roundtrip_gives_back_checked_ids() {
    let ids = strings(&["thanks", "wow", "ez"]);
    let body = ids.iter().map(|k| format!("{}=on", k)).collect::<Vec<_>>().join("&");
    assert_eq!(selected_line_ids(&body), ids);
}

#[test]
fn saved_selection_is_checked_on_page() {
    let all = catalogue();
    let plan = config_lines(&all, &strings(&["wow", "ez"]));
    let wheel = Chatwheel::load(plan.lines);
    for (key, expected) in [("wow", true), ("ez", true), ("thanks", false)] {
        assert_eq!(is_configured(&wheel.lines, key), Some(expected));
    }
}

#[test]
fn save_paths() {
    assert_eq!(save_path("/c/chatwheel-rs", &None), "/c/chatwheel-rs/chatwheel-rs/chatwheel.json");
    assert_eq!(
        save_path("/c/chatwheel-rs", &Some("dota".to_string())),
        "/c/chatwheel-rs/chatwheel-rs/dota.json"
    );
}

#[test]
fn address_and_browser() {
    assert_eq!(configure_address(), "http://127.0.0.1:8053");
    assert_eq!(browser_command(), "/etc/alternatives/x-www-browser http://127.0.0.1:8053");
}
