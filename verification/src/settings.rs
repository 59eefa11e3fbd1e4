//! The older settings of the chat wheel: its lines, and audio files named after line ids.
use vstd::prelude::*;

use crate::consts::CHATWHEEL_CONF_AUDIO_PATH;
use crate::line::Line;
use crate::text::{pushed, push_path};

verus! {

/// The file name of the audio of line `id`: the id followed by `.mp3.mpeg.mpga`.
pub open spec fn audio_file_name(id: Seq<char>) -> Seq<char> {
    id + seq!['.', 'm', 'p', '3', '.', 'm', 'p', 'e', 'g', '.', 'm', 'p', 'g', 'a']
}

/// The audio file of line `id` inside the configuration directory `config_dir`.
pub fn get_audio_file_path(config_dir: &str, id: &str) -> (r: String)
    ensures
        r@ == pushed(pushed(config_dir@, CHATWHEEL_CONF_AUDIO_PATH@), audio_file_name(id@)),
{
    let audio_dir = push_path(config_dir, CHATWHEEL_CONF_AUDIO_PATH);
    let mut name = String::from_str(id);
    name.append(".mp3.mpeg.mpga");
    proof {
        reveal_strlit(".mp3.mpeg.mpga");
        assert(name@ =~= audio_file_name(id@));
    }
    push_path(audio_dir.as_str(), name.as_str())
}

/// The lines of the chat wheel.
pub struct Settings {
    pub lines: Vec<Line>,
}

impl Settings {
    /// The settings made of the lines read from the configuration file.
    pub fn load(lines: Vec<Line>) -> (s: Settings)
        ensures
            s.lines == lines,
    {
        Settings { lines }
    }
}

} // verus!
