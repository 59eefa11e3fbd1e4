use vstd::prelude::*;

verus! {

/// Name of the program, also the name of its configuration directory.
pub const NAME: &'static str = "chatwheel-rs";

/// File name of the default chat wheel configuration, inside the configuration directory.
pub const CHATWHEEL_CONF_PATH: &'static str = "chatwheel.json";

/// Name of the directory, inside the configuration directory, that holds the audio files.
pub const CHATWHEEL_CONF_AUDIO_PATH: &'static str = "audio";

/// Named pipe that PulseAudio reads as a microphone source.
pub const CHATHWHEEL_PIPE_PATH: &'static str = "/tmp/chatwheel-rs.pipe";

/// Host of the local configuration web page.
pub const CONFIGURE_HOST: &'static str = "127.0.0.1";

/// Port of the local configuration web page.
pub const CONFIGURE_PORT: u16 = 8053;

} // verus!
