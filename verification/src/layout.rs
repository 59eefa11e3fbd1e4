//! The chat wheel window: where each line's button goes, what a click on it
//! runs, and the command that sends a line to the microphone.
use vstd::prelude::*;

use crate::chatwheel::Chatwheel;
use crate::consts::CHATHWHEEL_PIPE_PATH;
use crate::line::{Line, LineView};

verus! {

/// The cells of the wheel's grid, in the order the lines take them: a circle
/// around the centre of a five by five grid.
pub open spec fn wheel_coords() -> Seq<(i32, i32)> {
    seq![
        (1i32, 3i32),
        (5i32, 3i32),
        (3i32, 1i32),
        (3i32, 5i32),
        (1i32, 1i32),
        (5i32, 5i32),
        (1i32, 5i32),
        (5i32, 1i32),
        (5i32, 2i32),
        (1i32, 4i32),
        (2i32, 1i32),
        (4i32, 5i32),
        (1i32, 2i32),
        (5i32, 4i32),
        (2i32, 5i32),
        (4i32, 1i32),
    ]
}

/// The column of the close button, in the centre of the grid.
pub const CLOSE_X: i32 = 3;

/// The row of the close button, in the centre of the grid.
pub const CLOSE_Y: i32 = 3;

/// The label of the close button.
pub const CLOSE_LABEL: &'static str = "X";

/// The cells of the wheel's grid, in the order the lines take them; as many
/// lines as there are cells get a button.
pub fn get_coords(_n: usize) -> (r: Vec<(i32, i32)>)
    ensures
        r@ == wheel_coords(),
{
    let r = vec![
        (1i32, 3i32),
        (5i32, 3i32),
        (3i32, 1i32),
        (3i32, 5i32),
        (1i32, 1i32),
        (5i32, 5i32),
        (1i32, 5i32),
        (5i32, 1i32),
        (5i32, 2i32),
        (1i32, 4i32),
        (2i32, 1i32),
        (4i32, 5i32),
        (1i32, 2i32),
        (5i32, 4i32),
        (2i32, 5i32),
        (4i32, 1i32),
    ];
    assert(r@ =~= wheel_coords());
    r
}

/// Law: the wheel's cells lie in the five by five grid, no two lines share a
/// cell, and none takes the close button's cell in the centre.
pub proof fn law_wheel_cells()
    ensures
        forall|i: int|
            0 <= i < wheel_coords().len() ==> 1 <= (#[trigger] wheel_coords()[i]).0 <= 5 && 1
                <= wheel_coords()[i].1 <= 5 && wheel_coords()[i] != (CLOSE_X, CLOSE_Y),
        forall|i: int, j: int|
            0 <= i < j < wheel_coords().len() ==> #[trigger] wheel_coords()[i]
                != #[trigger] wheel_coords()[j],
{
    let c = wheel_coords();
    assert(c.len() == 16);
    assert forall|i: int, j: int| 0 <= i < j < c.len() implies #[trigger] c[i] != #[trigger] c[j] by {
        assert(c[0] == (1i32, 3i32));
        assert(c[1] == (5i32, 3i32));
        assert(c[2] == (3i32, 1i32));
        assert(c[3] == (3i32, 5i32));
        assert(c[4] == (1i32, 1i32));
        assert(c[5] == (5i32, 5i32));
        assert(c[6] == (1i32, 5i32));
        assert(c[7] == (5i32, 1i32));
        assert(c[8] == (5i32, 2i32));
        assert(c[9] == (1i32, 4i32));
        assert(c[10] == (2i32, 1i32));
        assert(c[11] == (4i32, 5i32));
        assert(c[12] == (1i32, 2i32));
        assert(c[13] == (5i32, 4i32));
        assert(c[14] == (2i32, 5i32));
        assert(c[15] == (4i32, 1i32));
    }
}

/// A button of the wheel: its label, its cell, and the index of its line.
pub struct WheelButton {
    pub label: String,
    pub x: i32,
    pub y: i32,
    pub line: usize,
}

/// The number of buttons for `n` lines: one per line, as far as cells go.
pub open spec fn button_count(n: nat) -> nat {
    if n < wheel_coords().len() {
        n
    } else {
        wheel_coords().len()
    }
}

/// The shell command that plays the line with id `id`, sending it to the
/// microphone too when `forward` is set.
pub open spec fn play_command(id: Seq<char>, forward: bool) -> Seq<char> {
    PLAY_PROGRAM@ + (if forward {
        FORWARD_FLAG@
    } else {
        Seq::empty()
    }) + PLAY_ARG@ + id
}

/// Pieces of the command that plays a line.
pub const PLAY_PROGRAM: &'static str = "chatwheel-rs ";

pub const FORWARD_FLAG: &'static str = "--forward-to-mic";

pub const PLAY_ARG: &'static str = " play ";

/// What a click on a line's button does.
pub enum Click {
    /// Close the wheel.
    Close,
    /// Run the shell command, then close the wheel.
    PlayAndClose(String),
    /// The line has recordings but no id: it cannot be played.
    MissingId,
}

/// What a click on the button of line `line` does: a line without recordings
/// only closes the wheel; a line with recordings is played by running the
/// program on its id, then the wheel closes.
pub open spec fn click_spec(line: LineView, forward: bool, r: Click) -> bool {
    if line.audios.len() == 0 {
        r is Close
    } else {
        match line.id {
            None => r is MissingId,
            Some(id) => r matches Click::PlayAndClose(c) && c@ == play_command(id, forward),
        }
    }
}

/// What a click on the button of `line` does (see `click_spec`).
pub fn click_action(line: &Line, forward: bool) -> (r: Click)
    ensures
        click_spec(line@, forward, r),
{
    if line.audios.len() == 0 {
        return Click::Close;
    }
    match &line.id {
        None => Click::MissingId,
        Some(id) => {
            let mut c = String::from_str(PLAY_PROGRAM);
            if forward {
                c.append(FORWARD_FLAG);
            }
            c.append(PLAY_ARG);
            c.append(id.as_str());
            proof {
                let f: Seq<char> = if forward { FORWARD_FLAG@ } else { Seq::empty() };
                assert(c@ =~= play_command(id@, forward));
            }
            Click::PlayAndClose(c)
        },
    }
}

/// Pieces of the command that sends an audio file to the microphone pipe.
pub const FFMPEG_OPEN: &'static str = "ffmpeg -re -i ";

pub const FFMPEG_TO_PIPE: &'static str = " -f s16le -ar 44100 -ac 2 - > ";

/// The shell command that decodes the audio file `line_path` in real time
/// into the pipe that PulseAudio reads as a microphone.
pub fn forward_command(line_path: &str) -> (r: String)
    ensures
        r@ == FFMPEG_OPEN@ + line_path@ + FFMPEG_TO_PIPE@ + CHATHWHEEL_PIPE_PATH@,
{
    let mut r = String::from_str(FFMPEG_OPEN);
    r.append(line_path);
    r.append(FFMPEG_TO_PIPE);
    r.append(CHATHWHEEL_PIPE_PATH);
    r
}

/// The chat wheel window.
pub struct App {
    chatwheel: Chatwheel,
}

impl App {
    /// The chat wheel the window shows.
    pub closed spec fn wheel(self) -> Chatwheel {
        self.chatwheel
    }

    /// A window showing `chatwheel`.
    pub fn new(chatwheel: Chatwheel) -> (r: App)
        ensures
            r.wheel() == chatwheel,
    {
        App { chatwheel }
    }

    /// Whether played lines are also sent to the microphone.
    pub fn forward_audio_enabled(&self) -> (r: bool)
        ensures
            r == self.wheel().forward_audio_enabled,
    {
        self.chatwheel.forward_audio_enabled
    }

    /// The buttons of the lines: the `i`-th line, labelled with its text, in
    /// the `i`-th cell of the wheel, for as many lines as there are cells.
    pub fn buttons(&self) -> (r: Vec<WheelButton>)
        ensures
            r@.len() == button_count(self.wheel().lines@.len()),
            forall|i: int|
                0 <= i < r@.len() ==> (#[trigger] r@[i]).line == i && r@[i].label@
                    == self.wheel().lines@[i].text@ && (r@[i].x, r@[i].y) == wheel_coords()[i],
    {
        let coords = get_coords(self.chatwheel.lines.len());
        let n = if self.chatwheel.lines.len() < coords.len() {
            self.chatwheel.lines.len()
        } else {
            coords.len()
        };
        let mut r: Vec<WheelButton> = Vec::new();
        for i in 0..n
            invariant
                coords@ == wheel_coords(),
                n == button_count(self.wheel().lines@.len()),
                n <= self.chatwheel.lines@.len(),
                r@.len() == i,
                forall|j: int|
                    0 <= j < i ==> (#[trigger] r@[j]).line == j && r@[j].label@
                        == self.wheel().lines@[j].text@ && (r@[j].x, r@[j].y) == wheel_coords()[j],
        {
            let (x, y) = coords[i];
            r.push(WheelButton { label: self.chatwheel.lines[i].text.clone(), x, y, line: i });
        }
        r
    }

    /// What a click on the button of line `i` does (see `click_spec`).
    pub fn click(&self, i: usize) -> (r: Click)
        requires
            i < self.wheel().lines@.len(),
        ensures
            click_spec(self.wheel().lines@[i as int]@, self.wheel().forward_audio_enabled, r),
    {
        click_action(&self.chatwheel.lines[i], self.chatwheel.forward_audio_enabled)
    }
}

/// Law: the wheel has sixteen cells, and every line gets a button as long as
/// cells last: `n` lines get `n` buttons up to sixteen, and sixteen beyond.
pub proof fn law_every_line_gets_a_cell(n: nat)
    ensures
        wheel_coords().len() == 16,
        n <= 16 ==> button_count(n) == n,
        n >= 16 ==> button_count(n) == 16,
        button_count(n) <= n,
{
}

} // verus!
