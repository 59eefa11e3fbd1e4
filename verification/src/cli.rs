//! What the program does for its command line options.
use vstd::prelude::*;

verus! {

/// One thing the program does.
pub enum Step {
    /// Send the audio of the line with this id to the microphone.
    ForwardAudio(String),
    /// Play the audio of the line with this id.
    PlayAudio(String),
    /// Open the configuration page.
    Configure,
    /// Show the chat wheel window, with forwarding to the microphone on or off.
    Gui(bool),
}

/// A step as plain values.
pub enum StepView {
    ForwardAudio(Seq<char>),
    PlayAudio(Seq<char>),
    Configure,
    Gui(bool),
}

impl View for Step {
    type V = StepView;

    open spec fn view(&self) -> StepView {
        match self {
            Step::ForwardAudio(id) => StepView::ForwardAudio(id@),
            Step::PlayAudio(id) => StepView::PlayAudio(id@),
            Step::Configure => StepView::Configure,
            Step::Gui(f) => StepView::Gui(*f),
        }
    }
}

pub open spec fn steps_view(v: Seq<Step>) -> Seq<StepView> {
    v.map_values(|s: Step| s@)
}

/// Playing line `id`: first sent to the microphone when forwarding is on, then
/// played.
pub open spec fn play_steps(id: Seq<char>, forward: bool) -> Seq<StepView> {
    if forward {
        seq![StepView::ForwardAudio(id), StepView::PlayAudio(id)]
    } else {
        seq![StepView::PlayAudio(id)]
    }
}

/// The steps of playing line `id`.
pub fn run_play(id: &str, forward_audio_enabled: bool) -> (r: Vec<Step>)
    ensures
        steps_view(r@) == play_steps(id@, forward_audio_enabled),
{
    let mut r: Vec<Step> = Vec::new();
    if forward_audio_enabled {
        r.push(Step::ForwardAudio(String::from_str(id)));
    }
    r.push(Step::PlayAudio(String::from_str(id)));
    assert(steps_view(r@) =~= play_steps(id@, forward_audio_enabled));
    r
}

/// The steps for the options given: `--play ID` plays the line, `--config`
/// opens the configuration page after it, and with neither the wheel window
/// shows.
pub open spec fn plan_spec(play: Option<Seq<char>>, forward: bool, config: bool) -> Seq<StepView> {
    if play is Some || config {
        (match play {
            Some(id) => play_steps(id, forward),
            None => Seq::empty(),
        }) + (if config {
            seq![StepView::Configure]
        } else {
            Seq::empty()
        })
    } else {
        seq![StepView::Gui(forward)]
    }
}

/// The steps for the options given (see `plan_spec`).
pub fn plan(play: &Option<String>, forward_audio_enabled: bool, config_requested: bool) -> (r: Vec<Step>)
    ensures
        steps_view(r@) == plan_spec(
            match play {
                Some(id) => Some(id@),
                None => None,
            },
            forward_audio_enabled,
            config_requested,
        ),
{
    let mut r: Vec<Step> = Vec::new();
    if play.is_some() || config_requested {
        match play {
            Some(id) => {
                r = run_play(id.as_str(), forward_audio_enabled);
            },
            None => {},
        }
        let ghost before = r@;
        if config_requested {
            r.push(Step::Configure);
        }
        proof {
            let p: Option<Seq<char>> = match play {
                Some(id) => Some(id@),
                None => None,
            };
            let first: Seq<StepView> = match p {
                Some(id) => play_steps(id, forward_audio_enabled),
                None => Seq::empty(),
            };
            assert(steps_view(before) =~= first);
            assert(steps_view(r@) =~= plan_spec(p, forward_audio_enabled, config_requested));
        }
    } else {
        r.push(Step::Gui(forward_audio_enabled));
        assert(steps_view(r@) =~= seq![StepView::Gui(forward_audio_enabled)]);
    }
    r
}

/// Law: with `--play ID`, the steps begin by sending the line to the microphone
/// exactly when `--forward-to-mic` is given, then play it, whether or not
/// `--config` is given; `--config` adds opening the configuration last; with
/// neither option, the only step shows the wheel with the forwarding flag given.
pub proof fn law_plan_steps(play: Option<Seq<char>>, forward: bool, config: bool)
    ensures
        play is Some && forward ==> plan_spec(play, forward, config)[0] == StepView::ForwardAudio(play->0)
            && plan_spec(play, forward, config)[1] == StepView::PlayAudio(play->0),
        play is Some && !forward ==> plan_spec(play, forward, config)[0] == StepView::PlayAudio(play->0),
        play is Some ==> plan_spec(play, forward, config).len() == (if forward { 2int } else { 1int }) + (
        if config {
            1int
        } else {
            0int
        }),
        play is None && config ==> plan_spec(play, forward, config) == seq![StepView::Configure],
        config ==> plan_spec(play, forward, config).last() == StepView::Configure,
        play is None && !config ==> plan_spec(play, forward, config) == seq![StepView::Gui(forward)],
        forall|i: int|
            0 <= i < plan_spec(play, forward, config).len() && (#[trigger] plan_spec(play, forward, config)[i]) is ForwardAudio
                ==> forward && play == Some(plan_spec(play, forward, config)[i]->ForwardAudio_0),
{
    let p = plan_spec(play, forward, config);
    if play is None && config {
        assert(p =~= seq![StepView::Configure]);
    }
}

} // verus!
