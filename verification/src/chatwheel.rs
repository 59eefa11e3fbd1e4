//! The configured chat wheel, where its files live, and how a configuration is
//! put together from the catalogue of all lines.
use vstd::prelude::*;

use crate::consts::{CHATWHEEL_CONF_AUDIO_PATH, CHATWHEEL_CONF_PATH, NAME};
use crate::line::{Line, LineView, Lines};
use crate::text::{pushed, push_path, str_starts_with};

verus! {

/// The lines of a chat wheel, whether they are also sent to the microphone,
/// and the profile they were loaded from.
pub struct Chatwheel {
    pub forward_audio_enabled: bool,
    pub lines: Vec<Line>,
    pub profile: Option<String>,
}

impl Chatwheel {
    /// A chat wheel with no lines, no profile, and forwarding off.
    pub fn empty() -> (c: Self)
        ensures
            !c.forward_audio_enabled,
            c.lines@.len() == 0,
            c.profile is None,
    {
        Chatwheel { forward_audio_enabled: false, lines: Vec::new(), profile: None }
    }

    /// The chat wheel made of the lines read from a configuration file.
    pub fn load(lines: Vec<Line>) -> (c: Self)
        ensures
            !c.forward_audio_enabled,
            c.lines == lines,
            c.profile is None,
    {
        let mut obj = Self::empty();
        obj.lines = lines;
        obj
    }

    /// The chat wheel made of the lines read from the configuration file of
    /// profile `id`, recorded as loaded from that profile.
    pub fn load_by_profile(id: &str, lines: Vec<Line>) -> (c: Self)
        ensures
            !c.forward_audio_enabled,
            c.lines == lines,
            c.profile matches Some(p) && p@ == id@,
    {
        let mut obj = Self::load(lines);
        obj.set_profile(String::from_str(id));
        obj
    }

    /// Records the profile the chat wheel belongs to.
    pub fn set_profile(&mut self, profile: String)
        ensures
            final(self).profile == Some(profile),
            final(self).lines == old(self).lines,
            final(self).forward_audio_enabled == old(self).forward_audio_enabled,
    {
        self.profile = Some(profile);
    }

    /// Turns forwarding of the played lines to the microphone on or off.
    pub fn set_forward_audio(&mut self, enabled: bool)
        ensures
            final(self).forward_audio_enabled == enabled,
            final(self).lines == old(self).lines,
            final(self).profile == old(self).profile,
    {
        self.forward_audio_enabled = enabled;
    }
}

/// The configuration directory of the program inside the system's configuration
/// directory `system_config_dir`.
pub fn chatwheel_config_dir(system_config_dir: &str) -> (r: String)
    ensures
        r@ == pushed(system_config_dir@, NAME@),
{
    push_path(system_config_dir, NAME)
}

/// The directory of the audio files inside the configuration directory.
pub fn audio_dir(config_dir: &str) -> (r: String)
    ensures
        r@ == pushed(config_dir@, CHATWHEEL_CONF_AUDIO_PATH@),
{
    push_path(config_dir, CHATWHEEL_CONF_AUDIO_PATH)
}

/// The default configuration file inside the configuration directory.
pub fn config_file(config_dir: &str) -> (r: String)
    ensures
        r@ == pushed(config_dir@, CHATWHEEL_CONF_PATH@),
{
    push_path(config_dir, CHATWHEEL_CONF_PATH)
}

/// The name of the configuration file of a profile: the profile followed by `.json`.
pub open spec fn profile_file_name(id: Seq<char>) -> Seq<char> {
    id + seq!['.', 'j', 's', 'o', 'n']
}

/// The file name of the configuration of profile `id`.
pub fn profile_file(id: &str) -> (r: String)
    ensures
        r@ == profile_file_name(id@),
{
    let mut r = String::from_str(id);
    r.append(".json");
    proof {
        reveal_strlit(".json");
    }
    r
}

/// The configuration file of profile `id` inside the configuration directory.
pub fn profile_config_file(config_dir: &str, id: &str) -> (r: String)
    ensures
        r@ == pushed(config_dir@, profile_file_name(id@)),
{
    let name = profile_file(id);
    push_path(config_dir, name.as_str())
}

/// `name` begins with `id`.
pub open spec fn names_audio_of(name: Seq<char>, id: Seq<char>) -> bool {
    id.len() <= name.len() && name.take(id.len() as int) == id
}

/// Among the file names of the audio directory, in the order in which the
/// directory lists them, the index of the first that begins with `id`.
pub fn find_audio_entry(file_names: &Vec<String>, id: &str) -> (r: Option<usize>)
    ensures
        r matches Some(i) ==> i < file_names@.len() && names_audio_of(file_names@[i as int]@, id@)
            && forall|j: int| 0 <= j < i ==> !names_audio_of(#[trigger] file_names@[j]@, id@),
        r is None ==> forall|j: int| 0 <= j < file_names@.len() ==> !names_audio_of(
            #[trigger] file_names@[j]@,
            id@,
        ),
{
    let n = file_names.len();
    for i in 0..n
        invariant
            n == file_names@.len(),
            forall|j: int| 0 <= j < i ==> !names_audio_of(#[trigger] file_names@[j]@, id@),
    {
        if str_starts_with(file_names[i].as_str(), id) {
            return Some(i);
        }
    }
    None
}

/// A line of the catalogue as it is written into a configuration: with its id set.
pub open spec fn configured_line(line: LineView, id: Seq<char>) -> LineView {
    LineView { id: Some(id), text: line.text, audios: line.audios }
}

/// The audio downloads that a list of configured lines asks for, in order: for
/// each line with at least one recording, its id and its first recording.
pub open spec fn audio_fetches(lines: Seq<LineView>) -> Seq<(Seq<char>, Seq<char>)>
    decreases lines.len(),
{
    if lines.len() == 0 {
        Seq::empty()
    } else {
        let l = lines.last();
        let rest = audio_fetches(lines.drop_last());
        if l.audios.len() > 0 && l.id is Some {
            rest.push((l.id->0, l.audios[0]))
        } else {
            rest
        }
    }
}

pub open spec fn lines_view(v: Seq<Line>) -> Seq<LineView> {
    v.map_values(|l: Line| l@)
}

pub open spec fn pairs_view(v: Seq<(String, String)>) -> Seq<(Seq<char>, Seq<char>)> {
    v.map_values(|p: (String, String)| (p.0@, p.1@))
}

/// What a new configuration is made of.
pub struct ConfigPlan {
    /// The configured lines, in the order of the requested ids, up to the first
    /// id that the catalogue lacks.
    pub lines: Vec<Line>,
    /// The audio downloads those lines ask for, in order.
    pub fetches: Vec<(String, String)>,
    /// The index of the first requested id that the catalogue lacks, if any.
    pub missing: Option<usize>,
}

/// Puts a configuration together: for each requested id in turn, the line of
/// the catalogue with that id, with the id set, and the download of its first
/// recording if it has one. It stops at the first id that the catalogue lacks.
pub fn config_lines(all_lines: &Lines, ids: &Vec<String>) -> (r: ConfigPlan)
    requires
        all_lines.wf(),
    ensures
        r.lines@.len() <= ids@.len(),
        forall|i: int|
            0 <= i < r.lines@.len() ==> all_lines@.contains_key(#[trigger] ids@[i]@)
                && r.lines@[i]@ == configured_line(all_lines@[ids@[i]@], ids@[i]@),
        r.missing is None <==> r.lines@.len() == ids@.len(),
        r.missing matches Some(k) ==> k == r.lines@.len() && !all_lines@.contains_key(
            ids@[k as int]@,
        ),
        pairs_view(r.fetches@) == audio_fetches(lines_view(r.lines@)),
        forall|i: int|
            0 <= i < r.lines@.len() && all_lines@[#[trigger] ids@[i]@].audios.len() > 0
                ==> pairs_view(r.fetches@).contains((ids@[i]@, all_lines@[ids@[i]@].audios[0])),
{
    let mut lines: Vec<Line> = Vec::new();
    let mut fetches: Vec<(String, String)> = Vec::new();
    let n = ids.len();
    let mut i: usize = 0;
    while i < n
        invariant
            all_lines.wf(),
            n == ids@.len(),
            i <= n,
            lines@.len() == i,
            forall|j: int|
                0 <= j < i ==> all_lines@.contains_key(#[trigger] ids@[j]@) && lines@[j]@
                    == configured_line(all_lines@[ids@[j]@], ids@[j]@),
            pairs_view(fetches@) == audio_fetches(lines_view(lines@)),
        decreases n - i,
    {
        let id = &ids[i];
        match all_lines.get(id.as_str()) {
            None => {
                proof {
                    lemma_plan_fetches(all_lines@, ids@, lines@, fetches@);
                }
                return ConfigPlan { lines, fetches, missing: Some(i) };
            },
            Some(found) => {
                let mut line_to_add = found.clone();
                line_to_add.id = Some(id.clone());
                if line_to_add.audios.len() > 0 {
                    let url = line_to_add.audios[0].clone();
                    fetches.push((id.clone(), url));
                }
                let ghost before = lines@;
                lines.push(line_to_add);
                proof {
                    assert(lines_view(lines@).drop_last() =~= lines_view(before));
                    assert(lines_view(lines@).last() == lines@[i as int]@);
                    assert(pairs_view(fetches@) =~= audio_fetches(lines_view(lines@)));
                }
                i = i + 1;
            },
        }
    }
    proof {
        lemma_plan_fetches(all_lines@, ids@, lines@, fetches@);
    }
    ConfigPlan { lines, fetches, missing: None }
}

proof fn lemma_plan_fetches(
    all_lines: Map<Seq<char>, LineView>,
    ids: Seq<String>,
    lines: Seq<Line>,
    fetches: Seq<(String, String)>,
)
    requires
        lines.len() <= ids.len(),
        forall|j: int|
            0 <= j < lines.len() ==> all_lines.contains_key(#[trigger] ids[j]@) && lines[j]@
                == configured_line(all_lines[ids[j]@], ids[j]@),
        pairs_view(fetches) == audio_fetches(lines_view(lines)),
    ensures
        forall|i: int|
            0 <= i < lines.len() && all_lines[#[trigger] ids[i]@].audios.len() > 0
                ==> pairs_view(fetches).contains((ids[i]@, all_lines[ids[i]@].audios[0])),
{
    let lv = lines_view(lines);
    law_fetches_cover_recorded_lines(lv);
    assert forall|i: int|
        0 <= i < lines.len() && all_lines[#[trigger] ids[i]@].audios.len() > 0
            implies pairs_view(fetches).contains((ids[i]@, all_lines[ids[i]@].audios[0])) by {
        assert(lv[i] == lines[i]@);
        assert(has_recording(lv[i]));
    }
}

/// The ids of a list of lines.
pub open spec fn line_ids(lines: Seq<LineView>) -> Seq<Option<Seq<char>>> {
    lines.map_values(|l: LineView| l.id)
}

/// Law: a configuration put together from ids that the catalogue all has
/// carries exactly those ids, in the same order.
pub proof fn law_config_carries_ids(all_lines: Map<Seq<char>, LineView>, ids: Seq<Seq<char>>, lines: Seq<LineView>)
    requires
        lines.len() == ids.len(),
        forall|i: int|
            0 <= i < lines.len() ==> #[trigger] lines[i] == configured_line(all_lines[ids[i]], ids[i]),
    ensures
        line_ids(lines) == ids.map_values(|id: Seq<char>| Some(id)),
{
    assert(line_ids(lines) =~= ids.map_values(|id: Seq<char>| Some(id)));
}

/// A line asks for a download: it has an id and at least one recording.
pub open spec fn has_recording(l: LineView) -> bool {
    l.audios.len() > 0 && l.id is Some
}

/// The download a line asks for: its id and its first recording.
pub open spec fn first_fetch(l: LineView) -> (Seq<char>, Seq<char>) {
    (l.id->0, l.audios[0])
}

/// Law: the audio downloads of a list of lines are, in order, one per line that
/// has an id and a recording, namely that line's id and first recording; so
/// every such line has its first recording downloaded, and nothing else is.
pub proof fn law_fetches_cover_recorded_lines(lines: Seq<LineView>)
    ensures
        audio_fetches(lines) == lines.filter(|l: LineView| has_recording(l)).map_values(
            |l: LineView| first_fetch(l),
        ),
        forall|i: int|
            0 <= i < lines.len() && has_recording(#[trigger] lines[i]) ==> audio_fetches(lines).contains(
                first_fetch(lines[i]),
            ),
        forall|j: int|
            0 <= j < audio_fetches(lines).len() ==> exists|i: int|
                0 <= i < lines.len() && has_recording(#[trigger] lines[i]) && #[trigger] audio_fetches(lines)[j]
                    == first_fetch(lines[i]),
    decreases lines.len(),
{
    let f = |l: LineView| has_recording(l);
    let g = |l: LineView| first_fetch(l);
    if lines.len() > 0 {
        let init = lines.drop_last();
        law_fetches_cover_recorded_lines(init);
        let sub = init.filter(f);
        assert(lines.filter(f) == (if f(lines.last()) { sub.push(lines.last()) } else { sub })) by {
            reveal_with_fuel(Seq::filter, 1);
        }
        if f(lines.last()) {
            assert(sub.push(lines.last()).map_values(g) =~= sub.map_values(g).push(g(lines.last())));
        }
        let a = audio_fetches(lines);
        let ai = audio_fetches(init);
        assert forall|i: int| 0 <= i < lines.len() && has_recording(#[trigger] lines[i]) implies a.contains(
            first_fetch(lines[i]),
        ) by {
            if i < lines.len() - 1 {
                assert(init[i] == lines[i]);
                let k = choose|k: int| 0 <= k < ai.len() && ai[k] == first_fetch(init[i]);
                assert(a[k] == ai[k]);
            } else {
                assert(a[a.len() - 1] == first_fetch(lines[i]));
            }
        }
        assert forall|j: int| 0 <= j < a.len() implies exists|i: int|
            0 <= i < lines.len() && has_recording(#[trigger] lines[i]) && #[trigger] a[j] == first_fetch(lines[i]) by {
            if j < ai.len() {
                assert(a[j] == ai[j]);
                let i = choose|i: int| 0 <= i < init.len() && has_recording(#[trigger] init[i]) && #[trigger] ai[j] == first_fetch(init[i]);
                assert(lines[i] == init[i]);
            } else {
                assert(lines[lines.len() - 1] == lines.last());
            }
        }
    } else {
        assert(lines.filter(f) =~= Seq::<LineView>::empty()) by {
            reveal_with_fuel(Seq::filter, 1);
        }
        assert(lines.filter(f).map_values(g) =~= Seq::<(Seq<char>, Seq<char>)>::empty());
    }
}

} // verus!
