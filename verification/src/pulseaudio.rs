//! Setting up PulseAudio so that played lines reach the microphone: the
//! commands to run, and what is made of their outputs.
use vstd::prelude::*;

use crate::consts::CHATHWHEEL_PIPE_PATH;
use crate::line::strings_view;
use crate::text::{decimal, digit_char, lemma_digit_char};

verus! {

/// The shell command that prints the name of the microphone source.
pub const MIC_SOURCE_QUERY: &'static str = "pactl list sources short | grep alsa_input | awk '{print$2}'";

/// Pieces of the setup commands.
pub const LOAD_PIPE_SOURCE: &'static str = "pactl load-module module-pipe-source source_name=Chatwheel file=";

pub const LOAD_MIC_SINK: &'static str = "pactl load-module module-null-sink sink_name=ChatwheelMicSink sink_properties=device.description=ChatwheelMicSink";

pub const LOAD_PIPE_LOOPBACK: &'static str = "pactl load-module module-loopback sink=ChatwheelMicSink source=Chatwheel latency_msec=100";

pub const LOAD_MIC_LOOPBACK: &'static str = "pactl load-module module-loopback sink=ChatwheelMicSink source=";

pub const LOAD_DROP_SINK: &'static str = "pactl load-module module-null-sink sink_name=drop";

pub const LOAD_ECHO_CANCEL: &'static str = "pactl load-module module-echo-cancel source_name=ChatwheelMic source_master=ChatwheelMicSink.monitor sink_master=drop aec_method=null source_properties=device.description=ChatwheelMic sink_properties=device.description=ChatwheelMic";

/// The setup commands, in order, for the microphone source `micsource`:
/// a source reading the pipe, a sink mixing it with the microphone, the two
/// loopbacks into that sink, a sink that drops, and the echo-cancelled source
/// that applications record from.
pub open spec fn setup_script_spec(micsource: Seq<char>) -> Seq<Seq<char>> {
    seq![
        LOAD_PIPE_SOURCE@ + CHATHWHEEL_PIPE_PATH@,
        LOAD_MIC_SINK@,
        LOAD_PIPE_LOOPBACK@,
        LOAD_MIC_LOOPBACK@ + micsource,
        LOAD_DROP_SINK@,
        LOAD_ECHO_CANCEL@,
    ]
}

/// The setup commands for the microphone source `micsource` (the output of
/// `MIC_SOURCE_QUERY`, as it is).
pub fn setup_script(micsource: &str) -> (r: Vec<String>)
    ensures
        strings_view(r@) == setup_script_spec(micsource@),
{
    let mut first = String::from_str(LOAD_PIPE_SOURCE);
    first.append(CHATHWHEEL_PIPE_PATH);
    let mut fourth = String::from_str(LOAD_MIC_LOOPBACK);
    fourth.append(micsource);
    let mut r: Vec<String> = Vec::new();
    r.push(first);
    r.push(String::from_str(LOAD_MIC_SINK));
    r.push(String::from_str(LOAD_PIPE_LOOPBACK));
    r.push(fourth);
    r.push(String::from_str(LOAD_DROP_SINK));
    r.push(String::from_str(LOAD_ECHO_CANCEL));
    assert(strings_view(r@) =~= setup_script_spec(micsource@));
    r
}

/// White space as Unicode defines it (the property `White_Space`), which is
/// what `char::is_whitespace` tests and `str::trim` removes.
pub open spec fn is_white_space(c: char) -> bool {
    ('\t' <= c && c <= '\r') || c == ' ' || c == '\u{85}' || c == '\u{A0}' || c == '\u{1680}' || (
    '\u{2000}' <= c && c <= '\u{200A}') || c == '\u{2028}' || c == '\u{2029}' || c == '\u{202F}'
        || c == '\u{205F}' || c == '\u{3000}'
}

/// Whether `c` is white space.
pub fn white_space(c: char) -> (r: bool)
    ensures
        r == is_white_space(c),
{
    ('\t' <= c && c <= '\r') || c == ' ' || c == '\u{85}' || c == '\u{A0}' || c == '\u{1680}' || (
    '\u{2000}' <= c && c <= '\u{200A}') || c == '\u{2028}' || c == '\u{2029}' || c == '\u{202F}'
        || c == '\u{205F}' || c == '\u{3000}'
}

/// The number of white space characters at the start of `s`.
pub open spec fn leading_white(s: Seq<char>) -> nat
    decreases s.len(),
{
    if s.len() > 0 && is_white_space(s[0]) {
        1 + leading_white(s.drop_first())
    } else {
        0
    }
}

/// The number of white space characters at the end of `s`.
pub open spec fn trailing_white(s: Seq<char>) -> nat
    decreases s.len(),
{
    if s.len() > 0 && is_white_space(s.last()) {
        1 + trailing_white(s.drop_last())
    } else {
        0
    }
}

/// `s` without the white space at its start and at its end.
pub open spec fn trimmed(s: Seq<char>) -> Seq<char> {
    let t = s.skip(leading_white(s) as int);
    t.take(t.len() - trailing_white(t))
}

/// The characters of `s` as the decimal digits of a number.
pub open spec fn digits_value(s: Seq<char>) -> nat
    decreases s.len(),
{
    if s.len() == 0 {
        0
    } else {
        digits_value(s.drop_last()) * 10 + ((s.last() as int) - ('0' as int)) as nat
    }
}

/// Every character of `s` is a decimal digit.
pub open spec fn all_digits(s: Seq<char>) -> bool {
    forall|i: int| 0 <= i < s.len() ==> '0' <= #[trigger] s[i] && s[i] <= '9'
}

/// `s` without a leading `+`.
pub open spec fn unsigned_digits(s: Seq<char>) -> Seq<char> {
    if s.len() > 0 && s[0] == '+' {
        s.drop_first()
    } else {
        s
    }
}

/// The unsigned 32-bit number that `s` writes, as `u32`'s `from_str` reads it:
/// an optional `+`, then at least one decimal digit and nothing else, of a
/// value that fits.
pub open spec fn u32_of(s: Seq<char>) -> Option<u32> {
    let d = unsigned_digits(s);
    if d.len() > 0 && all_digits(d) && digits_value(d) <= u32::MAX {
        Some(digits_value(d) as u32)
    } else {
        None
    }
}

/// The module number that the output of a successful `pactl load-module` reports.
pub open spec fn module_id_of(stdout: Seq<char>) -> Option<u32> {
    u32_of(trimmed(stdout))
}

proof fn lemma_digits_prefix(s: Seq<char>, k: int)
    requires
        0 <= k <= s.len(),
        all_digits(s),
    ensures
        digits_value(s.take(k)) <= digits_value(s),
    decreases s.len(),
{
    if k < s.len() {
        assert(s.drop_last().take(k) =~= s.take(k));
        lemma_digits_prefix(s.drop_last(), k);
        assert('0' <= s[s.len() - 1]);
    } else {
        assert(s.take(k) =~= s);
    }
}

/// The number that `s[a..b]` writes (see `u32_of`).
fn parse_u32(s: &str, a: usize, b: usize) -> (r: Option<u32>)
    requires
        a <= b <= s@.len(),
    ensures
        r == u32_of(s@.subrange(a as int, b as int)),
{
    let ghost t = s@.subrange(a as int, b as int);
    let mut i = a;
    if i < b && s.get_char(i) == '+' {
        i = i + 1;
    }
    let ghost d = s@.subrange(i as int, b as int);
    assert(d =~= unsigned_digits(t));
    if i == b {
        return None;
    }
    let start = i;
    let mut value: u64 = 0;
    while i < b
        invariant
            start <= i <= b,
            b <= s@.len(),
            d == s@.subrange(start as int, b as int),
            d == unsigned_digits(t),
            t == s@.subrange(a as int, b as int),
            d.len() > 0,
            all_digits(d.take(i - start)),
            value == digits_value(d.take(i - start)),
            value <= u32::MAX,
        decreases b - i,
    {
        let c = s.get_char(i);
        assert(d[i - start] == c);
        if !('0' <= c && c <= '9') {
            assert(!all_digits(d));
            return None;
        }
        let ghost p = d.take(i - start + 1);
        assert(p.drop_last() =~= d.take(i - start));
        assert(p.last() == c);
        let digit = (c as u32 - '0' as u32) as u64;
        value = value * 10 + digit;
        assert(all_digits(p));
        if value > 0xffff_ffff {
            proof {
                if all_digits(d) {
                    lemma_digits_prefix(d, i - start + 1);
                }
            }
            return None;
        }
        i = i + 1;
    }
    assert(d.take(b - start) =~= d);
    Some(value as u32)
}

proof fn lemma_leading_exact(s: Seq<char>, a: int)
    requires
        0 <= a <= s.len(),
        forall|t: int| 0 <= t < a ==> is_white_space(#[trigger] s[t]),
        a == s.len() || !is_white_space(s[a]),
    ensures
        leading_white(s) == a,
    decreases a,
{
    if a > 0 {
        assert(is_white_space(s[0]));
        let r = s.drop_first();
        assert forall|t: int| 0 <= t < a - 1 implies is_white_space(#[trigger] r[t]) by {
            assert(r[t] == s[t + 1]);
        }
        if a < s.len() {
            assert(r[a - 1] == s[a]);
        }
        lemma_leading_exact(r, a - 1);
    }
}

proof fn lemma_trailing_exact(s: Seq<char>, k: int)
    requires
        0 <= k <= s.len(),
        forall|t: int| s.len() - k <= t < s.len() ==> is_white_space(#[trigger] s[t]),
        k == s.len() || !is_white_space(s[s.len() - k - 1]),
    ensures
        trailing_white(s) == k,
    decreases k,
{
    if k > 0 {
        assert(is_white_space(s[s.len() - 1]));
        let r = s.drop_last();
        assert forall|t: int| r.len() - (k - 1) <= t < r.len() implies is_white_space(#[trigger] r[t]) by {
            assert(r[t] == s[t]);
        }
        if k < s.len() {
            assert(r[r.len() - (k - 1) - 1] == s[s.len() - k - 1]);
        }
        lemma_trailing_exact(r, k - 1);
    }
}

/// The module number that the output of a successful `pactl load-module`
/// reports: the output without surrounding white space, read as a `u32`.
pub fn parse_module_id(stdout: &str) -> (r: Option<u32>)
    ensures
        r == module_id_of(stdout@),
{
    let ghost s = stdout@;
    let n = stdout.unicode_len();
    let mut a: usize = 0;
    while a < n && white_space(stdout.get_char(a))
        invariant
            n == s.len(),
            s == stdout@,
            a <= n,
            forall|t: int| 0 <= t < a ==> is_white_space(#[trigger] s[t]),
        decreases n - a,
    {
        a = a + 1;
    }
    proof {
        lemma_leading_exact(s, a as int);
    }
    let mut b: usize = n;
    while b > a && white_space(stdout.get_char(b - 1))
        invariant
            n == s.len(),
            s == stdout@,
            a <= b <= n,
            forall|t: int| b <= t < n ==> is_white_space(#[trigger] s[t]),
        decreases b - a,
    {
        b = b - 1;
    }
    proof {
        let t = s.skip(a as int);
        assert forall|x: int| t.len() - (n - b) <= x < t.len() implies is_white_space(#[trigger] t[x]) by {
            assert(t[x] == s[a + x]);
        }
        if b > a {
            assert(t[t.len() - (n - b) - 1] == s[b - 1]);
        }
        lemma_trailing_exact(t, (n - b) as int);
        assert(trimmed(s) =~= s.subrange(a as int, b as int));
    }
    parse_u32(stdout, a, b)
}

/// Why the setup could not go on.
pub enum SetupError {
    /// A setup command succeeded but did not print a module number.
    InvalidModuleId,
}

/// The progress of the PulseAudio setup: the commands are run in order, each
/// successful one reporting the number of the module it loaded, until one
/// fails or all have run.
pub struct PulseSetup {
    script: Vec<String>,
    next: usize,
    loaded: Vec<u32>,
    stopped: bool,
    outputs: Ghost<Seq<Seq<char>>>,
}

impl PulseSetup {
    /// The setup commands, in order.
    pub closed spec fn commands(self) -> Seq<Seq<char>> {
        strings_view(self.script@)
    }

    /// The index of the next command to run.
    pub closed spec fn next_index(self) -> nat {
        self.next as nat
    }

    /// The numbers of the modules loaded so far, in order.
    pub closed spec fn loaded_ids(self) -> Seq<u32> {
        self.loaded@
    }

    /// Whether a command has failed, which stops the setup.
    pub closed spec fn is_stopped(self) -> bool {
        self.stopped
    }

    /// The outputs of the commands that succeeded, in order.
    pub closed spec fn outputs(self) -> Seq<Seq<char>> {
        self.outputs@
    }

    /// The setup is consistent: one loaded module per command run so far, and
    /// each module number is the one its command printed.
    pub open spec fn wf(self) -> bool {
        &&& self.loaded_ids().len() == self.next_index()
        &&& self.outputs().len() == self.next_index()
        &&& self.next_index() <= self.commands().len()
        &&& forall|i: int|
            0 <= i < self.next_index() ==> module_id_of(#[trigger] self.outputs()[i]) == Some(
                self.loaded_ids()[i],
            )
    }

    /// Whether the setup has a command left to run.
    pub open spec fn is_running(self) -> bool {
        !self.is_stopped() && self.next_index() < self.commands().len()
    }

    /// The setup for the microphone source `micsource`, before any command ran.
    pub fn new(micsource: &str) -> (r: PulseSetup)
        ensures
            r.wf(),
            r.commands() == setup_script_spec(micsource@),
            r.next_index() == 0,
            !r.is_stopped(),
    {
        let script = setup_script(micsource);
        PulseSetup { script, next: 0, loaded: Vec::new(), stopped: false, outputs: Ghost(Seq::empty()) }
    }

    /// The next command to run and its index, or `None` when the setup is over.
    pub fn next_command(&self) -> (r: Option<(usize, String)>)
        requires
            self.wf(),
        ensures
            r is Some <==> self.is_running(),
            r matches Some(c) ==> c.0 == self.next_index() && c.1@ == self.commands()[c.0 as int],
    {
        if !self.stopped && self.next < self.script.len() {
            Some((self.next, self.script[self.next].clone()))
        } else {
            None
        }
    }

    /// The numbers of the modules loaded so far, in order.
    pub fn loaded_modules(&self) -> (r: &Vec<u32>)
        ensures
            r@ == self.loaded_ids(),
    {
        &self.loaded
    }

    /// Takes in the outcome of the next command: whether it succeeded and what
    /// it printed. A failure stops the setup; a success records the module
    /// number it printed, or is an error when it printed none.
    pub fn record(&mut self, success: bool, stdout: &str) -> (r: Result<(), SetupError>)
        requires
            old(self).wf(),
            old(self).is_running(),
        ensures
            final(self).wf(),
            final(self).commands() == old(self).commands(),
            !success ==> r is Ok && final(self).is_stopped() && final(self).next_index() == old(self).next_index()
                && final(self).loaded_ids() == old(self).loaded_ids() && final(self).outputs() == old(self).outputs(),
            success && module_id_of(stdout@) is None ==> r is Err && final(self).is_stopped()
                && final(self).next_index() == old(self).next_index() && final(self).loaded_ids()
                == old(self).loaded_ids() && final(self).outputs() == old(self).outputs(),
            success && module_id_of(stdout@) is Some ==> r is Ok && !final(self).is_stopped()
                && final(self).next_index() == old(self).next_index() + 1 && final(self).loaded_ids()
                == old(self).loaded_ids().push(module_id_of(stdout@)->0) && final(self).outputs()
                == old(self).outputs().push(stdout@),
    {
        if !success {
            self.stopped = true;
            return Ok(());
        }
        match parse_module_id(stdout) {
            None => {
                self.stopped = true;
                Err(SetupError::InvalidModuleId)
            },
            Some(id) => {
                let next = self.next;
                let len = self.script.len();
                assert(next < len);
                self.loaded.push(id);
                self.next = next + 1;
                self.outputs = Ghost(self.outputs@.push(stdout@));
                Ok(())
            },
        }
    }
}

proof fn lemma_decimal_digits(n: nat)
    ensures
        decimal(n).len() > 0,
        all_digits(decimal(n)),
        digits_value(decimal(n)) == n,
    decreases n,
{
    lemma_digit_char(n % 10);
    if n < 10 {
        assert(decimal(n) =~= seq![digit_char(n)]);
        assert(decimal(n).drop_last() =~= Seq::<char>::empty());
        assert(n % 10 == n);
        assert(decimal(n).last() == digit_char(n));
        assert(digits_value(decimal(n).drop_last()) == 0);
    } else {
        lemma_decimal_digits(n / 10);
        let d = decimal(n);
        assert(d.drop_last() =~= decimal(n / 10));
        assert(d.last() == digit_char(n % 10));
        assert((n / 10) * 10 + n % 10 == n) by (nonlinear_arith);
        assert forall|i: int| 0 <= i < d.len() implies '0' <= #[trigger] d[i] && d[i] <= '9' by {
            if i < d.len() - 1 {
                assert(d[i] == decimal(n / 10)[i]);
            }
        }
    }
}

/// Law: reading a number back from its decimal representation gives the number.
pub proof fn law_decimal_reads_back(n: u32)
    ensures
        u32_of(decimal(n as nat)) == Some(n),
{
    let d = decimal(n as nat);
    lemma_decimal_digits(n as nat);
    assert(d[0] != '+');
    assert(unsigned_digits(d) == d);
}

/// The command that creates the source reading the pipe.
pub open spec fn pipe_source_command() -> Seq<char> {
    LOAD_PIPE_SOURCE@ + CHATHWHEEL_PIPE_PATH@
}

/// The setup command `cmd` needs what the command `dep` creates: the pipe
/// loopback connects the pipe source to the mixing sink, the microphone
/// loopback connects the microphone to the mixing sink, and the echo canceller
/// reads the mixing sink's monitor and plays into the dropping sink.
pub open spec fn relies_on(cmd: Seq<char>, dep: Seq<char>, micsource: Seq<char>) -> bool {
    ||| cmd == LOAD_PIPE_LOOPBACK@ && (dep == pipe_source_command() || dep == LOAD_MIC_SINK@)
    ||| cmd == LOAD_MIC_LOOPBACK@ + micsource && dep == LOAD_MIC_SINK@
    ||| cmd == LOAD_ECHO_CANCEL@ && (dep == LOAD_MIC_SINK@ || dep == LOAD_DROP_SINK@)
}

/// Law: the setup loads the six modules, and every command comes after the
/// commands that create the sources and sinks it needs.
pub proof fn law_setup_order(micsource: Seq<char>)
    ensures
        setup_script_spec(micsource).len() == 6,
        setup_script_spec(micsource).contains(pipe_source_command()),
        setup_script_spec(micsource).contains(LOAD_MIC_SINK@),
        setup_script_spec(micsource).contains(LOAD_PIPE_LOOPBACK@),
        setup_script_spec(micsource).contains(LOAD_MIC_LOOPBACK@ + micsource),
        setup_script_spec(micsource).contains(LOAD_DROP_SINK@),
        setup_script_spec(micsource).contains(LOAD_ECHO_CANCEL@),
        forall|j: int, dep: Seq<char>|
            0 <= j < setup_script_spec(micsource).len() && #[trigger] relies_on(
                setup_script_spec(micsource)[j],
                dep,
                micsource,
            ) ==> exists|i: int| 0 <= i < j && #[trigger] setup_script_spec(micsource)[i] == dep,
{
    reveal_strlit("pactl load-module module-pipe-source source_name=Chatwheel file=");
    reveal_strlit("pactl load-module module-null-sink sink_name=ChatwheelMicSink sink_properties=device.description=ChatwheelMicSink");
    reveal_strlit("pactl load-module module-loopback sink=ChatwheelMicSink source=Chatwheel latency_msec=100");
    reveal_strlit("pactl load-module module-loopback sink=ChatwheelMicSink source=");
    reveal_strlit("pactl load-module module-null-sink sink_name=drop");
    reveal_strlit("pactl load-module module-echo-cancel source_name=ChatwheelMic source_master=ChatwheelMicSink.monitor sink_master=drop aec_method=null source_properties=device.description=ChatwheelMic sink_properties=device.description=ChatwheelMic");
    let s = setup_script_spec(micsource);
    let mic_loop = LOAD_MIC_LOOPBACK@ + micsource;
    assert(pipe_source_command()[25] == 'p');
    assert(LOAD_MIC_SINK@[25] == 'n');
    assert(LOAD_PIPE_LOOPBACK@[25] == 'l');
    assert(mic_loop[25] == 'l');
    assert(LOAD_DROP_SINK@[25] == 'n');
    assert(LOAD_ECHO_CANCEL@[25] == 'e');
    assert(s[0] == pipe_source_command());
    assert(s[1] == LOAD_MIC_SINK@);
    assert(s[2] == LOAD_PIPE_LOOPBACK@);
    assert(s[3] == mic_loop);
    assert(s[4] == LOAD_DROP_SINK@);
    assert(s[5] == LOAD_ECHO_CANCEL@);
    assert forall|j: int, dep: Seq<char>|
        0 <= j < s.len() && #[trigger] relies_on(s[j], dep, micsource) implies exists|i: int|
            0 <= i < j && #[trigger] s[i] == dep by {
        if dep == pipe_source_command() {
            assert(s[0] == dep);
        } else if dep == LOAD_MIC_SINK@ {
            assert(s[1] == dep);
        } else {
            assert(s[4] == dep);
        }
    }
}

} // verus!
