//! The local configuration web page: the table of all lines with the configured
//! ones checked, the reading of the submitted form, and where the result is saved.
use vstd::prelude::*;

use crate::chatwheel::{configured_line, law_config_carries_ids, lines_view, line_ids, profile_file_name, Chatwheel};
use crate::consts::{CHATWHEEL_CONF_PATH, CONFIGURE_HOST, CONFIGURE_PORT, NAME};
use crate::line::{Line, LineView, Lines};
use crate::text::{decimal, decimal_string, pushed, push_path, str_equal};

verus! {

/// Pieces of one row of the table of lines, around the line id, the checked
/// mark, the audio cell and the text.
pub const ROW_OPEN: &'static str = "<tr>\n                    <td class='line-checkbox'>\n                        <input type='checkbox' id='";

pub const ROW_AFTER_ID: &'static str = "' name='";

pub const ROW_BEFORE_CHECKED: &'static str = "' ";

pub const ROW_AFTER_CHECKED: &'static str = ">\n                    </td>\n                    <td class='line-id'>\n                        ";

pub const ROW_BEFORE_AUDIO: &'static str = "\n                    </td>\n                    <td class='line-audio'>\n                        ";

pub const ROW_BEFORE_LABEL: &'static str = "\n                    </td>\n                    <td class='line-text'>\n                        <label for='";

pub const ROW_BEFORE_TEXT: &'static str = "'>";

pub const ROW_CLOSE: &'static str = "</label>\n                    </td>\n                </tr>";

/// Pieces of the audio cell of a row, around the URL of the first recording.
pub const AUDIO_OPEN: &'static str = "\n                    <button type='button' onclick='this.nextElementSibling.play()'>Play</button>\n                    <audio preload='none'><source src='";

pub const AUDIO_CLOSE: &'static str = "' type='audio/mpeg'></audio>\n                ";

/// Pieces of the configuration page, around the table of lines.
pub const PAGE_OPEN: &'static str = "<html>\n            <head>\n                <title>chatwheel-rs config</title>\n                <meta charset='utf-8'>\n                <style>\n                    #save-button {\n                        position: fixed;\n                        top: 40px;\n                        right: 40px;\n                        font-size: 20px;\n                    }\n                    tr:nth-child(odd) {\n                        background-color: #E6E6E6;\n                    }\n                    td {\n                        padding: 3px;\n                    }\n                </style>\n            </head>\n            <body>\n            <form method='POST' action='/'>\n                <button type='submit' id='save-button'>Save</button>\n                ";

pub const PAGE_CLOSE: &'static str = "\n            </form>\n            </body>\n        </html>";

/// The mark of a checked checkbox.
pub const CHECKED: &'static str = "checked";

/// The audio cell of a line: a play button and the player of its first
/// recording, or nothing when it has none.
pub open spec fn audio_cell(line: LineView) -> Seq<char> {
    if line.audios.len() > 0 {
        AUDIO_OPEN@ + line.audios[0] + AUDIO_CLOSE@
    } else {
        Seq::empty()
    }
}

/// The row of the table for the line `line` with id `id`.
pub open spec fn row_html(id: Seq<char>, line: LineView, checked: bool) -> Seq<char> {
    ROW_OPEN@ + id + ROW_AFTER_ID@ + id + ROW_BEFORE_CHECKED@ + (if checked {
        CHECKED@
    } else {
        Seq::empty()
    }) + ROW_AFTER_CHECKED@ + id + ROW_BEFORE_AUDIO@ + audio_cell(line) + ROW_BEFORE_LABEL@ + id
        + ROW_BEFORE_TEXT@ + line.text + ROW_CLOSE@
}

/// The pieces `parts` joined with `sep` between each two.
pub open spec fn joined(parts: Seq<Seq<char>>, sep: Seq<char>) -> Seq<char>
    decreases parts.len(),
{
    if parts.len() == 0 {
        Seq::empty()
    } else if parts.len() == 1 {
        parts[0]
    } else {
        joined(parts.drop_last(), sep) + sep + parts.last()
    }
}

/// Whether a configuration whose lines have the ids `ids` holds the line `key`,
/// looking at the lines in order: `None` where a line without id comes before
/// any line with id `key` (reading such a configuration fails).
pub open spec fn configured_state(ids: Seq<Option<Seq<char>>>, key: Seq<char>) -> Option<bool>
    decreases ids.len(),
{
    if ids.len() == 0 {
        Some(false)
    } else {
        match ids[0] {
            None => None,
            Some(k) => if k == key {
                Some(true)
            } else {
                configured_state(ids.drop_first(), key)
            },
        }
    }
}

/// The rows of the table: one per line of the catalogue, in increasing order of id.
pub open spec fn table_rows(listing: Seq<(Seq<char>, LineView)>, ids: Seq<Option<Seq<char>>>) -> Seq<Seq<char>> {
    Seq::new(
        listing.len(),
        |i: int| row_html(listing[i].0, listing[i].1, configured_state(ids, listing[i].0)->0),
    )
}

/// Every line of the catalogue can be looked up in the configuration.
pub open spec fn table_defined(listing: Seq<(Seq<char>, LineView)>, ids: Seq<Option<Seq<char>>>) -> bool {
    forall|i: int| 0 <= i < listing.len() ==> (#[trigger] configured_state(ids, listing[i].0)) is Some
}

/// The table of all lines, with the lines of the configuration checked.
pub open spec fn table_html(listing: Seq<(Seq<char>, LineView)>, ids: Seq<Option<Seq<char>>>) -> Seq<char> {
    seq!['<', 't', 'a', 'b', 'l', 'e', '>'] + joined(table_rows(listing, ids), seq!['\n'])
        + seq!['<', '/', 't', 'a', 'b', 'l', 'e', '>']
}

/// Whether the configuration `lines` holds the line `key` (see `configured_state`).
pub fn is_configured(lines: &Vec<Line>, key: &str) -> (r: Option<bool>)
    ensures
        r == configured_state(line_ids(lines_view(lines@)), key@),
{
    let ghost ids = line_ids(lines_view(lines@));
    let n = lines.len();
    let mut i: usize = 0;
    assert(ids.skip(0) =~= ids);
    while i < n
        invariant
            n == lines@.len(),
            ids == line_ids(lines_view(lines@)),
            i <= n,
            configured_state(ids, key@) == configured_state(ids.skip(i as int), key@),
        decreases n - i,
    {
        assert(ids.skip(i as int)[0] == crate::line::opt_str_view(lines@[i as int].id));
        assert(ids.skip(i as int).drop_first() =~= ids.skip(i + 1));
        match &lines[i].id {
            None => {
                return None;
            },
            Some(id) => {
                if str_equal(id.as_str(), key) {
                    return Some(true);
                }
            },
        }
        i = i + 1;
    }
    assert(ids.skip(i as int).len() == 0);
    Some(false)
}

/// Appends the row of line `line` with id `id` to `out`.
fn push_row(out: &mut String, id: &str, line: &Line, checked: bool)
    ensures
        final(out)@ == old(out)@ + row_html(id@, line@, checked),
{
    out.append(ROW_OPEN);
    out.append(id);
    out.append(ROW_AFTER_ID);
    out.append(id);
    out.append(ROW_BEFORE_CHECKED);
    if checked {
        out.append(CHECKED);
    }
    out.append(ROW_AFTER_CHECKED);
    out.append(id);
    out.append(ROW_BEFORE_AUDIO);
    if line.audios.len() > 0 {
        out.append(AUDIO_OPEN);
        out.append(line.audios[0].as_str());
        out.append(AUDIO_CLOSE);
    }
    out.append(ROW_BEFORE_LABEL);
    out.append(id);
    out.append(ROW_BEFORE_TEXT);
    out.append(line.text.as_str());
    out.append(ROW_CLOSE);
    proof {
        let c: Seq<char> = if checked { CHECKED@ } else { Seq::empty() };
        assert(final(out)@ =~= old(out)@ + row_html(id@, line@, checked));
    }
}

/// The HTML table of all lines of the catalogue `all_lines`, in increasing order
/// of id, each with a checkbox named by its id that is checked when the
/// configuration `chatwheel` holds it, its id, a player of its first recording
/// and its text. `None` where reading the configuration fails (a line without
/// id comes before the line sought).
pub fn configure_line_table(chatwheel: &Chatwheel, all_lines: &Lines) -> (r: Option<String>)
    requires
        all_lines.wf(),
    ensures
        r is Some <==> table_defined(all_lines.listing(), line_ids(lines_view(chatwheel.lines@))),
        r matches Some(t) ==> t@ == table_html(all_lines.listing(), line_ids(lines_view(chatwheel.lines@))),
{
    let ghost listing = all_lines.listing();
    let ghost ids = line_ids(lines_view(chatwheel.lines@));
    let ghost rows = table_rows(listing, ids);
    let n = all_lines.len();
    let mut body = String::new();
    let mut i: usize = 0;
    while i < n
        invariant
            all_lines.wf(),
            listing == all_lines.listing(),
            ids == line_ids(lines_view(chatwheel.lines@)),
            rows == table_rows(listing, ids),
            n == listing.len(),
            i <= n,
            forall|j: int| 0 <= j < i ==> (#[trigger] configured_state(ids, listing[j].0)) is Some,
            body@ == joined(rows.take(i as int), seq!['\n']),
        decreases n - i,
    {
        let (id, line) = all_lines.entry(i);
        let state = is_configured(&chatwheel.lines, id.as_str());
        match state {
            None => {
                assert(listing[i as int].0 == id@);
                assert(configured_state(ids, listing[i as int].0) is None);
                assert(!table_defined(listing, ids));
                return None;
            },
            Some(checked) => {
                let ghost before = body@;
                if i > 0 {
                    body.append("\n");
                    proof {
                        reveal_strlit("\n");
                    }
                }
                push_row(&mut body, id.as_str(), line, checked);
                proof {
                    assert(rows.take(i + 1).drop_last() =~= rows.take(i as int));
                    assert(rows.take(i + 1).last() == rows[i as int]);
                    if i == 0 {
                        assert(before =~= Seq::<char>::empty());
                        assert(body@ =~= rows[0]);
                    } else {
                        assert(body@ =~= before + seq!['\n'] + rows[i as int]);
                    }
                }
                i = i + 1;
            },
        }
    }
    assert(rows.take(n as int) =~= rows);
    let mut table = String::new();
    table.append("<table>");
    table.append(body.as_str());
    table.append("</table>");
    proof {
        reveal_strlit("<table>");
        reveal_strlit("</table>");
        assert(table@ =~= table_html(listing, ids));
    }
    Some(table)
}

/// The configuration page around the table of lines.
pub open spec fn page_html(table: Seq<char>) -> Seq<char> {
    PAGE_OPEN@ + table + PAGE_CLOSE@
}

/// The configuration page: a form with a save button around the table of lines
/// (see `configure_line_table`). `None` where the table cannot be made.
pub fn configure_page(chatwheel: &Chatwheel, all_lines: &Lines) -> (r: Option<String>)
    requires
        all_lines.wf(),
    ensures
        r is Some <==> table_defined(all_lines.listing(), line_ids(lines_view(chatwheel.lines@))),
        r matches Some(p) ==> p@ == page_html(table_html(all_lines.listing(), line_ids(lines_view(chatwheel.lines@)))),
{
    match configure_line_table(chatwheel, all_lines) {
        None => None,
        Some(table) => {
            let mut page = String::from_str(PAGE_OPEN);
            page.append(table.as_str());
            page.append(PAGE_CLOSE);
            Some(page)
        },
    }
}

/// The pieces of `s` between the occurrences of `sep`, in order, as a string
/// split does it: `n` occurrences give `n + 1` pieces, some possibly empty.
pub open spec fn split_on(s: Seq<char>, sep: char) -> Seq<Seq<char>>
    decreases s.len(),
{
    if s.len() == 0 {
        seq![Seq::empty()]
    } else {
        let prev = split_on(s.drop_last(), sep);
        if s.last() == sep {
            prev.push(Seq::empty())
        } else {
            prev.update(prev.len() - 1, prev.last().push(s.last()))
        }
    }
}

/// Splitting gives at least one piece.
pub proof fn lemma_split_nonempty(s: Seq<char>, sep: char)
    ensures
        split_on(s, sep).len() >= 1,
    decreases s.len(),
{
    if s.len() > 0 {
        lemma_split_nonempty(s.drop_last(), sep);
    }
}

/// The suffix that marks a checked box in a submitted form.
pub open spec fn on_suffix() -> Seq<char> {
    seq!['=', 'o', 'n']
}

/// The name of the checked box that a piece `name=on` of a submitted form
/// reports: the piece must split on `=` into exactly a name and `on`.
pub open spec fn on_key(p: Seq<char>) -> Option<Seq<char>> {
    if p.len() >= 3 && p.skip(p.len() - 3) == on_suffix() && !p.take(p.len() - 3).contains('=') {
        Some(p.take(p.len() - 3))
    } else {
        None
    }
}

/// The names of the checked boxes that a list of form pieces reports, in order.
pub open spec fn selected_keys(pieces: Seq<Seq<char>>) -> Seq<Seq<char>>
    decreases pieces.len(),
{
    if pieces.len() == 0 {
        Seq::empty()
    } else {
        let rest = selected_keys(pieces.drop_last());
        match on_key(pieces.last()) {
            Some(k) => rest.push(k),
            None => rest,
        }
    }
}

/// The name of the checked box that the piece `body[a..b]` reports, if any.
fn piece_key(body: &str, a: usize, b: usize) -> (r: Option<String>)
    requires
        a <= b <= body@.len(),
    ensures
        r matches Some(k) ==> on_key(body@.subrange(a as int, b as int)) == Some(k@),
        r is None ==> on_key(body@.subrange(a as int, b as int)) is None,
{
    let ghost p = body@.subrange(a as int, b as int);
    if b - a < 3 {
        return None;
    }
    let e = b - 3;
    let c0 = body.get_char(e);
    let c1 = body.get_char(e + 1);
    let c2 = body.get_char(e + 2);
    if !(c0 == '=' && c1 == 'o' && c2 == 'n') {
        proof {
            if p.skip(p.len() - 3) == on_suffix() {
                assert(p.skip(p.len() - 3)[0] == c0);
                assert(p.skip(p.len() - 3)[1] == c1);
                assert(p.skip(p.len() - 3)[2] == c2);
            }
        }
        return None;
    }
    assert(p.skip(p.len() - 3) =~= on_suffix());
    let mut j = a;
    while j < e
        invariant
            a <= j <= e,
            e + 3 == b,
            b <= body@.len(),
            p == body@.subrange(a as int, b as int),
            forall|t: int| a <= t < j ==> body@[t] != '=',
        decreases e - j,
    {
        if body.get_char(j) == '=' {
            assert(p.take(p.len() - 3)[j - a] == '=');
            return None;
        }
        j = j + 1;
    }
    let ghost q = p.take(p.len() - 3);
    assert forall|t: int| 0 <= t < q.len() implies #[trigger] q[t] != '=' by {
        assert(q[t] == body@[a + t]);
    }
    assert(!q.contains('='));
    let key = body.substring_char(a, e);
    assert(key@ =~= p.take(p.len() - 3));
    Some(String::from_str(key))
}

/// The ids of the lines checked in a submitted configuration form: the body is
/// split on `&`, and each piece that splits on `=` into exactly a name and
/// `on` gives its name, in order.
pub fn selected_line_ids(body: &str) -> (r: Vec<String>)
    ensures
        crate::line::strings_view(r@) == selected_keys(split_on(body@, '&')),
{
    let n = body.unicode_len();
    let mut keys: Vec<String> = Vec::new();
    let mut start: usize = 0;
    let ghost mut done: Seq<Seq<char>> = Seq::empty();
    let mut i: usize = 0;
    assert(body@.take(0) =~= Seq::<char>::empty());
    assert(body@.subrange(0, 0) =~= Seq::<char>::empty());
    while i < n
        invariant
            n == body@.len(),
            start <= i <= n,
            split_on(body@.take(i as int), '&') == done.push(body@.subrange(start as int, i as int)),
            crate::line::strings_view(keys@) == selected_keys(done),
        decreases n - i,
    {
        let c = body.get_char(i);
        let ghost t = body@.take(i + 1);
        assert(t.drop_last() =~= body@.take(i as int));
        assert(t.last() == c);
        if c == '&' {
            let ghost piece = body@.subrange(start as int, i as int);
            match piece_key(body, start, i) {
                Some(k) => {
                    keys.push(k);
                },
                None => {},
            }
            proof {
                let nd = done.push(piece);
                assert(nd.drop_last() =~= done);
                assert(crate::line::strings_view(keys@) =~= selected_keys(nd));
                done = nd;
                assert(body@.subrange(i + 1, i + 1) =~= Seq::<char>::empty());
            }
            start = i + 1;
        } else {
            proof {
                assert(body@.subrange(start as int, i + 1) =~= body@.subrange(start as int, i as int).push(c));
                assert(split_on(t, '&') =~= done.push(body@.subrange(start as int, i + 1)));
            }
        }
        i = i + 1;
    }
    assert(body@.take(n as int) =~= body@);
    let ghost last = body@.subrange(start as int, n as int);
    match piece_key(body, start, n) {
        Some(k) => {
            keys.push(k);
        },
        None => {},
    }
    proof {
        let all = done.push(last);
        assert(all.drop_last() =~= done);
        assert(crate::line::strings_view(keys@) =~= selected_keys(all));
    }
    keys
}

/// The body of the form that a browser submits when exactly the boxes named
/// `keys` are checked, in this order: `key=on` for each, joined with `&`.
pub open spec fn form_body(keys: Seq<Seq<char>>) -> Seq<char>
    decreases keys.len(),
{
    if keys.len() == 0 {
        Seq::empty()
    } else if keys.len() == 1 {
        keys[0] + on_suffix()
    } else {
        form_body(keys.drop_last()) + seq!['&'] + keys.last() + on_suffix()
    }
}

/// Splitting `s + y`, where `y` holds no separator, extends the last piece of `s` by `y`.
proof fn lemma_split_append(s: Seq<char>, y: Seq<char>, sep: char)
    requires
        !y.contains(sep),
    ensures
        split_on(s + y, sep) == split_on(s, sep).update(
            split_on(s, sep).len() - 1,
            split_on(s, sep).last() + y,
        ),
    decreases y.len(),
{
    lemma_split_nonempty(s, sep);
    if y.len() == 0 {
        assert(s + y =~= s);
        assert(split_on(s, sep).last() + y =~= split_on(s, sep).last());
        assert(split_on(s, sep).update(split_on(s, sep).len() - 1, split_on(s, sep).last())
            =~= split_on(s, sep));
    } else {
        let y0 = y.drop_last();
        assert(!y0.contains(sep)) by {
            if y0.contains(sep) {
                let k = choose|k: int| 0 <= k < y0.len() && y0[k] == sep;
                assert(y[k] == sep);
            }
        }
        lemma_split_append(s, y0, sep);
        assert((s + y).drop_last() =~= s + y0);
        assert((s + y).last() == y.last());
        assert(y.last() != sep) by {
            assert(y[y.len() - 1] == y.last());
        }
        lemma_split_nonempty(s + y0, sep);
        let prev = split_on(s + y0, sep);
        assert(split_on(s + y, sep) == prev.update(prev.len() - 1, prev.last().push(y.last())));
        assert(prev.len() == split_on(s, sep).len());
        assert(prev.last() =~= split_on(s, sep).last() + y0);
        let sl = split_on(s, sep).last();
        assert(prev.last().push(y.last()) =~= sl + y);
        let l = prev.len() - 1;
        assert(prev.update(l, sl + y) =~= split_on(s, sep).update(l, sl + y));
        assert(split_on(s + y, sep) =~= split_on(s, sep).update(
            split_on(s, sep).len() - 1,
            split_on(s, sep).last() + y,
        ));
    }
}

/// The form pieces of `form_body(keys)` are the pieces `key=on`.
proof fn lemma_form_pieces(keys: Seq<Seq<char>>)
    requires
        keys.len() > 0,
        forall|i: int| 0 <= i < keys.len() ==> !(#[trigger] keys[i]).contains('&'),
    ensures
        split_on(form_body(keys), '&') == keys.map_values(|k: Seq<char>| k + on_suffix()),
    decreases keys.len(),
{
    let p = keys.last() + on_suffix();
    assert(!p.contains('&')) by {
        if p.contains('&') {
            let k = choose|k: int| 0 <= k < p.len() && p[k] == '&';
            if k < keys.last().len() {
                assert(keys[keys.len() - 1][k] == '&');
            }
        }
    }
    if keys.len() == 1 {
        lemma_split_append(Seq::empty(), p, '&');
        assert(Seq::<char>::empty() + p =~= form_body(keys));
        assert(split_on(Seq::<char>::empty(), '&').last() + p =~= p);
        assert(split_on(form_body(keys), '&') =~= keys.map_values(|k: Seq<char>| k + on_suffix()));
    } else {
        let f = form_body(keys.drop_last());
        lemma_form_pieces(keys.drop_last());
        let g = f.push('&');
        assert(g.drop_last() =~= f);
        assert(split_on(g, '&') == split_on(f, '&').push(Seq::empty()));
        lemma_split_append(g, p, '&');
        assert(g + p =~= form_body(keys));
        assert(Seq::<char>::empty() + p =~= p);
        assert(split_on(form_body(keys), '&') =~= keys.map_values(|k: Seq<char>| k + on_suffix()));
    }
}

/// The names reported by the pieces `key=on` are the keys, where no key holds `=`.
proof fn lemma_selected_on_pieces(keys: Seq<Seq<char>>)
    requires
        forall|i: int| 0 <= i < keys.len() ==> !(#[trigger] keys[i]).contains('='),
    ensures
        selected_keys(keys.map_values(|k: Seq<char>| k + on_suffix())) == keys,
    decreases keys.len(),
{
    let ps = keys.map_values(|k: Seq<char>| k + on_suffix());
    if keys.len() > 0 {
        lemma_selected_on_pieces(keys.drop_last());
        assert(ps.drop_last() =~= keys.drop_last().map_values(|k: Seq<char>| k + on_suffix()));
        let k = keys.last();
        let p = ps.last();
        assert(p == k + on_suffix());
        assert(p.skip(p.len() - 3) =~= on_suffix());
        assert(p.take(p.len() - 3) =~= k);
        assert(!k.contains('=')) by {
            assert(keys[keys.len() - 1] == k);
        }
        assert(on_key(p) == Some(k));
        assert(selected_keys(ps) =~= keys);
    } else {
        assert(ps.len() == 0);
        assert(selected_keys(ps) =~= keys);
    }
}

/// Law: submitting the configuration form with exactly the boxes named `keys`
/// checked, in order, gives back exactly `keys`, provided no key holds `&` or `=`.
pub proof fn law_form_selection_roundtrip(keys: Seq<Seq<char>>)
    requires
        forall|i: int| 0 <= i < keys.len() ==> !(#[trigger] keys[i]).contains('&') && !keys[i].contains('='),
    ensures
        selected_keys(split_on(form_body(keys), '&')) == keys,
{
    if keys.len() == 0 {
        let pieces = split_on(form_body(keys), '&');
        assert(pieces =~= seq![Seq::<char>::empty()]);
        assert(pieces.drop_last() =~= Seq::<Seq<char>>::empty());
        assert(on_key(pieces.last()) is None);
        assert(selected_keys(pieces.drop_last()) =~= Seq::<Seq<char>>::empty());
        assert(selected_keys(pieces) =~= keys);
    } else {
        lemma_form_pieces(keys);
        lemma_selected_on_pieces(keys);
    }
}

/// Where the configuration submitted through the page is saved, given the
/// program's configuration directory `config_dir`: the program's name is
/// pushed onto it once more, then the profile's file, or the default
/// configuration file when there is no profile.
pub fn save_path(config_dir: &str, profile: &Option<String>) -> (r: String)
    ensures
        r@ == pushed(
            pushed(config_dir@, NAME@),
            match profile {
                Some(p) => profile_file_name(p@),
                None => CHATWHEEL_CONF_PATH@,
            },
        ),
{
    let dir = push_path(config_dir, NAME);
    match profile {
        Some(p) => {
            let name = crate::chatwheel::profile_file(p.as_str());
            push_path(dir.as_str(), name.as_str())
        },
        None => push_path(dir.as_str(), CHATWHEEL_CONF_PATH),
    }
}

/// The address of the configuration page.
pub open spec fn address_spec() -> Seq<char> {
    seq!['h', 't', 't', 'p', ':', '/', '/'] + CONFIGURE_HOST@ + seq![':'] + decimal(CONFIGURE_PORT as nat)
}

/// The address of the configuration page: `http://host:port`.
pub fn configure_address() -> (r: String)
    ensures
        r@ == address_spec(),
{
    let mut r = String::from_str("http://");
    r.append(CONFIGURE_HOST);
    r.append(":");
    let port = decimal_string(CONFIGURE_PORT as u32);
    r.append(port.as_str());
    proof {
        reveal_strlit("http://");
        reveal_strlit(":");
        assert(r@ =~= address_spec());
    }
    r
}

/// The program that opens the configuration page in a browser.
pub const BROWSER: &'static str = "/etc/alternatives/x-www-browser";

/// The shell command that opens the configuration page in the browser.
pub fn browser_command() -> (r: String)
    ensures
        r@ == BROWSER@ + seq![' '] + address_spec(),
{
    let mut r = String::from_str(BROWSER);
    r.append(" ");
    let address = configure_address();
    r.append(address.as_str());
    proof {
        reveal_strlit(" ");
        assert(r@ =~= BROWSER@ + seq![' '] + address_spec());
    }
    r
}

proof fn lemma_state_of_all_ids(ids: Seq<Seq<char>>, key: Seq<char>)
    ensures
        configured_state(ids.map_values(|id: Seq<char>| Some(id)), key) == Some(ids.contains(key)),
    decreases ids.len(),
{
    let s = ids.map_values(|id: Seq<char>| Some(id));
    if ids.len() > 0 {
        lemma_state_of_all_ids(ids.drop_first(), key);
        assert(s.drop_first() =~= ids.drop_first().map_values(|id: Seq<char>| Some(id)));
        if ids[0] != key {
            assert(ids.contains(key) ==> ids.drop_first().contains(key)) by {
                if ids.contains(key) {
                    let k = choose|k: int| 0 <= k < ids.len() && ids[k] == key;
                    assert(ids.drop_first()[k - 1] == key);
                }
            }
            assert(ids.drop_first().contains(key) ==> ids.contains(key)) by {
                if ids.drop_first().contains(key) {
                    let k = choose|k: int| 0 <= k < ids.len() - 1 && ids.drop_first()[k] == key;
                    assert(ids[k + 1] == key);
                }
            }
        } else {
            assert(ids[0] == key);
        }
    }
}

/// Law: once a selection of lines that the catalogue all has is saved, the
/// configuration page shows exactly those lines checked.
pub proof fn law_saved_selection_is_checked(
    all_lines: Map<Seq<char>, LineView>,
    ids: Seq<Seq<char>>,
    lines: Seq<LineView>,
    key: Seq<char>,
)
    requires
        lines.len() == ids.len(),
        forall|i: int|
            0 <= i < lines.len() ==> #[trigger] lines[i] == configured_line(all_lines[ids[i]], ids[i]),
    ensures
        configured_state(line_ids(lines), key) == Some(ids.contains(key)),
        forall|listing: Seq<(Seq<char>, LineView)>, i: int|
            0 <= i < listing.len() ==> #[trigger] table_rows(listing, line_ids(lines))[i] == row_html(
                listing[i].0,
                listing[i].1,
                ids.contains(listing[i].0),
            ),
{
    law_config_carries_ids(all_lines, ids, lines);
    lemma_state_of_all_ids(ids, key);
    assert forall|listing: Seq<(Seq<char>, LineView)>, i: int|
        0 <= i < listing.len() implies #[trigger] table_rows(listing, line_ids(lines))[i] == row_html(
            listing[i].0,
            listing[i].1,
            ids.contains(listing[i].0),
        ) by {
        lemma_state_of_all_ids(ids, listing[i].0);
    }
}

/// A defined lookup of `key` says whether some id of the configuration is `key`.
proof fn lemma_configured_state_meaning(ids: Seq<Option<Seq<char>>>, key: Seq<char>)
    requires
        configured_state(ids, key) is Some,
    ensures
        configured_state(ids, key) == Some(exists|j: int| 0 <= j < ids.len() && ids[j] == Some(key)),
    decreases ids.len(),
{
    if ids.len() > 0 {
        if ids[0] != Some(key) {
            let r = ids.drop_first();
            lemma_configured_state_meaning(r, key);
            if exists|j: int| 0 <= j < ids.len() && ids[j] == Some(key) {
                let j = choose|j: int| 0 <= j < ids.len() && ids[j] == Some(key);
                assert(r[j - 1] == Some(key));
            }
            if exists|j: int| 0 <= j < r.len() && r[j] == Some(key) {
                let j = choose|j: int| 0 <= j < r.len() && r[j] == Some(key);
                assert(ids[j + 1] == Some(key));
            }
        }
    }
}

/// Law: the table has one row per line of the catalogue, in the catalogue's
/// order, and the row of a line is checked exactly when some line of the
/// configuration has that line's id.
pub proof fn law_table_rows_checked(listing: Seq<(Seq<char>, LineView)>, ids: Seq<Option<Seq<char>>>)
    requires
        table_defined(listing, ids),
    ensures
        table_rows(listing, ids).len() == listing.len(),
        forall|i: int|
            0 <= i < listing.len() ==> #[trigger] table_rows(listing, ids)[i] == row_html(
                listing[i].0,
                listing[i].1,
                exists|j: int| 0 <= j < ids.len() && ids[j] == Some(listing[i].0),
            ),
{
    assert forall|i: int| 0 <= i < listing.len() implies #[trigger] table_rows(listing, ids)[i] == row_html(
        listing[i].0,
        listing[i].1,
        exists|j: int| 0 <= j < ids.len() && ids[j] == Some(listing[i].0),
    ) by {
        assert(configured_state(ids, listing[i].0) is Some);
        lemma_configured_state_meaning(ids, listing[i].0);
    }
}

} // verus!
