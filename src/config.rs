//! The configuration file: cleaning its lines, cutting them into sections
//! and reading the `key = value` settings of each section.
use vstd::prelude::*;
use crate::text::{
    concat_all, is_char, is_white_space, lemma_pieces_concat, lemma_pieces_no_sep,
    lemma_pieces_nonempty, lemma_trim_end_space, lemma_trim_start_space, lemma_trimmed_unchanged,
    pieces, same_text, split_on, trim, trim_end, trim_start, trimmed, views,
};

verus! {

/// Printer-wide settings. The numeric settings are kept as the text that
/// stood in the file.
pub struct GeneralConfig {
    pub printer_name: String,
    pub hourly_fee: String,
    pub markup: String,
}

pub ghost struct GeneralView {
    pub printer_name: Seq<char>,
    pub hourly_fee: Seq<char>,
    pub markup: Seq<char>,
}

impl View for GeneralConfig {
    type V = GeneralView;

    open spec fn view(&self) -> GeneralView {
        GeneralView {
            printer_name: self.printer_name@,
            hourly_fee: self.hourly_fee@,
            markup: self.markup@,
        }
    }
}

/// A filament profile. The numeric settings are kept as the text that stood
/// in the file.
pub struct FilamentConfig {
    pub name: String,
    pub material: String,
    pub color: String,
    pub spool_grams: String,
    pub spool_price: String,
}

pub ghost struct FilamentView {
    pub name: Seq<char>,
    pub material: Seq<char>,
    pub color: Seq<char>,
    pub spool_grams: Seq<char>,
    pub spool_price: Seq<char>,
}

impl View for FilamentConfig {
    type V = FilamentView;

    open spec fn view(&self) -> FilamentView {
        FilamentView {
            name: self.name@,
            material: self.material@,
            color: self.color@,
            spool_grams: self.spool_grams@,
            spool_price: self.spool_price@,
        }
    }
}

/// A whole configuration file: the general section and the filament
/// sections in file order.
pub struct ConfigFile {
    pub general: GeneralConfig,
    pub filaments: Vec<FilamentConfig>,
}

pub ghost struct ConfigView {
    pub general: GeneralView,
    pub filaments: Seq<FilamentView>,
}

/// The views of a sequence of filaments.
pub open spec fn filament_views(v: Seq<FilamentConfig>) -> Seq<FilamentView> {
    v.map_values(|f: FilamentConfig| f@)
}

impl View for ConfigFile {
    type V = ConfigView;

    open spec fn view(&self) -> ConfigView {
        ConfigView { general: self.general@, filaments: filament_views(self.filaments@) }
    }
}

/// The value a numeric setting has when the file does not set it.
pub open spec fn unset_number() -> Seq<char> {
    seq!['0']
}

/// A line that opens a section.
pub open spec fn is_marker(l: Seq<char>) -> bool {
    l.len() > 0 && l[0] == '!'
}

/// `is_marker` as a predicate for `pieces`.
pub open spec fn marker_pred() -> spec_fn(Seq<char>) -> bool {
    |l: Seq<char>| is_marker(l)
}

/// A trimmed line that carries content: neither blank nor a comment.
pub open spec fn is_content(l: Seq<char>) -> bool {
    l.len() > 0 && l[0] != '#'
}

/// The trimmed content lines of `ls`, in order.
pub open spec fn clean(ls: Seq<Seq<char>>) -> Seq<Seq<char>>
    decreases ls.len(),
{
    if ls.len() == 0 {
        Seq::empty()
    } else {
        let r = clean(ls.drop_last());
        let t = trimmed(ls.last());
        if is_content(t) {
            r.push(t)
        } else {
            r
        }
    }
}

/// The content lines of a file's text.
pub open spec fn cleaned_lines(raw: Seq<char>) -> Seq<Seq<char>> {
    clean(pieces(raw, is_char('\n')))
}

/// The lines after the general section's own marker, if the first line is one.
pub open spec fn body(ls: Seq<Seq<char>>) -> Seq<Seq<char>> {
    if ls.len() > 0 && is_marker(ls[0]) {
        ls.drop_first()
    } else {
        ls
    }
}

/// The sections of a file's content lines: the general section first, then
/// one section for each marker line, each without its marker.
pub open spec fn sections(ls: Seq<Seq<char>>) -> Seq<Seq<Seq<char>>> {
    pieces(body(ls), marker_pred())
}

/// The trimmed key and value of a `key = value` line; the value ends at a
/// second `=` if there is one.
pub open spec fn setting(line: Seq<char>) -> Option<(Seq<char>, Seq<char>)> {
    let p = pieces(line, is_char('='));
    if p.len() >= 2 {
        Some((trimmed(p[0]), trimmed(p[1])))
    } else {
        None
    }
}

pub open spec fn empty_general() -> GeneralView {
    GeneralView {
        printer_name: Seq::empty(),
        hourly_fee: unset_number(),
        markup: unset_number(),
    }
}

pub open spec fn apply_general(g: GeneralView, line: Seq<char>) -> GeneralView {
    match setting(line) {
        Some((k, v)) => if k == "printer_name"@ {
            GeneralView { printer_name: v, ..g }
        } else if k == "hourly_fee"@ {
            GeneralView { hourly_fee: v, ..g }
        } else if k == "markup"@ {
            GeneralView { markup: v, ..g }
        } else {
            g
        },
        None => g,
    }
}

/// The general settings of a section's lines; a later line wins over an
/// earlier one with the same key.
pub open spec fn general_of(ls: Seq<Seq<char>>) -> GeneralView
    decreases ls.len(),
{
    if ls.len() == 0 {
        empty_general()
    } else {
        apply_general(general_of(ls.drop_last()), ls.last())
    }
}

pub open spec fn empty_filament() -> FilamentView {
    FilamentView {
        name: Seq::empty(),
        material: Seq::empty(),
        color: Seq::empty(),
        spool_grams: unset_number(),
        spool_price: unset_number(),
    }
}

pub open spec fn apply_filament(f: FilamentView, line: Seq<char>) -> FilamentView {
    match setting(line) {
        Some((k, v)) => if k == "name"@ {
            FilamentView { name: v, ..f }
        } else if k == "material"@ {
            FilamentView { material: v, ..f }
        } else if k == "color"@ {
            FilamentView { color: v, ..f }
        } else if k == "spool_grams"@ {
            FilamentView { spool_grams: v, ..f }
        } else if k == "spool_price"@ {
            FilamentView { spool_price: v, ..f }
        } else {
            f
        },
        None => f,
    }
}

/// The filament settings of a section's lines; a later line wins over an
/// earlier one with the same key.
pub open spec fn filament_of(ls: Seq<Seq<char>>) -> FilamentView
    decreases ls.len(),
{
    if ls.len() == 0 {
        empty_filament()
    } else {
        apply_filament(filament_of(ls.drop_last()), ls.last())
    }
}

/// What a file's text holds: the general settings of the first section and
/// a filament for every later one, in file order.
pub open spec fn config_of(raw: Seq<char>) -> ConfigView {
    let secs = sections(cleaned_lines(raw));
    ConfigView {
        general: general_of(secs[0]),
        filaments: secs.drop_first().map_values(|b: Seq<Seq<char>>| filament_of(b)),
    }
}

fn is_marker_line(l: &str) -> (r: bool)
    ensures
        r == is_marker(l@),
{
    l.unicode_len() > 0 && l.get_char(0) == '!'
}

/// The trimmed content lines of a file's text.
pub fn clean_lines(raw: &str) -> (r: Vec<String>)
    ensures
        views(r@) == cleaned_lines(raw@),
{
    let lines = split_on(raw, '\n');
    let ghost ls = views(lines@);
    let mut r: Vec<String> = Vec::new();
    let mut i: usize = 0;
    assert(ls.take(0) =~= Seq::<Seq<char>>::empty());
    assert(views(r@) =~= Seq::<Seq<char>>::empty());
    while i < lines.len()
        invariant
            ls == views(lines@),
            i <= lines.len(),
            views(r@) == clean(ls.take(i as int)),
        decreases lines.len() - i,
    {
        assert(ls.take(i + 1).drop_last() == ls.take(i as int));
        assert(ls.take(i + 1).last() == lines@[i as int]@);
        let t = trim(lines[i].as_str());
        if t.unicode_len() > 0 && t.as_str().get_char(0) != '#' {
            proof {
                assert(views(r@.push(t)) == views(r@).push(t@));
            }
            r.push(t);
        }
        i = i + 1;
    }
    assert(ls.take(lines.len() as int) == ls);
    r
}

/// The views of a sequence of sections.
pub open spec fn block_views(v: Seq<Vec<String>>) -> Seq<Seq<Seq<char>>> {
    v.map_values(|b: Vec<String>| views(b@))
}

/// Cuts content lines into sections: the general section first, then one
/// for each marker line.
pub fn split_sections(lines: &Vec<String>) -> (r: Vec<Vec<String>>)
    ensures
        block_views(r@) == sections(views(lines@)),
{
    let ghost ls = views(lines@);
    let n = lines.len();
    let first: usize = if n > 0 && is_marker_line(lines[0].as_str()) {
        1
    } else {
        0
    };
    assert(body(ls) == ls.subrange(first as int, n as int));
    let mut done: Vec<Vec<String>> = Vec::new();
    let mut cur: Vec<String> = Vec::new();
    let mut i: usize = first;
    assert(ls.subrange(first as int, first as int) =~= Seq::<Seq<char>>::empty());
    assert(block_views(done@) =~= Seq::<Seq<Seq<char>>>::empty());
    assert(views(cur@) =~= Seq::<Seq<char>>::empty());
    while i < n
        invariant
            ls == views(lines@),
            n == lines.len(),
            first <= i <= n,
            pieces(ls.subrange(first as int, i as int), marker_pred()) == block_views(
                done@,
            ).push(views(cur@)),
        decreases n - i,
    {
        let ghost prev = ls.subrange(first as int, i as int);
        assert(ls.subrange(first as int, i + 1).drop_last() == prev);
        assert(ls.subrange(first as int, i + 1).last() == lines@[i as int]@);
        if is_marker_line(lines[i].as_str()) {
            let finished = cur;
            proof {
                assert(block_views(done@.push(finished)) == block_views(done@).push(
                    views(finished@),
                ));
            }
            done.push(finished);
            cur = Vec::new();
            assert(views(cur@) =~= Seq::<Seq<char>>::empty());
        } else {
            let l = lines[i].clone();
            proof {
                assert(views(cur@.push(l)) == views(cur@).push(l@));
            }
            cur.push(l);
        }
        i = i + 1;
    }
    proof {
        assert(block_views(done@.push(cur)) == block_views(done@).push(views(cur@)));
    }
    done.push(cur);
    done
}

fn read_setting(line: &str) -> (r: Option<(String, String)>)
    ensures
        match r {
            Some((k, v)) => setting(line@) == Some((k@, v@)),
            None => setting(line@) is None,
        },
{
    let p = split_on(line, '=');
    if p.len() >= 2 {
        assert(views(p@)[0] == p@[0]@);
        assert(views(p@)[1] == p@[1]@);
        Some((trim(p[0].as_str()), trim(p[1].as_str())))
    } else {
        None
    }
}

/// The general settings of a section's lines.
pub fn general_from_lines(lines: &Vec<String>) -> (r: GeneralConfig)
    ensures
        r@ == general_of(views(lines@)),
{
    let ghost ls = views(lines@);
    let mut g = GeneralConfig {
        printer_name: String::new(),
        hourly_fee: String::from_str("0"),
        markup: String::from_str("0"),
    };
    proof {
        reveal_strlit("0");
        assert("0"@ =~= unset_number());
    }
    assert(g@ =~= empty_general());
    assert(ls.take(0) =~= Seq::<Seq<char>>::empty());
    let mut i: usize = 0;
    while i < lines.len()
        invariant
            ls == views(lines@),
            i <= lines.len(),
            g@ == general_of(ls.take(i as int)),
        decreases lines.len() - i,
    {
        assert(ls.take(i + 1).drop_last() == ls.take(i as int));
        assert(ls.take(i + 1).last() == lines@[i as int]@);
        match read_setting(lines[i].as_str()) {
            Some((k, v)) => {
                if same_text(k.as_str(), "printer_name") {
                    g.printer_name = v;
                } else if same_text(k.as_str(), "hourly_fee") {
                    g.hourly_fee = v;
                } else if same_text(k.as_str(), "markup") {
                    g.markup = v;
                }
            },
            None => {},
        }
        i = i + 1;
    }
    assert(ls.take(lines.len() as int) == ls);
    g
}

/// The filament settings of a section's lines.
pub fn filament_from_lines(lines: &Vec<String>) -> (r: FilamentConfig)
    ensures
        r@ == filament_of(views(lines@)),
{
    let ghost ls = views(lines@);
    let mut f = FilamentConfig {
        name: String::new(),
        material: String::new(),
        color: String::new(),
        spool_grams: String::from_str("0"),
        spool_price: String::from_str("0"),
    };
    proof {
        reveal_strlit("0");
        assert("0"@ =~= unset_number());
    }
    assert(f@ =~= empty_filament());
    assert(ls.take(0) =~= Seq::<Seq<char>>::empty());
    let mut i: usize = 0;
    while i < lines.len()
        invariant
            ls == views(lines@),
            i <= lines.len(),
            f@ == filament_of(ls.take(i as int)),
        decreases lines.len() - i,
    {
        assert(ls.take(i + 1).drop_last() == ls.take(i as int));
        assert(ls.take(i + 1).last() == lines@[i as int]@);
        match read_setting(lines[i].as_str()) {
            Some((k, v)) => {
                if same_text(k.as_str(), "name") {
                    f.name = v;
                } else if same_text(k.as_str(), "material") {
                    f.material = v;
                } else if same_text(k.as_str(), "color") {
                    f.color = v;
                } else if same_text(k.as_str(), "spool_grams") {
                    f.spool_grams = v;
                } else if same_text(k.as_str(), "spool_price") {
                    f.spool_price = v;
                }
            },
            None => {},
        }
        i = i + 1;
    }
    assert(ls.take(lines.len() as int) == ls);
    f
}

/// Reads a configuration file's text.
pub fn parse_config(raw: &str) -> (r: ConfigFile)
    ensures
        r@ == config_of(raw@),
{
    let lines = clean_lines(raw);
    let secs = split_sections(&lines);
    let ghost ss = sections(cleaned_lines(raw@));
    proof {
        lemma_pieces_nonempty(body(cleaned_lines(raw@)), marker_pred());
    }
    assert(block_views(secs@)[0] == views(secs@[0]@));
    let general = general_from_lines(&secs[0]);
    let mut filaments: Vec<FilamentConfig> = Vec::new();
    let mut i: usize = 1;
    assert(filament_views(filaments@) =~= Seq::<FilamentView>::empty());
    while i < secs.len()
        invariant
            block_views(secs@) == ss,
            1 <= i <= secs.len(),
            filament_views(filaments@) =~= ss.subrange(1, i as int).map_values(
                |b: Seq<Seq<char>>| filament_of(b),
            ),
        decreases secs.len() - i,
    {
        assert(block_views(secs@)[i as int] == views(secs@[i as int]@));
        let f = filament_from_lines(&secs[i]);
        proof {
            assert(filament_views(filaments@.push(f)) == filament_views(filaments@).push(f@));
            assert(ss.subrange(1, i + 1) == ss.subrange(1, i as int).push(ss[i as int]));
        }
        filaments.push(f);
        i = i + 1;
    }
    assert(ss.subrange(1, secs.len() as int) == ss.drop_first());
    ConfigFile { general, filaments }
}

/// How many leading lines `drain_for_parse` removes: up to and including the
/// first marker line, or all of them when there is none.
pub open spec fn drain_count(ls: Seq<Seq<char>>) -> int
    decreases ls.len(),
{
    if ls.len() == 0 {
        0
    } else if is_marker(ls[0]) {
        1
    } else {
        1 + drain_count(ls.drop_first())
    }
}

/// Removes the lines of the current section and the marker that ends it.
pub fn drain_for_parse(contents: &mut Vec<String>)
    ensures
        0 <= drain_count(views(old(contents)@)) <= old(contents)@.len(),
        final(contents)@ == old(contents)@.skip(drain_count(views(old(contents)@))),
{
    let ghost ls = views(contents@);
    let n = contents.len();
    let mut i: usize = 0;
    assert(ls.skip(0) == ls);
    proof {
        lemma_drain_count_bounds(ls);
    }
    while i < n && !is_marker_line(contents[i].as_str())
        invariant
            n == contents@.len(),
            ls == views(contents@),
            i <= n,
            drain_count(ls) == i + drain_count(ls.skip(i as int)),
            0 <= drain_count(ls.skip(i as int)) <= n - i,
        decreases n - i,
    {
        assert(ls.skip(i as int).drop_first() == ls.skip(i + 1));
        assert(ls.skip(i as int)[0] == contents@[i as int]@);
        proof {
            let t = ls.skip(i + 1);
            if t.len() > 0 {
                assert(t.drop_first() == ls.skip(i + 2));
            }
            lemma_drain_count_bounds(t);
        }
        i = i + 1;
    }
    let cut: usize = if i < n {
        assert(ls.skip(i as int)[0] == contents@[i as int]@);
        i + 1
    } else {
        assert(ls.skip(i as int).len() == 0);
        n
    };
    let rest = contents.split_off(cut);
    *contents = rest;
}

proof fn lemma_drain_count_bounds(ls: Seq<Seq<char>>)
    ensures
        0 <= drain_count(ls) <= ls.len(),
    decreases ls.len(),
{
    if ls.len() > 0 {
        lemma_drain_count_bounds(ls.drop_first());
    }
}

/// A section as it stands in a file: a marker line, then lines none of which
/// is a marker.
pub open spec fn is_section(s: Seq<Seq<char>>) -> bool {
    &&& s.len() >= 1
    &&& is_marker(s[0])
    &&& forall|j: int| 1 <= j < s.len() ==> !is_marker(#[trigger] s[j])
}

proof fn lemma_sections_prefix(secs: Seq<Seq<Seq<char>>>, m: int)
    requires
        1 <= m <= secs.len(),
        forall|k: int| 0 <= k < secs.len() ==> is_section(#[trigger] secs[k]),
    ensures
        concat_all(secs.take(m)).len() >= 1,
        concat_all(secs.take(m))[0] == secs[0][0],
        pieces(concat_all(secs.take(m)).drop_first(), marker_pred()) == secs.take(m).map_values(
            |s: Seq<Seq<char>>| s.drop_first(),
        ),
    decreases m,
{
    let f = concat_all(secs.take(m));
    let s = secs[m - 1];
    assert(is_section(s));
    assert(secs.take(m).drop_last() == secs.take(m - 1));
    assert(secs.take(m).last() == s);
    if m == 1 {
        assert(secs.take(0) =~= Seq::<Seq<Seq<char>>>::empty());
        assert(f =~= s);
        assert forall|i: int| 0 <= i < s.drop_first().len() implies !marker_pred()(
            #[trigger] s.drop_first()[i],
        ) by {
            assert(s.drop_first()[i] == s[i + 1]);
        }
        lemma_pieces_no_sep(s.drop_first(), marker_pred());
        assert(seq![s.drop_first()] =~= secs.take(m).map_values(
            |t: Seq<Seq<char>>| t.drop_first(),
        ));
    } else {
        let g = concat_all(secs.take(m - 1));
        lemma_sections_prefix(secs, m - 1);
        assert(f == g + s);
        assert(f.drop_first() =~= g.drop_first().push(s[0]) + s.drop_first());
        lemma_pieces_concat(g.drop_first(), s[0], s.drop_first(), marker_pred());
        assert forall|i: int| 0 <= i < s.drop_first().len() implies !marker_pred()(
            #[trigger] s.drop_first()[i],
        ) by {
            assert(s.drop_first()[i] == s[i + 1]);
        }
        lemma_pieces_no_sep(s.drop_first(), marker_pred());
        assert(secs.take(m - 1).map_values(|t: Seq<Seq<char>>| t.drop_first()) + seq![
            s.drop_first(),
        ] =~= secs.take(m).map_values(|t: Seq<Seq<char>>| t.drop_first()));
    }
}

/// A file whose content lines are a general section followed by N filament
/// sections reads as its general settings and exactly N filaments, the k-th
/// filament being read from the k-th filament section.
pub proof fn lemma_sections_in_file_order(raw: Seq<char>, secs: Seq<Seq<Seq<char>>>)
    requires
        secs.len() >= 1,
        forall|k: int| 0 <= k < secs.len() ==> is_section(#[trigger] secs[k]),
        cleaned_lines(raw) == concat_all(secs),
    ensures
        config_of(raw).general == general_of(secs[0].drop_first()),
        config_of(raw).filaments.len() == secs.len() - 1,
        forall|k: int|
            1 <= k < secs.len() ==> config_of(raw).filaments[k - 1] == filament_of(
                #[trigger] secs[k].drop_first(),
            ),
{
    lemma_sections_prefix(secs, secs.len() as int);
    assert(secs.take(secs.len() as int) == secs);
    let ss = sections(cleaned_lines(raw));
    assert(ss == secs.map_values(|s: Seq<Seq<char>>| s.drop_first()));
    assert(ss[0] == secs[0].drop_first());
    assert forall|k: int| 1 <= k < secs.len() implies config_of(raw).filaments[k - 1]
        == filament_of(#[trigger] secs[k].drop_first()) by {
        assert(ss.drop_first()[k - 1] == ss[k]);
    }
}

/// A key that can stand in a written `key = value` line and be read back.
pub open spec fn is_plain_key(k: Seq<char>) -> bool {
    &&& k.len() > 0
    &&& !is_white_space(k[0]) && !is_white_space(k.last())
    &&& k[0] != '#' && k[0] != '!'
    &&& forall|i: int| 0 <= i < k.len() ==> #[trigger] k[i] != '=' && k[i] != '\n'
}

/// A value that can stand in a written `key = value` line and be read back:
/// no `=`, no line feed, and no white space at either end.
pub open spec fn is_plain_value(v: Seq<char>) -> bool {
    &&& forall|i: int| 0 <= i < v.len() ==> #[trigger] v[i] != '=' && v[i] != '\n'
    &&& v.len() == 0 || (!is_white_space(v[0]) && !is_white_space(v.last()))
}

/// The line that records a setting.
pub open spec fn setting_line(k: Seq<char>, v: Seq<char>) -> Seq<char> {
    k + " = "@ + v
}

/// A written setting line is a content line, no marker, and reads back as
/// its key and value.
pub proof fn lemma_setting_line(k: Seq<char>, v: Seq<char>)
    requires
        is_plain_key(k),
        is_plain_value(v),
    ensures
        forall|i: int|
            0 <= i < setting_line(k, v).len() ==> #[trigger] setting_line(k, v)[i] != '\n',
        is_content(trimmed(setting_line(k, v))),
        !is_marker(trimmed(setting_line(k, v))),
        setting(trimmed(setting_line(k, v))) == Some((k, v)),
{
    reveal_strlit(" = ");
    assert(" = "@ =~= seq![' ', '=', ' ']);
    let line = setting_line(k, v);
    let kp = k.push(' ');
    let eq = is_char('=');
    assert forall|i: int| 0 <= i < line.len() implies #[trigger] line[i] != '\n' by {
        if i >= k.len() + 3 {
            assert(line[i] == v[i - k.len() - 3]);
        }
    }
    assert forall|i: int| 0 <= i < kp.len() implies !eq(#[trigger] kp[i]) by {
        if i < k.len() {
            assert(kp[i] == k[i]);
        }
    }
    lemma_pieces_no_sep(kp, eq);
    assert(trim_end(kp) == trim_end(k)) by {
        lemma_trim_end_space(k, ' ');
    }
    assert(trimmed(kp) == k);
    let t = trimmed(line);
    if v.len() > 0 {
        lemma_trimmed_unchanged(line);
        let sv = seq![' '] + v;
        assert(line =~= kp.push('=') + sv);
        lemma_pieces_concat(kp, '=', sv, eq);
        assert forall|i: int| 0 <= i < sv.len() implies !eq(#[trigger] sv[i]) by {
            if i > 0 {
                assert(sv[i] == v[i - 1]);
            }
        }
        lemma_pieces_no_sep(sv, eq);
        lemma_trim_start_space(' ', v);
        assert(trimmed(sv) == v);
        assert(pieces(t, eq) =~= seq![kp, sv]);
    } else {
        assert(line =~= kp.push('=').push(' '));
        lemma_trim_end_space(kp.push('='), ' ');
        assert(trim_start(line) == line);
        assert(t == kp.push('='));
        assert(t =~= kp.push('=') + Seq::<char>::empty());
        lemma_pieces_concat(kp, '=', Seq::<char>::empty(), eq);
        assert(pieces(t, eq) =~= seq![kp, Seq::<char>::empty()]);
        assert(trimmed(Seq::<char>::empty()) == Seq::<char>::empty());
        assert(v =~= Seq::<char>::empty());
    }
}

} // verus!
