//! The texts that the program writes into the configuration file: the
//! default file and the section that records a new filament.
use vstd::prelude::*;
use crate::config::{
    body, clean, cleaned_lines, config_of, empty_filament, empty_general, filament_of, general_of,
    is_content, is_plain_key, is_plain_value, lemma_setting_line, marker_pred, sections,
    setting_line, FilamentConfig, FilamentView, GeneralView,
};
use crate::text::{
    is_char, lemma_pieces_concat, lemma_pieces_no_sep, lemma_pieces_nonempty,
    lemma_trimmed_unchanged, pieces, trimmed,
};

verus! {

/// Lines joined with a line feed between each two.
pub open spec fn join_lines(ls: Seq<Seq<char>>) -> Seq<char>
    decreases ls.len(),
{
    if ls.len() == 0 {
        Seq::empty()
    } else if ls.len() == 1 {
        ls[0]
    } else {
        join_lines(ls.drop_last()) + seq!['\n'] + ls.last()
    }
}

/// The lines of the file written when none exists.
pub open spec fn default_lines() -> Seq<Seq<char>> {
    seq![
        "# 3d Print Calculator config"@,
        "# Do not edit configuration names and only edit values, a value of the wrong type is reported as an error"@,
        "# Any lines starting with a \"!\" mark the beginning of a category, don't mess with or worry about these"@,
        "# Filament configurations are added via the main program"@,
        "# Any line starting with a \"#\" is a commented line"@,
        ""@,
        "! General Config"@,
        "printer_name = Printer"@,
        "hourly_fee = 0.5"@,
        "markup = 3.0"@,
    ]
}

/// The text of the file written when none exists.
pub fn default_config_text() -> (r: String)
    ensures
        r@ == join_lines(default_lines()),
{
    let mut r = String::from_str("# 3d Print Calculator config");
    r.append("\n");
    r.append(
        "# Do not edit configuration names and only edit values, a value of the wrong type is reported as an error",
    );
    r.append("\n");
    r.append(
        "# Any lines starting with a \"!\" mark the beginning of a category, don't mess with or worry about these",
    );
    r.append("\n");
    r.append("# Filament configurations are added via the main program");
    r.append("\n");
    r.append("# Any line starting with a \"#\" is a commented line");
    r.append("\n");
    r.append("");
    r.append("\n");
    r.append("! General Config");
    r.append("\n");
    r.append("printer_name = Printer");
    r.append("\n");
    r.append("hourly_fee = 0.5");
    r.append("\n");
    r.append("markup = 3.0");
    proof {
        reveal_with_fuel(join_lines, 11);
        reveal_strlit("\n");
        reveal_strlit("");
        assert(r@ =~= join_lines(default_lines()));
    }
    r
}

/// The lines of the section that records a filament.
pub open spec fn filament_lines(f: FilamentView) -> Seq<Seq<char>> {
    seq![
        "! Filament"@,
        "name = "@ + f.name,
        "material = "@ + f.material,
        "color = "@ + f.color,
        "spool_grams = "@ + f.spool_grams,
        "spool_price = "@ + f.spool_price,
    ]
}

/// The text appended to the file for a new filament: a blank line, then the
/// filament's section.
pub open spec fn filament_block(f: FilamentView) -> Seq<char> {
    "\n\n"@ + join_lines(filament_lines(f))
}

/// The text appended to the file for a new filament.
pub fn filament_block_text(f: &FilamentConfig) -> (r: String)
    ensures
        r@ == filament_block(f@),
{
    let mut r = String::from_str("\n\n");
    r.append("! Filament");
    r.append("\nname = ");
    r.append(f.name.as_str());
    r.append("\nmaterial = ");
    r.append(f.material.as_str());
    r.append("\ncolor = ");
    r.append(f.color.as_str());
    r.append("\nspool_grams = ");
    r.append(f.spool_grams.as_str());
    r.append("\nspool_price = ");
    r.append(f.spool_price.as_str());
    proof {
        reveal_with_fuel(join_lines, 7);
        reveal_strlit("\nname = ");
        reveal_strlit("name = ");
        reveal_strlit("\nmaterial = ");
        reveal_strlit("material = ");
        reveal_strlit("\ncolor = ");
        reveal_strlit("color = ");
        reveal_strlit("\nspool_grams = ");
        reveal_strlit("spool_grams = ");
        reveal_strlit("\nspool_price = ");
        reveal_strlit("spool_price = ");
        assert(r@ =~= filament_block(f@));
    }
    r
}

/// The file's new text once a filament is added: the old text, then the
/// filament's section.
pub fn append_filament(raw: &str, f: &FilamentConfig) -> (r: String)
    ensures
        r@ == raw@ + filament_block(f@),
{
    let mut r = String::from_str(raw);
    let block = filament_block_text(f);
    r.append(block.as_str());
    r
}

/// Splitting joined lines at line feeds gives the lines back.
pub proof fn lemma_split_joined(ls: Seq<Seq<char>>)
    requires
        ls.len() >= 1,
        forall|i: int, j: int| 0 <= i < ls.len() && 0 <= j < ls[i].len() ==> #[trigger] ls[i][j] != '\n',
    ensures
        pieces(join_lines(ls), is_char('\n')) == ls,
    decreases ls.len(),
{
    let last = ls.last();
    assert forall|j: int| 0 <= j < last.len() implies !is_char('\n')(#[trigger] last[j]) by {
        assert(ls[ls.len() - 1][j] != '\n');
    }
    lemma_pieces_no_sep(last, is_char('\n'));
    if ls.len() == 1 {
        assert(seq![ls[0]] =~= ls);
    } else {
        let front = ls.drop_last();
        assert forall|i: int, j: int| 0 <= i < front.len() && 0 <= j < front[i].len() implies #[trigger] front[i][j] != '\n' by {
            assert(front[i] == ls[i]);
        }
        lemma_split_joined(front);
        assert(join_lines(ls) =~= join_lines(front).push('\n') + last);
        lemma_pieces_concat(join_lines(front), '\n', last, is_char('\n'));
        assert(front + seq![last] =~= ls);
    }
}

proof fn lemma_clean_concat(a: Seq<Seq<char>>, b: Seq<Seq<char>>)
    ensures
        clean(a + b) == clean(a) + clean(b),
    decreases b.len(),
{
    if b.len() == 0 {
        assert(a + b =~= a);
        assert(clean(a) + clean(b) =~= clean(a));
    } else {
        lemma_clean_concat(a, b.drop_last());
        assert((a + b).drop_last() =~= a + b.drop_last());
        assert((a + b).last() == b.last());
        let t = trimmed(b.last());
        if is_content(t) {
            assert((clean(a) + clean(b.drop_last())).push(t) =~= clean(a) + clean(b.drop_last()).push(t));
        }
    }
}

/// Lines that all have content once trimmed are all kept, trimmed.
proof fn lemma_clean_all(ls: Seq<Seq<char>>)
    requires
        forall|i: int| 0 <= i < ls.len() ==> is_content(trimmed(#[trigger] ls[i])),
    ensures
        clean(ls) == ls.map_values(|l: Seq<char>| trimmed(l)),
    decreases ls.len(),
{
    if ls.len() > 0 {
        let front = ls.drop_last();
        assert forall|i: int| 0 <= i < front.len() implies is_content(trimmed(#[trigger] front[i])) by {
            assert(front[i] == ls[i]);
        }
        lemma_clean_all(front);
        assert(is_content(trimmed(ls[ls.len() - 1])));
        assert(front.map_values(|l: Seq<char>| trimmed(l)).push(trimmed(ls.last())) =~= ls.map_values(
            |l: Seq<char>| trimmed(l),
        ));
    } else {
        assert(ls.map_values(|l: Seq<char>| trimmed(l)) =~= Seq::<Seq<char>>::empty());
    }
}

/// Lines none of which has content once trimmed are all dropped.
proof fn lemma_clean_none(ls: Seq<Seq<char>>)
    requires
        forall|i: int| 0 <= i < ls.len() ==> !is_content(trimmed(#[trigger] ls[i])),
    ensures
        clean(ls) == Seq::<Seq<char>>::empty(),
    decreases ls.len(),
{
    if ls.len() > 0 {
        let front = ls.drop_last();
        assert forall|i: int| 0 <= i < front.len() implies !is_content(trimmed(#[trigger] front[i])) by {
            assert(front[i] == ls[i]);
        }
        lemma_clean_none(front);
        assert(!is_content(trimmed(ls[ls.len() - 1])));
    }
}

/// Writing a filament's section after a file's text and reading the result
/// gives the same general settings, and the file's filaments followed by the
/// written one with every value as it was entered.
pub proof fn lemma_filament_round_trip(raw: Seq<char>, f: FilamentView)
    requires
        cleaned_lines(raw).len() > 0,
        is_plain_value(f.name),
        is_plain_value(f.material),
        is_plain_value(f.color),
        is_plain_value(f.spool_grams),
        is_plain_value(f.spool_price),
    ensures
        config_of(raw + filament_block(f)).general == config_of(raw).general,
        config_of(raw + filament_block(f)).filaments == config_of(raw).filaments.push(f),
{
    reveal_strlit("! Filament");
    reveal_strlit("name");
    reveal_strlit("material");
    reveal_strlit("color");
    reveal_strlit("spool_grams");
    reveal_strlit("spool_price");
    reveal_strlit("name = ");
    reveal_strlit("material = ");
    reveal_strlit("color = ");
    reveal_strlit("spool_grams = ");
    reveal_strlit("spool_price = ");
    reveal_strlit(" = ");
    reveal_strlit("\n\n");
    assert(is_plain_key("name"@));
    assert(is_plain_key("material"@));
    assert(is_plain_key("color"@));
    assert(is_plain_key("spool_grams"@));
    assert(is_plain_key("spool_price"@));
    lemma_setting_line("name"@, f.name);
    lemma_setting_line("material"@, f.material);
    lemma_setting_line("color"@, f.color);
    lemma_setting_line("spool_grams"@, f.spool_grams);
    lemma_setting_line("spool_price"@, f.spool_price);
    let fl = filament_lines(f);
    assert("name = "@ =~= "name"@ + " = "@);
    assert("material = "@ =~= "material"@ + " = "@);
    assert("color = "@ =~= "color"@ + " = "@);
    assert("spool_grams = "@ =~= "spool_grams"@ + " = "@);
    assert("spool_price = "@ =~= "spool_price"@ + " = "@);
    let s1 = setting_line("name"@, f.name);
    let s2 = setting_line("material"@, f.material);
    let s3 = setting_line("color"@, f.color);
    let s4 = setting_line("spool_grams"@, f.spool_grams);
    let s5 = setting_line("spool_price"@, f.spool_price);
    assert(fl =~= seq!["! Filament"@, s1, s2, s3, s4, s5]);
    assert forall|i: int, j: int| 0 <= i < fl.len() && 0 <= j < fl[i].len() implies #[trigger] fl[i][j]
        != '\n' by {
        if i == 1 {
            assert(fl[1] == s1);
        } else if i == 2 {
            assert(fl[2] == s2);
        } else if i == 3 {
            assert(fl[3] == s3);
        } else if i == 4 {
            assert(fl[4] == s4);
        } else if i == 5 {
            assert(fl[5] == s5);
        }
    }
    lemma_split_joined(fl);

    // The new text's lines: the old ones, a blank one, then the section.
    let e = Seq::<char>::empty();
    let j = join_lines(fl);
    assert("\n\n"@ =~= seq!['\n', '\n']);
    assert(raw + filament_block(f) =~= raw.push('\n') + (e.push('\n') + j));
    lemma_pieces_concat(raw, '\n', e.push('\n') + j, is_char('\n'));
    lemma_pieces_concat(e, '\n', j, is_char('\n'));
    let pr = pieces(raw, is_char('\n'));
    assert(pieces(raw + filament_block(f), is_char('\n')) == pr + (seq![e] + fl));

    // Cleaning them.
    lemma_clean_concat(pr, seq![e] + fl);
    lemma_clean_concat(seq![e], fl);
    assert(trimmed(e) == e);
    lemma_clean_none(seq![e]);
    lemma_trimmed_unchanged("! Filament"@);
    let t1 = trimmed(s1);
    let t2 = trimmed(s2);
    let t3 = trimmed(s3);
    let t4 = trimmed(s4);
    let t5 = trimmed(s5);
    assert forall|i: int| 0 <= i < fl.len() implies is_content(trimmed(#[trigger] fl[i])) by {
        if i == 0 {
            assert(fl[0] == "! Filament"@);
        }
    }
    lemma_clean_all(fl);
    let t = fl.map_values(|l: Seq<char>| trimmed(l));
    assert(t =~= seq!["! Filament"@, t1, t2, t3, t4, t5]);
    let c = cleaned_lines(raw);
    assert(cleaned_lines(raw + filament_block(f)) =~= c + t);

    // Cutting them into sections.
    let rest = seq![t1, t2, t3, t4, t5];
    assert(body(c + t) =~= body(c).push("! Filament"@) + rest);
    lemma_pieces_concat(body(c), "! Filament"@, rest, marker_pred());
    lemma_pieces_no_sep(rest, marker_pred());
    lemma_pieces_nonempty(body(c), marker_pred());
    let old_secs = sections(c);
    let new_secs = sections(c + t);
    assert(new_secs == old_secs + seq![rest]);
    assert(new_secs[0] == old_secs[0]);
    assert(new_secs.drop_first() =~= old_secs.drop_first().push(rest));
    assert(new_secs.drop_first().map_values(|b: Seq<Seq<char>>| filament_of(b)) =~= old_secs.drop_first().map_values(
        |b: Seq<Seq<char>>| filament_of(b),
    ).push(filament_of(rest)));

    // Reading the section back.
    assert("material"@.len() != "name"@.len());
    assert("color"@.len() != "name"@.len());
    assert("color"@.len() != "material"@.len());
    assert("spool_grams"@.len() != "name"@.len());
    assert("spool_grams"@.len() != "material"@.len());
    assert("spool_grams"@.len() != "color"@.len());
    assert("spool_price"@.len() != "name"@.len());
    assert("spool_price"@.len() != "material"@.len());
    assert("spool_price"@.len() != "color"@.len());
    assert("spool_price"@[6] != "spool_grams"@[6]);
    let q0 = Seq::<Seq<char>>::empty();
    let q1 = q0.push(t1);
    let q2 = q1.push(t2);
    let q3 = q2.push(t3);
    let q4 = q3.push(t4);
    assert(q1.drop_last() =~= q0);
    assert(q2.drop_last() =~= q1);
    assert(q3.drop_last() =~= q2);
    assert(q4.drop_last() =~= q3);
    assert(rest.drop_last() =~= q4);
    assert(filament_of(q0) == empty_filament());
    assert(q1.last() == t1);
    assert(filament_of(q1) == FilamentView { name: f.name, ..empty_filament() });
    assert(filament_of(q2) == FilamentView { name: f.name, material: f.material, ..empty_filament() });
    assert(filament_of(q3) == FilamentView {
        name: f.name,
        material: f.material,
        color: f.color,
        ..empty_filament()
    });
    assert(filament_of(q4) == FilamentView { spool_price: empty_filament().spool_price, ..f });
    assert(filament_of(rest) == f);
}

/// The file written when none exists reads as printer `Printer`, hourly fee
/// `0.5` and markup `3.0`, with no filaments.
pub proof fn lemma_default_config_reads_back()
    ensures
        config_of(join_lines(default_lines())).general == (GeneralView {
            printer_name: "Printer"@,
            hourly_fee: "0.5"@,
            markup: "3.0"@,
        }),
        config_of(join_lines(default_lines())).filaments.len() == 0,
{
    reveal_strlit("# 3d Print Calculator config");
    reveal_strlit(
        "# Do not edit configuration names and only edit values, a value of the wrong type is reported as an error",
    );
    reveal_strlit(
        "# Any lines starting with a \"!\" mark the beginning of a category, don't mess with or worry about these",
    );
    reveal_strlit("# Filament configurations are added via the main program");
    reveal_strlit("# Any line starting with a \"#\" is a commented line");
    reveal_strlit("");
    reveal_strlit("! General Config");
    reveal_strlit("printer_name = Printer");
    reveal_strlit("hourly_fee = 0.5");
    reveal_strlit("markup = 3.0");
    reveal_strlit("printer_name");
    reveal_strlit("hourly_fee");
    reveal_strlit("markup");
    reveal_strlit("Printer");
    reveal_strlit("0.5");
    reveal_strlit("3.0");
    reveal_strlit(" = ");
    let ls = default_lines();
    let g1 = setting_line("printer_name"@, "Printer"@);
    let g2 = setting_line("hourly_fee"@, "0.5"@);
    let g3 = setting_line("markup"@, "3.0"@);
    assert("printer_name = Printer"@ =~= g1);
    assert("hourly_fee = 0.5"@ =~= g2);
    assert("markup = 3.0"@ =~= g3);
    assert(is_plain_key("printer_name"@));
    assert(is_plain_key("hourly_fee"@));
    assert(is_plain_key("markup"@));
    assert(is_plain_value("Printer"@));
    assert(is_plain_value("0.5"@));
    assert(is_plain_value("3.0"@));
    lemma_setting_line("printer_name"@, "Printer"@);
    lemma_setting_line("hourly_fee"@, "0.5"@);
    lemma_setting_line("markup"@, "3.0"@);
    assert forall|i: int, j: int| 0 <= i < ls.len() && 0 <= j < ls[i].len() implies #[trigger] ls[i][j]
        != '\n' by {
        if i == 7 {
            assert(ls[7] == g1);
        } else if i == 8 {
            assert(ls[8] == g2);
        } else if i == 9 {
            assert(ls[9] == g3);
        }
    }
    lemma_split_joined(ls);

    let comments = ls.take(6);
    let rest = ls.skip(6);
    assert(ls =~= comments + rest);
    lemma_clean_concat(comments, rest);
    assert forall|i: int| 0 <= i < comments.len() implies !is_content(trimmed(#[trigger] comments[i])) by {
        lemma_trimmed_unchanged(comments[i]);
    }
    lemma_clean_none(comments);
    lemma_trimmed_unchanged("! General Config"@);
    assert forall|i: int| 0 <= i < rest.len() implies is_content(trimmed(#[trigger] rest[i])) by {
        if i == 0 {
            assert(rest[0] == "! General Config"@);
        } else if i == 1 {
            assert(rest[1] == g1);
        } else if i == 2 {
            assert(rest[2] == g2);
        } else {
            assert(rest[3] == g3);
        }
    }
    lemma_clean_all(rest);
    let u1 = trimmed(g1);
    let u2 = trimmed(g2);
    let u3 = trimmed(g3);
    let c = cleaned_lines(join_lines(ls));
    assert(c =~= seq!["! General Config"@, u1, u2, u3]);
    let b = seq![u1, u2, u3];
    assert(body(c) =~= b);
    lemma_pieces_no_sep(b, marker_pred());
    assert(sections(c) == seq![b]);
    assert(sections(c).drop_first().len() == 0);

    assert("hourly_fee"@.len() != "printer_name"@.len());
    assert("markup"@.len() != "printer_name"@.len());
    assert("markup"@.len() != "hourly_fee"@.len());
    let q0 = Seq::<Seq<char>>::empty();
    let q1 = q0.push(u1);
    let q2 = q1.push(u2);
    assert(q1.drop_last() =~= q0);
    assert(q2.drop_last() =~= q1);
    assert(b.drop_last() =~= q2);
    assert(general_of(q0) == empty_general());
    assert(q1.last() == u1);
    assert(general_of(q1).printer_name == "Printer"@);
    assert(general_of(q2).hourly_fee == "0.5"@);
    assert(general_of(q2).printer_name == "Printer"@);
    assert(general_of(b).markup == "3.0"@);
}

} // verus!
