//! The decisions of an interactive session: the main menu, picking a saved
//! filament, and the receipt that a priced job produces.
use vstd::prelude::*;
use crate::config::{filament_views, FilamentConfig, FilamentView};
use crate::text::{
    concat_all, has_prefix, is_char, lower_of, pieces, same_text, split_on, starts_with,
    to_lowercase, views,
};

verus! {

/// A choice of the main menu.
#[derive(PartialEq, Eq, Structural, Clone, Copy, Debug)]
pub enum Action {
    Create,
    Calc,
    Exit,
}

pub open spec fn action_of(input: Seq<char>) -> Option<Action> {
    if input == "create"@ {
        Some(Action::Create)
    } else if input == "calc"@ {
        Some(Action::Calc)
    } else if input == "exit"@ {
        Some(Action::Exit)
    } else {
        None
    }
}

/// Reads a main-menu answer; the words are matched exactly.
pub fn parse_action(input: &str) -> (r: Option<Action>)
    ensures
        r == action_of(input@),
{
    if same_text(input, "create") {
        Some(Action::Create)
    } else if same_text(input, "calc") {
        Some(Action::Calc)
    } else if same_text(input, "exit") {
        Some(Action::Exit)
    } else {
        None
    }
}

/// `i` is the first filament whose name starts with `prefix`.
pub open spec fn is_first_match(fs: Seq<FilamentView>, prefix: Seq<char>, i: int) -> bool {
    &&& 0 <= i < fs.len()
    &&& has_prefix(fs[i].name, prefix)
    &&& forall|j: int| 0 <= j < i ==> !has_prefix(#[trigger] fs[j].name, prefix)
}

pub open spec fn no_match(fs: Seq<FilamentView>, prefix: Seq<char>) -> bool {
    forall|j: int| 0 <= j < fs.len() ==> !has_prefix(#[trigger] fs[j].name, prefix)
}

/// The position of the first filament, in listed order, whose name starts
/// with `prefix`.
pub fn find_by_prefix(filaments: &Vec<FilamentConfig>, prefix: &str) -> (r: Option<usize>)
    ensures
        match r {
            Some(i) => is_first_match(filament_views(filaments@), prefix@, i as int),
            None => no_match(filament_views(filaments@), prefix@),
        },
{
    let ghost fs = filament_views(filaments@);
    let mut i: usize = 0;
    while i < filaments.len()
        invariant
            fs == filament_views(filaments@),
            i <= filaments.len(),
            forall|j: int| 0 <= j < i ==> !has_prefix(#[trigger] fs[j].name, prefix@),
        decreases filaments.len() - i,
    {
        assert(fs[i as int] == filaments@[i as int]@);
        if starts_with(filaments[i].name.as_str(), prefix) {
            return Some(i);
        }
        i = i + 1;
    }
    None
}

/// What an answer to the filament prompt asks for.
#[derive(PartialEq, Eq, Structural, Clone, Copy, Debug)]
pub enum Choice {
    /// The saved filament at this position.
    Saved(usize),
    /// Values typed in by hand.
    Manual,
    /// Back to the main menu.
    Back,
    /// Not understood; ask again.
    Invalid,
}

/// Decides an answer to the filament prompt. A saved name that starts with
/// the answer wins over the letters for typing values in and for going back.
pub fn choose_filament(filaments: &Vec<FilamentConfig>, input: &str) -> (r: Choice)
    ensures
        match r {
            Choice::Saved(i) => is_first_match(filament_views(filaments@), input@, i as int),
            Choice::Manual => no_match(filament_views(filaments@), input@) && input@ == "m"@,
            Choice::Back => no_match(filament_views(filaments@), input@) && input@ == "e"@,
            Choice::Invalid => no_match(filament_views(filaments@), input@) && input@ != "m"@
                && input@ != "e"@,
        },
{
    match find_by_prefix(filaments, input) {
        Some(i) => Choice::Saved(i),
        None => if same_text(input, "m") {
            Choice::Manual
        } else if same_text(input, "e") {
            Choice::Back
        } else {
            Choice::Invalid
        },
    }
}

/// Whether an answer to the receipt question is yes.
pub fn wants_receipt(input: &str) -> (r: bool)
    ensures
        r == (input@ == "y"@),
{
    same_text(input, "y")
}

/// `s` with every space removed.
pub open spec fn without_spaces(s: Seq<char>) -> Seq<char> {
    concat_all(pieces(s, is_char(' ')))
}

/// The receipt's file name for an already lowercased customer name: the name
/// without spaces, then `RECEIPT`.
pub fn receipt_name_from_lowered(lowered: &str) -> (r: String)
    ensures
        r@ == without_spaces(lowered@) + "RECEIPT"@,
{
    let ps = split_on(lowered, ' ');
    let ghost vs = views(ps@);
    let mut r = String::new();
    let mut i: usize = 0;
    assert(vs.take(0) =~= Seq::<Seq<char>>::empty());
    while i < ps.len()
        invariant
            vs == views(ps@),
            i <= ps.len(),
            r@ == concat_all(vs.take(i as int)),
        decreases ps.len() - i,
    {
        assert(vs.take(i + 1).drop_last() == vs.take(i as int));
        assert(vs.take(i + 1).last() == ps@[i as int]@);
        r.append(ps[i].as_str());
        i = i + 1;
    }
    assert(vs.take(ps.len() as int) == vs);
    r.append("RECEIPT");
    r
}

/// The receipt's file name for a customer: the lowercased name without
/// spaces, then `RECEIPT`.
pub fn receipt_file_name(customer: &str) -> (r: String)
    ensures
        r@ == without_spaces(lower_of(customer@)) + "RECEIPT"@,
{
    let lowered = to_lowercase(customer);
    receipt_name_from_lowered(lowered.as_str())
}

pub open spec fn receipt_of(
    customer: Seq<char>,
    price: Seq<char>,
    printer: Seq<char>,
    f: FilamentView,
) -> Seq<char> {
    customer + "'s receipt\nPrice: $"@ + price + "\nPrinter: "@ + printer + "\nFilament: "@
        + f.name + "\n\tMaterial: "@ + f.material + "\n\tColor: "@ + f.color
}

/// The text of a receipt; `price` is the price as it is to be shown.
pub fn receipt_text(customer: &str, price: &str, printer: &str, filament: &FilamentConfig) -> (r:
    String)
    ensures
        r@ == receipt_of(customer@, price@, printer@, filament@),
{
    let mut r = String::from_str(customer);
    r.append("'s receipt\nPrice: $");
    r.append(price);
    r.append("\nPrinter: ");
    r.append(printer);
    r.append("\nFilament: ");
    r.append(filament.name.as_str());
    r.append("\n\tMaterial: ");
    r.append(filament.material.as_str());
    r.append("\n\tColor: ");
    r.append(filament.color.as_str());
    r
}

} // verus!
