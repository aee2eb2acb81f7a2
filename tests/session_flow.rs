use print_calc::config::FilamentConfig;
use print_calc::session::{
    choose_filament, find_by_prefix, parse_action, receipt_file_name, receipt_name_from_lowered,
    receipt_text, wants_receipt, Action, Choice,
};

fn named(name: &str) -> FilamentConfig {
    FilamentConfig {
        name: name.to_string(),
        material: "PLA".to_string(),
        color: "white".to_string(),
        spool_grams: "1000".to_string(),
        spool_price: "20".to_string(),
    }
}

#[test]
fn menu_words_are_exact() {
    assert_eq!(parse_action("create"), Some(Action::Create));
    assert_eq!(parse_action("calc"), Some(Action::Calc));
    assert_eq!(parse_action("exit"), Some(Action::Exit));
    assert_eq!(parse_action("Calc"), None);
    assert_eq!(parse_action("calculate"), None);
    assert_eq!(parse_action(""), None);
}

#[test]
fn prefix_picks_first_listed_match() {
    let fs = vec![named("PLA White"), named("PETG Black"), named("PLA Red")];
    assert_eq!(find_by_prefix(&fs, "PLA"), Some(0));
    assert_eq!(find_by_prefix(&fs, "PLA R"), Some(2));
    assert_eq!(find_by_prefix(&fs, "P"), Some(0));
    assert_eq!(find_by_prefix(&fs, "PE"), Some(1));
    assert_eq!(find_by_prefix(&fs, "ABS"), None);
    assert_eq!(find_by_prefix(&fs, ""), Some(0));
    assert_eq!(find_by_prefix(&Vec::new(), "PLA"), None);
}

#[test]
fn choice_prefers_saved_names() {
    let fs = vec![named("matte black"), named("PLA")];
    assert_eq!(choose_filament(&fs, "m"), Choice::Saved(0));
    assert_eq!(choose_filament(&fs, "PL"), Choice::Saved(1));
    assert_eq!(choose_filament(&fs, "e"), Choice::Back);
    assert_eq!(choose_filament(&fs, "zzz"), Choice::Invalid);
    let none: Vec<FilamentConfig> = Vec::new();
    assert_eq!(choose_filament(&none, "m"), Choice::Manual);
    assert_eq!(choose_filament(&none, "e"), Choice::Back);
    assert_eq!(choose_filament(&none, ""), Choice::Invalid);
}

#[test]
fn receipt_answer() {
    assert!(wants_receipt("y"));
    assert!(!wants_receipt("Y"));
    assert!(!wants_receipt("n"));
    assert!(!wants_receipt(""));
}

#[test]
fn receipt_name_lowercases_and_drops_spaces() {
    assert_eq!(receipt_file_name("John Smith"), "johnsmithRECEIPT");
    assert_eq!(receipt_file_name(" A  B "), "abRECEIPT");
    assert_eq!(receipt_file_name(""), "RECEIPT");
    assert_eq!(receipt_name_from_lowered("ann lee"), "annleeRECEIPT");
}

#[test]
fn receipt_layout() {
    let f = named("Gold");
    assert_eq!(
        receipt_text("Ann", "12.5", "Ender", &f),
        "Ann's receipt\nPrice: $12.5\nPrinter: Ender\nFilament: Gold\n\tMaterial: PLA\n\tColor: white"
    );
}
