use print_calc::config::{drain_for_parse, parse_config, FilamentConfig};
use print_calc::store::{append_filament, default_config_text, filament_block_text};

fn filament(name: &str, material: &str, color: &str, grams: &str, price: &str) -> FilamentConfig {
    FilamentConfig {
        name: name.to_string(),
        material: material.to_string(),
        color: color.to_string(),
        spool_grams: grams.to_string(),
        spool_price: price.to_string(),
    }
}

#[test]
fn parses_general_and_filaments_in_order() {
    let raw = "# comment\n! General Config\nprinter_name = Ender\nhourly_fee = 1.5\nmarkup = 2\n\n! Filament\nname = Red PLA\nmaterial = PLA\ncolor = red\nspool_grams = 1000\nspool_price = 20\n! Filament\nname = Black PETG\nmaterial = PETG\ncolor = black\nspool_grams = 750\nspool_price = 25.5";
    let c = parse_config(raw);
    assert_eq!(c.general.printer_name, "Ender");
    assert_eq!(c.general.hourly_fee, "1.5");
    assert_eq!(c.general.markup, "2");
    assert_eq!(c.filaments.len(), 2);
    assert_eq!(c.filaments[0].name, "Red PLA");
    assert_eq!(c.filaments[0].material, "PLA");
    assert_eq!(c.filaments[0].color, "red");
    assert_eq!(c.filaments[0].spool_grams, "1000");
    assert_eq!(c.filaments[0].spool_price, "20");
    assert_eq!(c.filaments[1].name, "Black PETG");
    assert_eq!(c.filaments[1].spool_price, "25.5");
}

#[test]
fn general_only_file_has_no_filaments() {
    let c = parse_config("! General Config\nprinter_name = P\nhourly_fee = 0.5\nmarkup = 3.0\n");
    assert_eq!(c.general.printer_name, "P");
    assert!(c.filaments.is_empty());
}

#[test]
fn missing_keys_keep_defaults_and_unknown_keys_are_ignored() {
    let c = parse_config("! General Config\nprinter_name = P\nvolume = 9\n! Filament\nname = X\nnoise");
    assert_eq!(c.general.hourly_fee, "0");
    assert_eq!(c.general.markup, "0");
    assert_eq!(c.filaments.len(), 1);
    assert_eq!(c.filaments[0].name, "X");
    assert_eq!(c.filaments[0].material, "");
    assert_eq!(c.filaments[0].spool_grams, "0");
}

#[test]
fn values_are_trimmed_and_comments_skipped() {
    let c = parse_config("  ! General Config  \r\n\t printer_name\t=   My Printer \r\n   # markup = 9\nmarkup=4");
    assert_eq!(c.general.printer_name, "My Printer");
    assert_eq!(c.general.markup, "4");
}

#[test]
fn value_ends_at_a_second_equals_sign() {
    let c = parse_config("! General Config\nprinter_name = a = b");
    assert_eq!(c.general.printer_name, "a");
}

#[test]
fn later_setting_wins() {
    let c = parse_config("! General Config\nmarkup = 1\nmarkup = 2");
    assert_eq!(c.general.markup, "2");
}

#[test]
fn empty_marker_sections_count() {
    let c = parse_config("! General Config\nprinter_name = P\n! Filament\n! Filament\nname = B\n! Filament");
    assert_eq!(c.filaments.len(), 3);
    assert_eq!(c.filaments[0].name, "");
    assert_eq!(c.filaments[1].name, "B");
    assert_eq!(c.filaments[2].name, "");
}

#[test]
fn empty_text_parses_to_defaults() {
    let c = parse_config("");
    assert_eq!(c.general.printer_name, "");
    assert_eq!(c.general.hourly_fee, "0");
    assert!(c.filaments.is_empty());
}

#[test]
fn default_file_parses_to_documented_values() {
    let text = default_config_text();
    assert!(text.starts_with("# 3d Print Calculator config\n"));
    let c = parse_config(&text);
    assert_eq!(c.general.printer_name, "Printer");
    assert_eq!(c.general.hourly_fee, "0.5");
    assert_eq!(c.general.markup, "3.0");
    assert!(c.filaments.is_empty());
}

#[test]
fn filament_block_layout() {
    let f = filament("Red", "PLA", "red", "1000", "20");
    assert_eq!(
        filament_block_text(&f),
        "\n\n! Filament\nname = Red\nmaterial = PLA\ncolor = red\nspool_grams = 1000\nspool_price = 20"
    );
}

#[test]
fn appended_filament_is_read_back() {
    let f = filament("Silk Gold", "PLA+", "gold", "750", "22.99");
    let raw = default_config_text();
    let once = append_filament(&raw, &f);
    let c = parse_config(&once);
    assert_eq!(c.general.printer_name, "Printer");
    assert_eq!(c.filaments.len(), 1);
    assert_eq!(c.filaments[0].name, "Silk Gold");
    assert_eq!(c.filaments[0].material, "PLA+");
    assert_eq!(c.filaments[0].color, "gold");
    assert_eq!(c.filaments[0].spool_grams, "750");
    assert_eq!(c.filaments[0].spool_price, "22.99");
    let g = filament("", "ABS", "", "1", "2");
    let twice = append_filament(&once, &g);
    let c = parse_config(&twice);
    assert_eq!(c.filaments.len(), 2);
    assert_eq!(c.filaments[0].name, "Silk Gold");
    assert_eq!(c.filaments[1].name, "");
    assert_eq!(c.filaments[1].material, "ABS");
}

fn lines(v: &[&str]) -> Vec<String> {
    v.iter().map(|s| s.to_string()).collect()
}

#[test]
fn drain_removes_through_first_marker() {
    let mut v = lines(&["a = 1", "b = 2", "! Filament", "name = x", "! Filament"]);
    drain_for_parse(&mut v);
    assert_eq!(v, lines(&["name = x", "! Filament"]));
    drain_for_parse(&mut v);
    assert!(v.is_empty());
    let mut w = lines(&["! Filament", "name = y"]);
    drain_for_parse(&mut w);
    assert_eq!(w, lines(&["name = y"]));
}

#[test]
fn drain_without_marker_removes_all() {
    let mut v = lines(&["a = 1", "b = 2"]);
    drain_for_parse(&mut v);
    assert!(v.is_empty());
    drain_for_parse(&mut v);
    assert!(v.is_empty());
}

#[test]
fn general_block_without_header_line() {
    let c = parse_config("printer_name = Bare\nmarkup = 2\n! Filament\nname = A");
    assert_eq!(c.general.printer_name, "Bare");
    assert_eq!(c.general.markup, "2");
    assert_eq!(c.filaments.len(), 1);
    assert_eq!(c.filaments[0].name, "A");
}

#[test]
fn unicode_white_space_is_trimmed() {
    let c = parse_config("! General Config\nmarkup =\u{a0}4\u{3000}\n\u{2003}printer_name = Z");
    assert_eq!(c.general.markup, "4");
    assert_eq!(c.general.printer_name, "Z");
}
