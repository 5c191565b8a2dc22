use pgm::artifact::{file_stem, has_sql_extension, name_le, sort_sql_files, SourceFile};
use pgm::create::{
    confirms, create_function, create_migration, create_seed, create_trigger, create_view,
    fill_template, is_white_space_char, next_file_name, trim_answer,
};
use pgm::numbers::{decimal_text, padded_text, parse_number, signed_text};

fn names(list: &[&str]) -> Vec<String> {
    list.iter().map(|s| s.to_string()).collect()
}

#[test]
fn next_name_is_one_more_than_the_greatest() {
    assert_eq!(next_file_name(&names(&[])), Some("00001.sql".to_string()));
    assert_eq!(next_file_name(&names(&["00000.sql"])), Some("00001.sql".to_string()));
    assert_eq!(
        next_file_name(&names(&["00002.sql", "00010.sql", "00009.sql"])),
        Some("00011.sql".to_string())
    );
    assert_eq!(next_file_name(&names(&["00041.sql", "README.md"])), Some("00042.sql".to_string()));
    assert_eq!(
        next_file_name(&names(&["99999.sql", "100000.sql"])),
        Some("100001.sql".to_string())
    );
    assert_eq!(next_file_name(&names(&["README.md", ".keep"])), Some("00001.sql".to_string()));
    assert_eq!(next_file_name(&names(&["99999.sql"])), Some("100000.sql".to_string()));
    assert_eq!(next_file_name(&names(&["00007.down.sql"])), Some("00008.sql".to_string()));
    assert_eq!(next_file_name(&names(&["-0005.sql"])), Some("00001.sql".to_string()));
    assert_eq!(next_file_name(&names(&["2147483647.sql"])), None);
    assert_eq!(next_file_name(&names(&["2147483648.sql"])), Some("00001.sql".to_string()));
}

#[test]
fn new_migration_and_seed_are_empty_files() {
    assert_eq!(
        create_migration(&names(&["00000.sql", "00001.sql"])),
        Some(SourceFile::new("00002.sql", ""))
    );
    assert_eq!(create_seed(&names(&[])), Some(SourceFile::new("00001.sql", "")));
    assert_eq!(create_migration(&names(&["2147483647.sql"])), None);
    assert_eq!(create_seed(&names(&["2147483647"])), None);
}

#[test]
fn numbers_are_read_as_32_bit_integers() {
    assert_eq!(parse_number("00012"), Some(12));
    assert_eq!(parse_number("+7"), Some(7));
    assert_eq!(parse_number("-7"), Some(-7));
    assert_eq!(parse_number("0"), Some(0));
    assert_eq!(parse_number("2147483647"), Some(i32::MAX));
    assert_eq!(parse_number("-2147483648"), Some(i32::MIN));
    assert_eq!(parse_number("2147483648"), None);
    assert_eq!(parse_number("-2147483649"), None);
    assert_eq!(parse_number("00000000000000000000000000000000000000001"), Some(1));
    assert_eq!(parse_number("99999999999999999999999999999999999999999"), None);
    assert_eq!(parse_number(""), None);
    assert_eq!(parse_number("+"), None);
    assert_eq!(parse_number("-"), None);
    assert_eq!(parse_number("12a"), None);
    assert_eq!(parse_number(" 12"), None);
    assert_eq!(parse_number("１２"), None);
}

#[test]
fn numbers_are_written_in_decimal() {
    assert_eq!(decimal_text(0), "0");
    assert_eq!(decimal_text(9), "9");
    assert_eq!(decimal_text(10), "10");
    assert_eq!(decimal_text(18446744073709551615), "18446744073709551615");
    assert_eq!(padded_text(1), "00001");
    assert_eq!(padded_text(0), "00000");
    assert_eq!(padded_text(12345), "12345");
    assert_eq!(padded_text(123456), "123456");
    assert_eq!(padded_text(-4), "-0004");
    assert_eq!(padded_text(-12345), "-12345");
    assert_eq!(padded_text(i32::MIN), "-2147483648");
    assert_eq!(signed_text(-1), "-1");
    assert_eq!(signed_text(0), "0");
    assert_eq!(signed_text(i32::MAX), "2147483647");
    assert_eq!(signed_text(i32::MIN), "-2147483648");
}

#[test]
fn template_takes_the_name_at_every_placeholder() {
    assert_eq!(
        fill_template(
            "CREATE FUNCTION <name_placeholder>() -- <name_placeholder>\n<name_placeholde>",
            "total"
        ),
        "CREATE FUNCTION total() -- total\n<name_placeholde>"
    );
    assert_eq!(fill_template("", "x"), "");
    assert_eq!(fill_template("<name_placeholder>", ""), "");
    assert_eq!(fill_template("<<name_placeholder>>", "<name_placeholder>"), "<<name_placeholder>>");
    assert_eq!(fill_template("no place", "x"), "no place");
}

#[test]
fn existing_object_is_reset_only_on_yes() {
    assert!(confirms("y"));
    assert!(confirms(" Y\n"));
    assert!(!confirms(""));
    assert!(!confirms("yes"));
    assert!(!confirms("n"));
    let file = Some(SourceFile::new("f.sql", "-- f"));
    assert_eq!(create_function("f", "-- <name_placeholder>", None), file);
    assert_eq!(create_function("f", "-- <name_placeholder>", Some("y\n")), file);
    assert_eq!(create_function("f", "-- <name_placeholder>", Some("\n")), None);
    assert_eq!(create_trigger("f", "-- <name_placeholder>", Some("N")), None);
    assert_eq!(create_trigger("f", "-- <name_placeholder>", None), file);
    assert_eq!(create_view("f", "-- <name_placeholder>", Some("Y")), file);
    assert_eq!(create_view("f", "-- <name_placeholder>", Some("no")), None);
}

#[test]
fn answer_is_read_without_the_white_space_around_it() {
    assert!(confirms("y\u{b}"));
    assert!(confirms("y\u{a0}\n"));
    assert!(confirms("\u{3000}Y\u{85}"));
    assert!(confirms("\u{1680}\u{2000}\u{200a} y \u{2028}\u{2029}\u{202f}\u{205f}\r\n"));
    assert!(!confirms("y\u{200b}"));
    assert!(!confirms("\u{feff}y"));
    assert!(!confirms("y y"));
    assert!(!confirms("\u{a0}"));
    let file = Some(SourceFile::new("v.sql", "t"));
    assert_eq!(create_view("v", "t", Some("y\u{b}")), file);
    assert_eq!(create_function("v", "t", Some("\u{2003}Y\u{a0}\n")), file);
    assert_eq!(create_trigger("v", "t", Some("y\u{3000}")), file);
    assert_eq!(create_trigger("v", "t", Some("y\u{1c}")), None);
    assert_eq!(trim_answer(" \u{a0}a b\u{85}\t"), vec!['a', ' ', 'b']);
    assert_eq!(trim_answer("\u{2028}"), Vec::<char>::new());
    assert_eq!(trim_answer(""), Vec::<char>::new());
}

#[test]
fn white_space_is_what_the_standard_library_trims() {
    let mut count: u32 = 0;
    for code in 0..=0x10ffff_u32 {
        if let Some(c) = char::from_u32(code) {
            assert_eq!(is_white_space_char(c), c.is_whitespace(), "U+{:04X}", code);
            if is_white_space_char(c) {
                count += 1;
                let answer: String = [c, 'y', c].iter().collect();
                assert!(confirms(&answer), "U+{:04X}", code);
                assert_eq!(answer.trim(), "y");
            }
        }
    }
    assert_eq!(count, 25);
}

#[test]
fn artifact_files_are_named_by_stem_and_extension() {
    assert!(has_sql_extension("a.sql"));
    assert!(has_sql_extension("..sql"));
    assert!(!has_sql_extension(".sql"));
    assert!(!has_sql_extension("a.SQL"));
    assert!(!has_sql_extension("a.sql.bak"));
    assert!(!has_sql_extension("sql"));
    assert_eq!(file_stem("00001.sql"), "00001");
    assert_eq!(file_stem("a.b.sql"), "a.b");
    assert_eq!(file_stem(".sql"), ".sql");
    assert_eq!(file_stem("readme"), "readme");
}

#[test]
fn names_are_ordered_character_by_character() {
    assert!(name_le("", ""));
    assert!(name_le("", "a"));
    assert!(!name_le("a", ""));
    assert!(name_le("00009.sql", "00010.sql"));
    assert!(!name_le("9.sql", "10.sql"));
    assert!(name_le("a", "ab"));
    assert!(name_le("Z", "a"));
    assert!(name_le("z", "é"));
    let sorted = sort_sql_files(&vec![
        SourceFile::new("b.sql", "1"),
        SourceFile::new("a.sql", "2"),
        SourceFile::new("b.sql", "3"),
        SourceFile::new("a.txt", "4"),
        SourceFile::new("B.sql", "5"),
    ]);
    let order: Vec<(&str, &str)> =
        sorted.iter().map(|f| (f.file_name.as_str(), f.content.as_str())).collect();
    assert_eq!(order, vec![("B.sql", "5"), ("a.sql", "2"), ("b.sql", "1"), ("b.sql", "3")]);
}
