use episode_matcher::rename::find_unique_filename;
use episode_matcher::rename::generate_filename;
use episode_matcher::rename::interpret_confirmation;
use episode_matcher::rename::sanitize_filename;
use episode_matcher::text::u64_to_dec;
use episode_matcher::text::u64_to_dec_pad2;

#[test]
fn test_sanitize_filename() {
    assert_eq!(sanitize_filename("Normal Name"), "Normal Name");
    assert_eq!(sanitize_filename("Name/With/Slashes"), "Name-With-Slashes");
    assert_eq!(
        sanitize_filename("Name\\With\\Backslashes"),
        "Name-With-Backslashes"
    );
    assert_eq!(sanitize_filename("Name:With:Colons"), "Name-With-Colons");
    assert_eq!(sanitize_filename("Name*With*Stars"), "Name-With-Stars");
    assert_eq!(
        sanitize_filename("Name?With?Questions"),
        "Name-With-Questions"
    );
    assert_eq!(sanitize_filename("Name\"With\"Quotes"), "Name-With-Quotes");
    assert_eq!(sanitize_filename("Name<With<Less"), "Name-With-Less");
    assert_eq!(sanitize_filename("Name>With>Greater"), "Name-With-Greater");
    assert_eq!(sanitize_filename("Name|With|Pipes"), "Name-With-Pipes");
    assert_eq!(sanitize_filename("  Trim Me  "), "Trim Me");
}

#[test]
fn test_generate_filename() {
    assert_eq!(
        generate_filename("Show Name", 1, 1, "Episode Name"),
        "Show Name - S01E01 - Episode Name.mkv"
    );
    assert_eq!(
        generate_filename("Show: Name", 2, 15, "Ep/isode?"),
        "Show- Name - S02E15 - Ep-isode-.mkv"
    );
}

#[test]
fn test_find_unique_filename_no_conflict() {
    let existing: Vec<String> = Vec::new();
    let base_filename = "Show - S01E01 - Episode.mkv";

    let unique = find_unique_filename("original.mkv", &existing, base_filename);
    assert_eq!(unique, base_filename);
}

#[test]
fn test_find_unique_filename_with_conflict() {
    let base_filename = "Show - S01E01 - Episode.mkv";

    let existing = vec![base_filename.to_string()];
    let unique = find_unique_filename("original.mkv", &existing, base_filename);
    assert_eq!(unique, "Show - S01E01 - Episode [copy 1].mkv");

    let existing = vec![
        base_filename.to_string(),
        "Show - S01E01 - Episode [copy 1].mkv".to_string(),
    ];
    let unique_2 = find_unique_filename("original.mkv", &existing, base_filename);
    assert_eq!(unique_2, "Show - S01E01 - Episode [copy 2].mkv");
}

#[test]
fn test_find_unique_filename_same_file() {
    // The candidate already names the very file being renamed: the rename
    // is a no-op, so the candidate comes back unchanged even though it is
    // present in the directory.
    let filename = "Show - S01E01 - Episode.mkv";
    let existing = vec![filename.to_string()];

    let unique = find_unique_filename(filename, &existing, filename);
    assert_eq!(unique, filename);
}

#[test]
fn test_find_unique_filename_skips_old_name_collision() {
    // The base name is taken, the first copy name is the file itself:
    // that copy name is therefore usable.
    let base_filename = "Show - S01E01 - Episode.mkv";
    let existing = vec![
        base_filename.to_string(),
        "Show - S01E01 - Episode [copy 1].mkv".to_string(),
    ];
    let unique = find_unique_filename(
        "Show - S01E01 - Episode [copy 1].mkv",
        &existing,
        base_filename,
    );
    assert_eq!(unique, "Show - S01E01 - Episode [copy 1].mkv");
}

#[test]
fn test_interpret_confirmation_accepts() {
    assert_eq!(interpret_confirmation("y"), Some(true));
    assert_eq!(interpret_confirmation("yes"), Some(true));
    assert_eq!(interpret_confirmation("  YES  "), Some(true));
    assert_eq!(interpret_confirmation("Y"), Some(true));
}

#[test]
fn test_interpret_confirmation_declines() {
    assert_eq!(interpret_confirmation("n"), Some(false));
    assert_eq!(interpret_confirmation("no"), Some(false));
    assert_eq!(interpret_confirmation(""), Some(false));
    assert_eq!(interpret_confirmation("   "), Some(false));
}

#[test]
fn test_interpret_confirmation_reprompts() {
    assert_eq!(interpret_confirmation("maybe"), None);
    assert_eq!(interpret_confirmation("yep"), None);
}

#[test]
fn test_decimal_formatting() {
    assert_eq!(u64_to_dec(0), "0");
    assert_eq!(u64_to_dec(7), "7");
    assert_eq!(u64_to_dec(10), "10");
    assert_eq!(u64_to_dec(4093), "4093");
    assert_eq!(u64_to_dec_pad2(0), "00");
    assert_eq!(u64_to_dec_pad2(9), "09");
    assert_eq!(u64_to_dec_pad2(10), "10");
    assert_eq!(u64_to_dec_pad2(123), "123");
}
