use pyproject_toml::pep639_glob::{check_pep639_glob, parse_pep639_glob, Pep639GlobError};

#[test]
fn test_error() {
    let parse_err = |glob| parse_pep639_glob(glob).unwrap_err().message();
    assert_eq!(
        parse_err(".."),
        "The parent directory operator (`..`) at position 0 is not allowed in glob: `..`"
    );
    assert_eq!(
        parse_err("licenses/.."),
        "The parent directory operator (`..`) at position 9 is not allowed in glob: `licenses/..`"
    );
    assert_eq!(
        parse_err("licenses/LICEN!E.txt"),
        "Invalid character `!` at position 14 in glob: `licenses/LICEN!E.txt`"
    );
    assert_eq!(
        parse_err("licenses/LICEN[!C]E.txt"),
        "Invalid character `!` in range at position 15 in glob: `licenses/LICEN[!C]E.txt`"
    );
    assert_eq!(
        parse_err("licenses/LICEN[C?]E.txt"),
        "Invalid character `?` in range at position 16 in glob: `licenses/LICEN[C?]E.txt`"
    );
    assert_eq!(
        parse_err("******"),
        "Too many at stars at position 0 in glob: `******`"
    );
    assert_eq!(
        parse_err("licenses/**license"),
        "Too many at stars at position 9 in glob: `licenses/**license`"
    );
    assert_eq!(
        parse_err("licenses/***/licenses.csv"),
        "Too many at stars at position 9 in glob: `licenses/***/licenses.csv`"
    );
    assert_eq!(
        parse_err(r"licenses\eula.txt"),
        r"Only forward slashes are allowed as path separator, invalid character at position 8 in glob: `licenses\eula.txt`"
    );
    assert_eq!(
        parse_err(r"**/@test"),
        "Invalid character `@` at position 3 in glob: `**/@test`"
    );
    // Backslashes are not allowed
    assert_eq!(
        parse_err(r"public domain/Gulliver\\'s Travels.txt"),
        r"Invalid character ` ` at position 6 in glob: `public domain/Gulliver\\'s Travels.txt`"
    );
}

#[test]
fn test_valid() {
    let cases = [
        "licenses/*.txt",
        "licenses/**/*.txt",
        "LICEN[CS]E.txt",
        "LICEN?E.txt",
        "[a-z].txt",
        "[a-z._-].txt",
        "*/**",
        "LICENSE..txt",
        "LICENSE_file-1.txt",
        // (google translate)
        "licenses/라이센스*.txt",
        "licenses/ライセンス*.txt",
        "licenses/执照*.txt",
        "src/**",
    ];
    for case in cases {
        parse_pep639_glob(case).unwrap();
    }
}

#[test]
fn unterminated_range_passes_validation_but_not_compilation() {
    // The PEP 639 scan accepts an unterminated range, `glob` rejects it.
    assert!(check_pep639_glob("[a-z").is_ok());
    let err = parse_pep639_glob("[a-z").unwrap_err();
    assert!(matches!(err, Pep639GlobError::PatternError { .. }));
}

#[test]
fn large_positions_render_in_decimal() {
    let long = format!("{}!", "a".repeat(120));
    let err = check_pep639_glob(&long).unwrap_err();
    assert_eq!(
        err.message(),
        format!("Invalid character `!` at position 120 in glob: `{long}`")
    );
}
