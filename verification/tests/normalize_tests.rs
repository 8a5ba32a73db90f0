use fnorm::normalize;
use fnorm::normalize::cleanup_hyphens;
use fnorm::normalize::normalize_base;
use fnorm::normalize::split_extension;
use fnorm::normalize_with_config;
use fnorm::NormalizationConfig;

#[test]
fn test_empty_string() {
    assert_eq!(normalize(""), "");
}

#[test]
fn test_basic_normalization() {
    assert_eq!(normalize("My File.txt"), "my-file.txt");
    assert_eq!(normalize("Another-File.DOC"), "another-file.doc");
}

#[test]
fn test_spaces_to_hyphens() {
    assert_eq!(normalize("File With Spaces.txt"), "file-with-spaces.txt");
}

#[test]
fn test_examples_from_spec() {
    assert_eq!(normalize("My Document.PDF"), "my-document.pdf");
    assert_eq!(normalize("File & Video.mov"), "file-and-video.mov");
    assert_eq!(normalize("tcp/udp guide.md"), "tcp-or-udp-guide.md");
    assert_eq!(normalize("café menu.txt"), "cafe-menu.txt");
    assert_eq!(normalize("rock'n'roll.txt"), "rock-n-roll.txt");
    assert_eq!(normalize("Résumé"), "resume");
    assert_eq!(normalize(".Hidden File"), ".hidden file"); // Known limitation
}

#[test]
fn test_special_tokens() {
    assert_eq!(normalize("path/to/file.txt"), "path-or-to-or-file.txt");
    assert_eq!(normalize("Ben & Jerry.txt"), "ben-and-jerry.txt");
    assert_eq!(normalize("user@domain.txt"), "user-at-domain.txt");
    assert_eq!(normalize("50% off.txt"), "50-percent-off.txt");
}

#[test]
fn test_transliteration() {
    assert_eq!(normalize("naïve.txt"), "naive.txt");
    assert_eq!(normalize("résumé.pdf"), "resume.pdf");
    assert_eq!(normalize("Björk.mp3"), "bjork.mp3");
    assert_eq!(normalize("façade.jpg"), "facade.jpg");
    assert_eq!(normalize("piñata.txt"), "pinata.txt");
    assert_eq!(normalize("café.txt"), "cafe.txt");
    assert_eq!(normalize("tête-à-tête.txt"), "tete-a-tete.txt");
}

#[test]
fn test_unicode_dashes_and_quotes() {
    // En-dash and em-dash
    assert_eq!(normalize("file–name.txt"), "file-name.txt");
    assert_eq!(normalize("file—name.txt"), "file-name.txt");

    // Curly quotes (using unicode escape sequences)
    assert_eq!(normalize("file\u{2018}name\u{2019}.txt"), "file-name-.txt");
    assert_eq!(normalize("file\u{201C}name\u{201D}.txt"), "file-name-.txt");
}

#[test]
fn test_forbidden_characters() {
    assert_eq!(
        normalize("file#with$special%chars.txt"),
        "file-with-special-percent-chars.txt"
    );
    assert_eq!(
        normalize("file(with)brackets[].txt"),
        "file-with-brackets-.txt"
    );
    assert_eq!(
        normalize("file\\with/slashes.txt"),
        "file-with-or-slashes.txt"
    );
}

#[test]
fn test_custom_config_overrides() {
    let config = NormalizationConfig::from_toml_str(
        r#"
            [special_tokens]
            "&" = "-plus-"

            [transliterations]
            "ø" = "oe"

            [options]
            lowercase = false
            lowercase_extension = false
            "#,
    )
    .expect("config should parse");

    assert_eq!(
        normalize_with_config("Mix&Match.FILE", &config),
        "Mix-plus-Match.FILE"
    );
    // The override replaces the built-in entry for this character, so
    // both occurrences map through it.
    assert_eq!(
        normalize_with_config("Smørbrød.txt", &config),
        "Smoerbroed.txt"
    );
}

#[test]
fn test_hyphen_cleanup() {
    assert_eq!(
        normalize("file---with--multiple-hyphens.txt"),
        "file-with-multiple-hyphens.txt"
    );
    assert_eq!(normalize("--leading-hyphens.txt"), "leading-hyphens.txt");
    assert_eq!(normalize("multiple   spaces.txt"), "multiple-spaces.txt");
}

#[test]
fn test_edge_cases() {
    // Empty string
    assert_eq!(normalize(""), "");

    // No extension
    assert_eq!(normalize("filename"), "filename");

    // Only extension
    assert_eq!(normalize(".txt"), ".txt");

    // Hidden file (entire name treated as extension)
    assert_eq!(normalize(".hidden"), ".hidden");
    assert_eq!(normalize(".bashrc"), ".bashrc");

    // Trailing dot (no extension)
    assert_eq!(normalize("filename."), "filename");

    // Already normalized
    assert_eq!(
        normalize("already-normalized.txt"),
        "already-normalized.txt"
    );

    // Whitespace and dots
    assert_eq!(normalize("  .file name. "), "file-name");
    assert_eq!(normalize("...dotted..."), "dotted");
}

#[test]
fn test_extension_handling() {
    assert_eq!(normalize("FILE.TXT"), "file.txt");
    assert_eq!(normalize("file.PDF"), "file.pdf");
    assert_eq!(normalize("archive.tar.gz"), "archive.tar.gz");
    assert_eq!(normalize("script.sh"), "script.sh");
}

#[test]
fn test_idempotence_on_examples() {
    // Normalizing a second time changes nothing.
    let inputs = [
        "My File.txt",
        "tcp/udp guide.md",
        "café menu.txt",
        ".Hidden File",
        "archive.tar.gz",
        "  .file name. ",
        "file\u{2018}name\u{2019}.txt",
        "50% off.txt",
        "",
    ];
    for input in inputs {
        let once = normalize(input);
        assert_eq!(normalize(&once), once);
    }
}

#[test]
fn test_totality_on_odd_inputs() {
    // Every input produces some output; none may panic.
    assert_eq!(normalize("..."), "");
    assert_eq!(normalize("   "), "");
    assert_eq!(normalize("\u{1F600}\u{1F601}"), "");
    assert_eq!(normalize("\0control\u{7}.txt"), "control-.txt");
    let _ = normalize("\u{FFFD}\u{2028}\u{2029}");
}

#[test]
fn test_no_double_hyphen_in_output() {
    let inputs = [
        "a  --  b.txt",
        "x---y---z",
        "&&&&",
        "file(with)brackets[].txt",
        "–—‘’“”.txt",
    ];
    for input in inputs {
        let out = normalize(input);
        assert!(!out.contains("--"), "double hyphen in {:?}", out);
    }
}

#[test]
fn test_no_leading_hyphen_trailing_kept() {
    // Leading hyphens are trimmed; a trailing hyphen is preserved.
    assert_eq!(normalize("---x"), "x");
    assert_eq!(normalize("(x)"), "x-");
    assert!(!normalize("!!!boom!!!.txt").starts_with('-'));
    assert_eq!(normalize("file\u{2019}.txt"), "file-.txt");
}

#[test]
fn test_nonascii_whitespace_trimmed() {
    // U+00A0 has the White_Space property and is trimmed at the ends.
    assert_eq!(normalize("\u{a0}file.txt\u{a0}"), "file.txt");
}

#[test]
fn test_nonascii_extension_lowercased() {
    // The extension is lowercased by Unicode rules, not only ASCII ones.
    assert_eq!(normalize("x.TÉT"), "x.tét");
}

#[test]
fn test_case_fold_expansion() {
    // ß has no default transliteration when case folding is off, but the
    // default tables map it to "ss".
    assert_eq!(normalize("Straße.txt"), "strasse.txt");
}

#[test]
fn test_lowercase_toggle_off_keeps_uppercase() {
    let config = NormalizationConfig::from_toml_str(
        r#"
            [options]
            lowercase = false
            "#,
    )
    .expect("config should parse");
    assert_eq!(normalize_with_config("Mixed Case.TXT", &config), "Mixed-Case.txt");
}

#[test]
fn test_split_extension_rules() {
    assert_eq!(split_extension("file.txt"), ("file", "txt"));
    assert_eq!(split_extension("archive.tar.gz"), ("archive.tar", "gz"));
    assert_eq!(split_extension(".bashrc"), ("", "bashrc"));
    assert_eq!(split_extension("name."), ("name", ""));
    assert_eq!(split_extension("plain"), ("plain", ""));
    assert_eq!(split_extension(""), ("", ""));
}

#[test]
fn test_cleanup_hyphens_direct() {
    assert_eq!(cleanup_hyphens("a---b--c-d"), "a-b-c-d");
    assert_eq!(cleanup_hyphens("----"), "-");
    assert_eq!(cleanup_hyphens("no hyphens"), "no hyphens");
    assert_eq!(cleanup_hyphens(""), "");
}

#[test]
fn test_normalize_base_direct() {
    let config = NormalizationConfig::default();
    assert_eq!(normalize_base("  .My Base.  ", &config), "my-base");
    assert_eq!(normalize_base("a/b", &config), "a-or-b");
    assert_eq!(normalize_base("", &config), "");
}
