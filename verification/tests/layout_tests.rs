use dlt_grep::{
    error_exit_code, exit_code, file_output, file_prefix, show_filename, use_color, use_heading, ColorMode,
    is_dlt_name, is_searched, search_roots, COLOR_PATH, COLOR_RESET,
};

#[test]
fn colour_follows_mode_terminal_and_no_color() {
    assert!(use_color(ColorMode::Always, false, true));
    assert!(!use_color(ColorMode::Never, true, false));
    assert!(use_color(ColorMode::Auto, true, false));
    assert!(!use_color(ColorMode::Auto, true, true));
    assert!(!use_color(ColorMode::Auto, false, false));
}

#[test]
fn file_names_and_headings() {
    assert!(!show_filename(1, false));
    assert!(show_filename(2, false));
    assert!(show_filename(1, true));
    assert!(use_heading(true, false, false, true));
    assert!(!use_heading(true, true, false, true));
    assert!(!use_heading(true, false, true, true));
    assert!(!use_heading(true, false, false, false));
    assert!(!use_heading(false, false, false, true));
}

#[test]
fn prefixes_name_the_file_only_without_headings() {
    assert_eq!(file_prefix("a/b.dlt", true, false, false), "a/b.dlt:");
    assert_eq!(
        file_prefix("a/b.dlt", true, false, true),
        format!("{COLOR_PATH}a/b.dlt{COLOR_RESET}:")
    );
    assert_eq!(file_prefix("a/b.dlt", true, true, false), "");
    assert_eq!(file_prefix("a/b.dlt", false, false, true), "");
}

#[test]
fn file_output_with_and_without_heading() {
    assert_eq!(file_output("x.dlt", b"m1\nm2\n", true, false), b"x.dlt\nm1\nm2\n\n".to_vec());
    assert_eq!(
        file_output("x.dlt", b"m\n", true, true),
        format!("{COLOR_PATH}x.dlt{COLOR_RESET}\nm\n\n").into_bytes()
    );
    assert_eq!(file_output("x.dlt", b"m\n", false, true), b"m\n".to_vec());
    assert!(file_output("x.dlt", b"", true, true).is_empty());
}

#[test]
fn exit_codes() {
    assert_eq!(exit_code(true, true, false), 0);
    assert_eq!(exit_code(true, false, false), 1);
    assert_eq!(exit_code(true, true, true), 2);
    assert_eq!(exit_code(true, false, true), 2);
    assert_eq!(exit_code(false, false, false), 1);
    assert_eq!(error_exit_code(true), 0);
    assert_eq!(error_exit_code(false), 2);
}

#[test]
fn dlt_file_names_are_recognised() {
    assert!(is_dlt_name("ECU1.dlt"));
    assert!(is_dlt_name("trace.DLT"));
    assert!(is_dlt_name("a.dlt.gz"));
    assert!(is_dlt_name("a.Dlt.ZST"));
    assert!(!is_dlt_name(".dlt"));
    assert!(!is_dlt_name("a.dltx"));
    assert!(!is_dlt_name("a.gz"));
    assert!(!is_dlt_name("dlt"));
    assert!(is_dlt_name("\u{e4}.dlt"));
}

#[test]
fn searched_entries() {
    assert!(is_searched("notes.txt", true, true));
    assert!(!is_searched("notes.txt", false, true));
    assert!(is_searched("x.dlt.zst", false, true));
    assert!(!is_searched("x.dlt", false, false));
    assert!(!is_searched("dir", true, false));
}

#[test]
fn roots_default_to_current_directory() {
    assert_eq!(search_roots(Vec::new()), vec![".".to_string()]);
    let given = vec!["a".to_string(), "b/c.dlt".to_string()];
    assert_eq!(search_roots(given.clone()), given);
}
