use drucker::Drucker;
use drucker::DruckerContent;
use drucker::DruckerOptions;

/// Extract the final (quoted) path argument from a built command,
/// approximate shell dequote for the POSIX single-quote strategy, and
/// return it as a `String`.
fn extract_last_path_from_cmd(cmd: &str) -> Option<String> {
    let last_space = cmd.rfind(' ')?;
    let token = cmd[(last_space + 1)..].trim();

    if !(token.starts_with('\'') && token.ends_with('\'')) {
        return None;
    }
    let inner = &token[1..token.len() - 1];
    let dequoted = inner.replace("'\"'\"'", "'");
    Some(dequoted)
}

#[test]
fn tests_build_command_lp_with_file() {
    let temp_pdf = "/tmp/drucker-test-1739382.pdf".to_string();

    let drucker = Drucker::new(DruckerOptions::default());
    let content = DruckerContent::File(temp_pdf.clone());

    let cmd = drucker.build_command(&content, "").expect("build ok");
    println!("lp file cmd: {cmd}");
    assert!(cmd.starts_with("lp "), "expected lp command, got: {cmd}");

    let path = extract_last_path_from_cmd(&cmd).expect("extract path");
    assert_eq!(path, temp_pdf);
}

#[test]
fn tests_build_command_lpr_with_options_and_escaping() {
    let temp_txt = "/tmp/drucker-test-928312.txt".to_string();

    let opts = DruckerOptions::builder()
        .use_lpr(true)
        .destination("Office Printer")
        .copies(2)
        .title("Q2 'Report'")
        .job_option("sides", "two-sided-long-edge")
        .build();

    let drucker = Drucker::new(opts);
    let content = DruckerContent::File(temp_txt.clone());

    let cmd = drucker.build_command(&content, "").expect("build ok");
    println!("lpr file cmd: {cmd}");

    assert!(cmd.starts_with("lpr "), "expected lpr: {cmd}");
    assert!(
        cmd.contains("-P 'Office Printer'"),
        "destination not properly escaped: {cmd}"
    );
    assert!(cmd.contains("-#2"), "copies flag missing: {cmd}");
    assert!(
        cmd.contains("-J 'Q2 '\"'\"'Report'\"'\"''") || cmd.contains("-J 'Q2 '\\''Report'\\'''"),
        "title escaping not present as POSIX-safe single-quote escape: {cmd}"
    );
    assert!(
        cmd.contains("-o sides=two-sided-long-edge"),
        "-o option missing: {cmd}"
    );

    let path = extract_last_path_from_cmd(&cmd).expect("extract path");
    assert_eq!(path, temp_txt);
}

#[test]
fn lp_build_command_lp_with_file() {
    let temp_pdf = "/tmp/drucker-test-5521847.pdf".to_string();

    let drucker = Drucker::new(DruckerOptions::default());
    let content = DruckerContent::File(temp_pdf.clone());

    let cmd = drucker.build_command(&content, "").expect("build ok");
    println!("lp file cmd: {cmd}");
    assert!(cmd.starts_with("lp "), "expected lp command, got: {cmd}");

    let path = extract_last_path_from_cmd(&cmd).expect("extract path");
    assert_eq!(path, temp_pdf);
}

#[test]
fn lp_build_command_lpr_with_options_and_escaping() {
    let temp_txt = "/tmp/drucker-test-7301228.txt".to_string();

    let opts = DruckerOptions::builder()
        .use_lpr(true)
        .destination("Office Printer")
        .copies(2)
        .title("Q2 'Report'")
        .job_option("sides", "two-sided-long-edge")
        .build();

    let drucker = Drucker::new(opts);
    let content = DruckerContent::File(temp_txt.clone());

    let cmd = drucker.build_command(&content, "").expect("build ok");
    println!("lpr file cmd: {cmd}");

    assert!(cmd.starts_with("lpr "), "expected lpr: {cmd}");
    assert!(
        cmd.contains("-P 'Office Printer'"),
        "destination not properly escaped: {cmd}"
    );
    assert!(cmd.contains("-#2"), "copies flag missing: {cmd}");
    assert!(
        cmd.contains("-J 'Q2 '\"'\"'Report'\"'\"''") || cmd.contains("-J 'Q2 '\\''Report'\\'''"),
        "title escaping not present as POSIX-safe single-quote escape: {cmd}"
    );
    assert!(
        cmd.contains("-o sides=two-sided-long-edge"),
        "-o option missing: {cmd}"
    );

    let path = extract_last_path_from_cmd(&cmd).expect("extract path");
    assert_eq!(path, temp_txt);
}

#[test]
fn lp_options_builder_sets_expected_fields() {
    let opts = DruckerOptions::builder()
        .destination("Floor1")
        .copies(3)
        .title("Quarterly Report")
        .job_option("media", "na_letter_8.5x11in")
        .use_lpr(true)
        .build();

    assert_eq!(opts.destination.as_deref(), Some("Floor1"));
    assert_eq!(opts.copies, Some(3));
    assert_eq!(opts.title.as_deref(), Some("Quarterly Report"));
    assert_eq!(
        opts.job_option_value("media"),
        Some("na_letter_8.5x11in".to_string())
    );
    assert!(opts.use_lpr);
}

#[test]
fn tests_options_builder_sets_expected_fields() {
    let opts = DruckerOptions::builder()
        .destination("Floor1")
        .copies(3)
        .title("Quarterly Report")
        .job_option("media", "na_letter_8.5x11in")
        .use_lpr(true)
        .build();

    assert_eq!(opts.destination.as_deref(), Some("Floor1"));
    assert_eq!(opts.copies, Some(3));
    assert_eq!(opts.title.as_deref(), Some("Quarterly Report"));
    assert_eq!(
        opts.job_option_value("media"),
        Some("na_letter_8.5x11in".to_string())
    );
    assert!(opts.use_lpr);
}

#[test]
fn lp_sh_escape_roundtrip_examples() {
    let s = "A B ' C";
    let esc = drucker::sh_escape(s);
    println!("escaped: {esc}");
    let dequoted = {
        assert!(esc.starts_with('\'') && esc.ends_with('\''));
        let inner = &esc[1..esc.len() - 1];
        inner.replace("'\"'\"'", "'")
    };
    assert_eq!(dequoted, s);

    let esc_empty = drucker::sh_escape("");
    println!("escaped empty: {esc_empty}");
    assert_eq!(esc_empty, "''");
}

#[test]
fn tests_sh_escape_roundtrip_examples() {
    let s = "A B ' C";
    let esc = drucker::sh_escape(s);
    println!("escaped: {esc}");
    let dequoted = {
        assert!(esc.starts_with('\'') && esc.ends_with('\''));
        let inner = &esc[1..esc.len() - 1];
        inner.replace("'\"'\"'", "'")
    };
    assert_eq!(dequoted, s);

    let esc_empty = drucker::sh_escape("");
    println!("escaped empty: {esc_empty}");
    assert_eq!(esc_empty, "''");
}
