use drucker::BuildError;
use drucker::Drucker;
use drucker::DruckerContent;
use drucker::DruckerOptions;

/// Approximate shell dequote for a single token produced by `sh_escape`.
fn dequote(token: &str) -> String {
    assert!(token.starts_with('\'') && token.ends_with('\''));
    let inner = &token[1..token.len() - 1];
    inner.replace("'\"'\"'", "'")
}

#[test]
fn escape_wraps_plain_text() {
    assert_eq!(drucker::sh_escape("a"), "'a'");
    assert_eq!(drucker::sh_escape("don't"), "'don'\"'\"'t'");
    assert_eq!(drucker::sh_escape_path("/tmp/out file.txt"), "'/tmp/out file.txt'");
}

#[test]
fn escape_roundtrips_metacharacters() {
    let cases = [
        "",
        "'",
        "''",
        "a b c",
        "line1\nline2",
        "$HOME",
        "`date`",
        "\"quoted\"",
        "back\\slash",
        "a;b|c&d",
        "glob*?.txt",
        "x'$(reboot)'y",
    ];
    for s in cases {
        let esc = drucker::sh_escape(s);
        assert_eq!(dequote(&esc), s, "round trip failed for {s:?}");
    }
}

#[test]
fn flag_variant_selection_for_destination() {
    let lp_opts = DruckerOptions::builder()
        .destination("Office Printer")
        .build();
    let lp_cmd = Drucker::new(lp_opts)
        .build_command(&DruckerContent::File("/tmp/j.txt".to_string()), "")
        .expect("build ok");
    assert!(lp_cmd.contains("-d 'Office Printer'"), "lp flag wrong: {lp_cmd}");

    let lpr_opts = DruckerOptions::builder()
        .use_lpr(true)
        .destination("Office Printer")
        .build();
    let lpr_cmd = Drucker::new(lpr_opts)
        .build_command(&DruckerContent::File("/tmp/j.txt".to_string()), "")
        .expect("build ok");
    assert!(lpr_cmd.contains("-P 'Office Printer'"), "lpr flag wrong: {lpr_cmd}");
}

#[test]
fn copies_rendering_per_variant() {
    let lp_opts = DruckerOptions::builder().copies(2).build();
    let lp_cmd = Drucker::new(lp_opts)
        .build_command(&DruckerContent::File("/tmp/j.txt".to_string()), "")
        .expect("build ok");
    assert_eq!(lp_cmd, "lp -n 2 '/tmp/j.txt'");

    let lpr_opts = DruckerOptions::builder().use_lpr(true).copies(2).build();
    let lpr_cmd = Drucker::new(lpr_opts)
        .build_command(&DruckerContent::File("/tmp/j.txt".to_string()), "")
        .expect("build ok");
    assert_eq!(lpr_cmd, "lpr -#2 '/tmp/j.txt'");
}

#[test]
fn copies_rendering_extremes() {
    let zero = DruckerOptions::builder().copies(0).build();
    let cmd = Drucker::new(zero)
        .build_command(&DruckerContent::File("/tmp/j.txt".to_string()), "")
        .expect("build ok");
    assert_eq!(cmd, "lp -n 0 '/tmp/j.txt'");

    let max = DruckerOptions::builder().copies(4294967295).build();
    let cmd = Drucker::new(max)
        .build_command(&DruckerContent::File("/tmp/j.txt".to_string()), "")
        .expect("build ok");
    assert_eq!(cmd, "lp -n 4294967295 '/tmp/j.txt'");
}

#[test]
fn title_escaping_end_to_end() {
    let opts = DruckerOptions::builder()
        .use_lpr(true)
        .title("Q2 'Report'")
        .build();
    let cmd = Drucker::new(opts)
        .build_command(&DruckerContent::File("/tmp/j.txt".to_string()), "")
        .expect("build ok");
    let after_flag = cmd
        .split(" -J ")
        .nth(1)
        .expect("title flag present");
    let token_end = after_flag.rfind(" '").expect("path token follows");
    let token = &after_flag[..token_end];
    assert_eq!(dequote(token), "Q2 'Report'");
}

#[test]
fn job_option_passthrough_unquoted() {
    let opts = DruckerOptions::builder()
        .job_option("sides", "two-sided-long-edge")
        .build();
    let cmd = Drucker::new(opts)
        .build_command(&DruckerContent::File("/tmp/j.txt".to_string()), "")
        .expect("build ok");
    assert_eq!(cmd, "lp -o sides=two-sided-long-edge '/tmp/j.txt'");
}

#[test]
fn job_options_render_sorted_regardless_of_insertion_order() {
    let first = DruckerOptions::builder()
        .job_option("z", "1")
        .job_option("a", "2")
        .build();
    let second = DruckerOptions::builder()
        .job_option("a", "2")
        .job_option("z", "1")
        .build();

    let cmd_first = Drucker::new(first)
        .build_command(&DruckerContent::File("/tmp/j.txt".to_string()), "")
        .expect("build ok");
    let cmd_second = Drucker::new(second)
        .build_command(&DruckerContent::File("/tmp/j.txt".to_string()), "")
        .expect("build ok");

    assert_eq!(cmd_first, "lp -o a=2 -o z=1 '/tmp/j.txt'");
    assert_eq!(cmd_first, cmd_second);
}

#[test]
fn job_option_replaces_value_for_same_key() {
    let opts = DruckerOptions::builder()
        .job_option("dup", "1")
        .job_option("dup", "2")
        .build();
    let cmd = Drucker::new(opts)
        .build_command(&DruckerContent::File("/tmp/j.txt".to_string()), "")
        .expect("build ok");
    assert_eq!(cmd, "lp -o dup=2 '/tmp/j.txt'");
}

#[test]
fn job_options_replaces_whole_set() {
    let pairs = vec![
        ("media".to_string(), "a4".to_string()),
        ("sides".to_string(), "one-sided".to_string()),
        ("media".to_string(), "letter".to_string()),
    ];
    let opts = DruckerOptions::builder()
        .job_option("stale", "x")
        .job_options(pairs)
        .build();
    assert_eq!(opts.job_option_value("stale"), None);
    assert_eq!(opts.job_option_value("media"), Some("letter".to_string()));
    assert_eq!(opts.job_option_value("sides"), Some("one-sided".to_string()));
    assert_eq!(opts.job_option_count(), 2);
}

#[test]
fn empty_file_path_is_rejected() {
    let drucker = Drucker::new(DruckerOptions::default());
    let result = drucker.build_command(&DruckerContent::File(String::new()), "");
    assert_eq!(result, Err(BuildError::EmptyPath));
}

#[test]
fn inline_text_targets_the_scratch_path() {
    let drucker = Drucker::new(DruckerOptions::default());
    let content = DruckerContent::Text("hello\nworld".to_string());
    let cmd = drucker
        .build_command(&content, "/tmp/drucker-scratch-1.txt")
        .expect("build ok");
    assert_eq!(cmd, "lp '/tmp/drucker-scratch-1.txt'");
}

#[test]
fn builder_clear_methods_reset_fields() {
    let opts = DruckerOptions::builder()
        .destination("Floor1")
        .copies(3)
        .title("T")
        .clear_destination()
        .clear_copies()
        .clear_title()
        .build();
    assert_eq!(opts.destination, None);
    assert_eq!(opts.copies, None);
    assert_eq!(opts.title, None);
}

#[test]
fn builder_destination_if_sets_or_clears() {
    let set = DruckerOptions::builder()
        .destination_if(Some("Floor2"))
        .build();
    assert_eq!(set.destination.as_deref(), Some("Floor2"));

    let cleared = DruckerOptions::builder()
        .destination("Floor2")
        .destination_if(None)
        .build();
    assert_eq!(cleared.destination, None);
}

#[test]
fn job_option_value_absent_key() {
    let opts = DruckerOptions::builder().job_option("media", "a4").build();
    assert_eq!(opts.job_option_value("sides"), None);
}
