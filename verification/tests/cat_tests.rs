use cat::args::process_args;
use cat::args::Config;
use cat::engine::process_files;
use cat::engine::CatError;
use cat::engine::FileReport;
use cat::format::format_line_number;
use cat::numbering::NumberedOut;
use cat::sink::Sink;

fn report(name: &str, data: &[u8], error: Option<&str>) -> FileReport {
    FileReport {
        name: String::from(name),
        data: data.to_vec(),
        error: error.map(String::from),
    }
}

fn run(reports: &Vec<FileReport>, numbered: bool) -> (Vec<u8>, Vec<String>, i32) {
    let mut sink = Sink::new(numbered);
    let r = process_files(reports, &mut sink);
    (sink.take_output(), r.errors, r.status)
}

#[test]
fn number_field_is_right_aligned_in_six() {
    assert_eq!(format_line_number(1), b"     1 ".to_vec());
    assert_eq!(format_line_number(42), b"    42 ".to_vec());
    assert_eq!(format_line_number(999999), b"999999 ".to_vec());
    assert_eq!(format_line_number(0), b"     0 ".to_vec());
}

#[test]
fn number_field_grows_past_six_digits() {
    assert_eq!(format_line_number(1234567), b"1234567 ".to_vec());
    assert_eq!(format_line_number(u64::MAX), b"18446744073709551615 ".to_vec());
}

#[test]
fn numbered_two_lines_without_trailing_newline() {
    let mut out = NumberedOut::new();
    out.write(b"a\nb");
    assert_eq!(out.take_output(), b"     1 a\n     2 b".to_vec());
    assert_eq!(out.n, 2);
    assert!(!out.beginning_line);
}

#[test]
fn no_number_after_final_newline() {
    let mut out = NumberedOut::new();
    out.write(b"x\n");
    assert_eq!(out.take_output(), b"     1 x\n".to_vec());
    assert_eq!(out.n, 1);
    assert!(out.beginning_line);
}

#[test]
fn chunked_writes_equal_one_write() {
    let mut whole = NumberedOut::new();
    whole.write(b"one\ntwo\nthree");
    let mut parts = NumberedOut::new();
    parts.write(b"one\ntw");
    parts.write(b"o\n");
    parts.write(b"three");
    assert_eq!(whole.take_output(), parts.take_output());
    assert_eq!(whole.n, parts.n);
}

#[test]
fn draining_keeps_the_counter() {
    let mut out = NumberedOut::new();
    out.write(b"a\n");
    assert_eq!(out.take_output(), b"     1 a\n".to_vec());
    assert_eq!(out.take_output(), Vec::<u8>::new());
    out.write(b"b");
    assert_eq!(out.take_output(), b"     2 b".to_vec());
}

#[test]
fn empty_input_gets_no_number() {
    let mut out = NumberedOut::new();
    out.write(b"");
    assert_eq!(out.take_output(), Vec::<u8>::new());
    assert_eq!(out.n, 0);
    assert!(out.beginning_line);
}

#[test]
fn print_number_emits_the_next_field() {
    let mut out = NumberedOut::new();
    out.print_number();
    out.print_number();
    assert_eq!(out.take_output(), b"     1      2 ".to_vec());
    assert_eq!(out.n, 2);
    assert!(out.beginning_line);
}

#[test]
fn no_arguments_default_to_stdin() {
    let args: Vec<String> = Vec::new();
    match process_args("cat", &args) {
        Ok(Config { files, output }) => {
            assert_eq!(files, vec![String::from("-")]);
            assert!(matches!(output, Sink::Plain(_)));
        }
        Err(m) => panic!("unexpected error: {}", m),
    }
}

#[test]
fn dash_n_selects_the_numbering_sink() {
    let args = vec![String::from("-n"), String::from("a.txt")];
    match process_args("cat", &args) {
        Ok(Config { files, output }) => {
            assert_eq!(files, vec![String::from("a.txt")]);
            assert!(matches!(output, Sink::Numbered(_)));
        }
        Err(m) => panic!("unexpected error: {}", m),
    }
}

#[test]
fn flags_and_files_may_interleave() {
    let args = vec![String::from("a"), String::from("-n"), String::from("b")];
    match process_args("cat", &args) {
        Ok(Config { files, output }) => {
            assert_eq!(files, vec![String::from("a"), String::from("b")]);
            assert!(matches!(output, Sink::Numbered(_)));
        }
        Err(m) => panic!("unexpected error: {}", m),
    }
}

#[test]
fn dash_alone_is_a_file_name() {
    let args = vec![String::from("-"), String::from("x")];
    match process_args("cat", &args) {
        Ok(Config { files, .. }) => {
            assert_eq!(files, vec![String::from("-"), String::from("x")]);
        }
        Err(m) => panic!("unexpected error: {}", m),
    }
}

#[test]
fn dash_h_yields_the_usage_message() {
    let args = vec![String::from("-h")];
    match process_args("prog", &args) {
        Ok(_) => panic!("expected the usage error"),
        Err(m) => assert_eq!(m, "Usage: prog [-n] [file1 [file2 ...]]"),
    }
}

#[test]
fn unrecognized_flag_names_the_token() {
    let args = vec![String::from("-x"), String::from("a.txt")];
    match process_args("cat", &args) {
        Ok(_) => panic!("expected the unrecognized-flag error"),
        Err(m) => assert_eq!(m, "Unrecognized flag -x"),
    }
}

#[test]
fn double_dash_is_unrecognized() {
    let args = vec![String::from("--")];
    match process_args("cat", &args) {
        Ok(_) => panic!("expected the unrecognized-flag error"),
        Err(m) => assert_eq!(m, "Unrecognized flag --"),
    }
}

#[test]
fn first_stopping_flag_wins() {
    let args = vec![String::from("-x"), String::from("-h")];
    match process_args("cat", &args) {
        Ok(_) => panic!("expected the unrecognized-flag error"),
        Err(m) => assert_eq!(m, "Unrecognized flag -x"),
    }
    let args = vec![String::from("-h"), String::from("-x")];
    match process_args("cat", &args) {
        Ok(_) => panic!("expected the usage error"),
        Err(m) => assert_eq!(m, "Usage: cat [-n] [file1 [file2 ...]]"),
    }
}

#[test]
fn plain_output_is_the_exact_concatenation() {
    let reports = vec![
        report("a", b"first\n", None),
        report("b", b"", None),
        report("c", b"second, no newline", None),
    ];
    let (out, errors, status) = run(&reports, false);
    assert_eq!(out, b"first\nsecond, no newline".to_vec());
    assert_eq!(errors, Vec::<String>::new());
    assert_eq!(status, 0);
}

#[test]
fn numbered_two_line_file_scenario() {
    let reports = vec![report("f", b"a\nb", None)];
    let (out, errors, status) = run(&reports, true);
    assert_eq!(out, b"     1 a\n     2 b".to_vec());
    assert_eq!(errors, Vec::<String>::new());
    assert_eq!(status, 0);
}

#[test]
fn numbering_continues_across_files() {
    let reports = vec![report("a", b"x\n", None), report("b", b"y\n", None)];
    let (out, _, _) = run(&reports, true);
    assert_eq!(out, b"     1 x\n     2 y\n".to_vec());
}

#[test]
fn prefix_count_is_newlines_plus_unterminated_line() {
    let mut sink = Sink::new(true);
    let reports = vec![report("a", b"a\nb\n", None), report("b", b"c", None)];
    process_files(&reports, &mut sink);
    match sink {
        Sink::Numbered(f) => assert_eq!(f.n, 3),
        Sink::Plain(_) => panic!("expected the numbering sink"),
    }
    let mut sink = Sink::new(true);
    let reports = vec![report("a", b"a\nb\n", None)];
    process_files(&reports, &mut sink);
    match sink {
        Sink::Numbered(f) => assert_eq!(f.n, 2),
        Sink::Plain(_) => panic!("expected the numbering sink"),
    }
}

#[test]
fn failed_file_reports_and_does_not_stop_the_run() {
    let reports = vec![
        report("ok.txt", b"hi\n", None),
        report("missing.txt", b"", Some("No such file or directory (os error 2)")),
        report("later.txt", b"bye\n", None),
    ];
    let (out, errors, status) = run(&reports, false);
    assert_eq!(out, b"hi\nbye\n".to_vec());
    assert_eq!(
        errors,
        vec![String::from("missing.txt: No such file or directory (os error 2)")]
    );
    assert_eq!(status, 1);
}

#[test]
fn rerunning_the_same_inputs_is_byte_identical() {
    let reports = vec![report("a", b"one\ntwo", None), report("b", b"\nthree\n", None)];
    let (out1, errors1, status1) = run(&reports, true);
    let (out2, errors2, status2) = run(&reports, true);
    assert_eq!(out1, out2);
    assert_eq!(errors1, errors2);
    assert_eq!(status1, status2);
}

#[test]
fn error_display_is_filename_qualified() {
    let e = CatError {
        filename: String::from("notes.txt"),
        message: String::from("permission denied"),
    };
    assert_eq!(e.display(), "notes.txt: permission denied");
}

#[test]
fn partial_bytes_before_a_read_failure_still_appear() {
    let reports = vec![report("trunc.bin", b"partial", Some("read failed"))];
    let (out, errors, status) = run(&reports, false);
    assert_eq!(out, b"partial".to_vec());
    assert_eq!(errors, vec![String::from("trunc.bin: read failed")]);
    assert_eq!(status, 1);
}

#[test]
fn sink_room_shrinks_with_lines_numbered() {
    let mut sink = Sink::new(true);
    let before = sink.room();
    sink.write(b"a\nb\n");
    assert_eq!(sink.room(), before - 2);
    let mut plain = Sink::new(false);
    let before = plain.room();
    plain.write(b"a\nb\n");
    assert_eq!(plain.room(), before);
}
