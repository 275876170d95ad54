use web_ch_file_line::Config;

fn args(list: &[&str]) -> Vec<String> {
    list.iter().map(|s| String::from(*s)).collect()
}

#[test]
fn two_filenames_and_defaults() {
    let c = Config::new(&args(&["prog", "base.web", "one.ch"])).unwrap();
    assert_eq!(c.verbose, 0);
    assert!(c.directory.is_none());
    assert!(c.output.is_none());
    assert_eq!(c.webfilename, "base.web");
    assert_eq!(c.chfilenames, vec![String::from("one.ch")]);
}

#[test]
fn several_change_files_in_order() {
    let c = Config::new(&args(&["prog", "w", "a", "b", "c"])).unwrap();
    assert_eq!(c.webfilename, "w");
    assert_eq!(c.chfilenames, args(&["a", "b", "c"]));
}

#[test]
fn verbosity_accumulates() {
    let c = Config::new(&args(&["prog", "-v", "-v", "w", "c"])).unwrap();
    assert_eq!(c.verbose, 2);
    let c = Config::new(&args(&["prog", "-vv", "-v", "w", "c"])).unwrap();
    assert_eq!(c.verbose, 3);
}

#[test]
fn directory_and_output_flags_take_values() {
    let c = Config::new(&args(&["prog", "-w", "dir", "-o", "out", "w", "c"])).unwrap();
    assert_eq!(c.directory.as_deref(), Some("dir"));
    assert_eq!(c.output.as_deref(), Some("out"));
}

#[test]
fn double_dash_ends_flag_scanning() {
    let c = Config::new(&args(&["prog", "-v", "--", "-w", "c"])).unwrap();
    assert_eq!(c.verbose, 1);
    assert_eq!(c.webfilename, "-w");
    assert_eq!(c.chfilenames, vec![String::from("c")]);
}

#[test]
fn first_operand_ends_flag_scanning() {
    let c = Config::new(&args(&["prog", "w", "-v"])).unwrap();
    assert_eq!(c.verbose, 0);
    assert_eq!(c.webfilename, "w");
    assert_eq!(c.chfilenames, vec![String::from("-v")]);
}

#[test]
fn missing_directory_value_is_an_error() {
    let e = Config::new(&args(&["prog", "-w"])).unwrap_err();
    assert_eq!(e, "-w require working directory");
}

#[test]
fn missing_output_value_is_an_error() {
    let e = Config::new(&args(&["prog", "-o"])).unwrap_err();
    assert_eq!(e, "-o require output filename");
}

#[test]
fn trailing_flag_after_operands_is_an_operand() {
    // Once an operand ends flag scanning, a later `-o` is just a filename.
    let c = Config::new(&args(&["prog", "w", "c", "-o"])).unwrap();
    assert_eq!(c.webfilename, "w");
    assert_eq!(c.chfilenames, args(&["c", "-o"]));
    assert!(c.output.is_none());
}

#[test]
fn too_few_operands_is_an_error() {
    assert_eq!(Config::new(&args(&["prog"])).unwrap_err(), "not enough arguments");
    assert_eq!(Config::new(&args(&["prog", "w"])).unwrap_err(), "not enough arguments");
    assert_eq!(
        Config::new(&args(&["prog", "-v", "w"])).unwrap_err(),
        "not enough arguments"
    );
}
