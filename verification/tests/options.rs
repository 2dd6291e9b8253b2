use coordsfinder::options::{
    arguments, check_count, interpret, parse_backend, Backend, Options,
};

fn strings(args: &[&str]) -> Vec<String> {
    args.iter().map(|arg| arg.to_string()).collect()
}

#[test]
fn clap_parses_backend_and_threads() {
    let options = Options::try_parse_from(&strings(&[
        "coordsfinder",
        "--backend",
        "cpu",
        "--threads",
        "4",
        "--output",
        "matches.txt",
        "example.conf",
    ]))
    .unwrap();
    assert_eq!(options.backend, Backend::Cpu);
    assert_eq!(options.threads, Some(4));
    assert_eq!(options.output, Some("matches.txt".to_string()));
    assert_eq!(options.config, "example.conf");
}

#[test]
fn clap_rejects_zero_threads() {
    assert!(
        Options::try_parse_from(&strings(&["coordsfinder", "--threads", "0", "example.conf"]))
            .is_err()
    );
}

#[test]
fn short_options_and_defaults() {
    let options = Options::try_parse_from(&strings(&["coordsfinder", "a.conf"])).unwrap();
    assert_eq!(options.backend, Backend::Auto);
    assert_eq!(options.threads, None);
    assert_eq!(options.output, None);
    assert!(!options.validate);
    let options = Options::try_parse_from(&strings(&[
        "coordsfinder",
        "-e",
        "-b=gpu",
        "-t8",
        "-o",
        "out",
        "a.conf",
    ]))
    .unwrap();
    assert_eq!(options.backend, Backend::Gpu);
    assert_eq!(options.threads, Some(8));
    assert_eq!(options.output, Some("out".to_string()));
    assert!(options.validate);
}

#[test]
fn complaints_and_requested_texts() {
    let help = Options::try_parse_from(&strings(&["coordsfinder", "--help"])).unwrap_err();
    assert!(!help.to_stderr);
    assert_eq!(help.exit_code(), 0);
    assert!(help.text.contains("--backend <BACKEND>"));
    assert!(help.text.contains("--output <FILE>"));
    assert!(help.text.contains("Prefer GPU and fall back to CPU"));
    assert!(help.text.contains("[default: auto]"));
    let version = Options::try_parse_from(&strings(&["coordsfinder", "-v"])).unwrap_err();
    assert!(!version.to_stderr);
    assert_eq!(version.text, "CoordsFinder 1.0.0\n");
    let nothing = Options::try_parse_from(&strings(&["coordsfinder"])).unwrap_err();
    assert!(nothing.to_stderr);
    assert_eq!(nothing.exit_code(), 2);
    let unknown = Options::try_parse_from(&strings(&["coordsfinder", "--fast", "a.conf"]));
    assert!(unknown.unwrap_err().to_stderr);
    let backend = Options::try_parse_from(&strings(&["coordsfinder", "-b", "tpu", "a.conf"]));
    assert!(backend.unwrap_err().text.starts_with(
        "error: invalid value 'tpu' for '--backend <BACKEND>'\n  [possible values: auto, cpu, gpu]\n"
    ));
    let zero = Options::try_parse_from(&strings(&["coordsfinder", "-t", "0", "a.conf"]));
    assert!(zero.unwrap_err().text.starts_with(
        "error: invalid value '0' for '--threads <THREADS>': number would be zero for non-zero type\n"
    ));
    let missing = Options::try_parse_from(&strings(&["coordsfinder", "-e"])).unwrap_err();
    assert!(missing.to_stderr);
    let empty = Options::try_parse_from(&strings(&["coordsfinder", ""])).unwrap_err();
    assert!(empty.to_stderr);
    assert!(empty
        .text
        .starts_with("error: a value is required for '<CONFIG>' but none was supplied\n"));
    let first = Options::try_parse_from(&strings(&["coordsfinder", "-t", "0", "--help"]));
    assert_eq!(first.unwrap_err().exit_code(), 2);
    let twice = Options::try_parse_from(&strings(&["coordsfinder", "a.conf", "b.conf"]));
    assert!(twice.unwrap_err().to_stderr);
}

#[test]
fn interprets_values() {
    let some = |s: &str| Some(s.to_string());
    let options =
        interpret(&vec![some("a"), some("auto"), some("+3"), some("false"), None, None]);
    assert_eq!(options.config, "a");
    assert_eq!(options.backend, Backend::Auto);
    assert_eq!(options.threads, Some(3));
    assert!(!options.validate);
    let options = interpret(&vec![some("a"), None, None, some("true"), some("b"), None]);
    assert_eq!(options.backend, Backend::Auto);
    assert_eq!(options.threads, None);
    assert!(options.validate);
    assert_eq!(options.output, some("b"));
    assert_eq!(parse_backend("CPU"), None);
    assert_eq!(arguments().len(), 6);
}

#[test]
fn checks_counts() {
    for value in ["1", "+8", "18446744073709551615"] {
        assert_eq!(check_count(value), Ok(()));
    }
    let bad = [
        "",
        "0",
        "+000",
        "-1",
        "+",
        "x",
        " 1",
        "12x",
        "18446744073709551616",
        "99999999999999999999x",
        "+99999999999999999999x",
        "9999999999999999999x",
        "18446744073709551615x9",
        "0000000000000000000000000x",
    ];
    for value in bad {
        let error = value.parse::<std::num::NonZeroUsize>().unwrap_err();
        assert_eq!(check_count(value), Err(error.to_string()));
    }
}
