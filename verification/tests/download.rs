use payments_engine::cli::input_uri;
use payments_engine::engine::download::{LocalFile, S3File, Source, UriSchemes};
use payments_engine::engine::errors::PaymentError;

fn path_of(uri: &str) -> String {
    match Source::from_uri(uri) {
        Ok(Source::File(file)) => file.file_path,
        other => panic!("expected a file, got {:?}", other),
    }
}

fn unknown_scheme(uri: &str) -> String {
    match Source::from_uri(uri) {
        Err(PaymentError::InvalidUriScheme(scheme)) => scheme,
        other => panic!("expected an unknown scheme, got {:?}", other),
    }
}

#[test]
fn scheme_is_read_from_its_name() {
    assert_eq!(UriSchemes::from_str("file").unwrap(), UriSchemes::File);
    assert_eq!(UriSchemes::from_str("s3").unwrap(), UriSchemes::S3);
    for name in ["", "File", "FILE", "s3 ", "http", "files", "fil"] {
        match UriSchemes::from_str(name) {
            Err(PaymentError::InvalidUriScheme(scheme)) => assert_eq!(scheme, name),
            other => panic!("expected an unknown scheme, got {:?}", other),
        }
    }
}

#[test]
fn file_location_gives_its_path() {
    assert_eq!(path_of("file://tests/resources/smoketest.csv"), "tests/resources/smoketest.csv");
    assert_eq!(path_of("file:///tmp/in.csv"), "/tmp/in.csv");
    assert_eq!(path_of("file://"), "");
    assert_eq!(path_of("file://a:b/c:/d"), "a:b/c:/d");
    assert_eq!(path_of("file://données.csv"), "données.csv");
}

#[test]
fn path_ends_at_a_second_separator() {
    assert_eq!(path_of("file://a://b"), "a");
    assert_eq!(path_of("file://://b"), "");
    assert_eq!(path_of("file://a:://b"), "a:");
}

#[test]
fn location_without_separator_has_an_empty_path() {
    assert_eq!(path_of("file"), "");
    assert!(matches!(Source::from_uri("s3"), Ok(Source::S3(_))));
}

#[test]
fn s3_location_is_known() {
    assert!(matches!(Source::from_uri("s3://bucket/key"), Ok(Source::S3(_))));
}

#[test]
fn unknown_scheme_is_refused_with_its_name() {
    assert_eq!(unknown_scheme("ftp://host/file"), "ftp");
    assert_eq!(unknown_scheme("://path"), "");
    assert_eq!(unknown_scheme(""), "");
    assert_eq!(unknown_scheme("/tmp/in.csv"), "/tmp/in.csv");
    assert_eq!(unknown_scheme("file:/tmp/in.csv"), "file:/tmp/in.csv");
    assert_eq!(unknown_scheme("file:://x"), "file:");
    assert_eq!(unknown_scheme("File://x"), "File");
}

#[test]
fn sources_are_made_by_hand() {
    assert_eq!(LocalFile::new("a/b.csv").file_path, "a/b.csv");
    let _ = S3File::new();
}

#[test]
fn command_line_names_a_local_file() {
    let args = |list: &[&str]| list.iter().map(|a| a.to_string()).collect::<Vec<String>>();
    assert_eq!(input_uri(&args(&["prog", "in.csv"])).unwrap(), "file://in.csv");
    assert_eq!(input_uri(&args(&["prog", "/a/b.csv", "more"])).unwrap(), "file:///a/b.csv");
    assert_eq!(input_uri(&args(&["prog", ""])).unwrap(), "file://");
    for short in [args(&[]), args(&["prog"])] {
        match input_uri(&short) {
            Err(PaymentError::CliError(message)) => assert_eq!(message, "Provide input file"),
            other => panic!("expected a command line error, got {:?}", other),
        }
    }
    assert_eq!(path_of(&input_uri(&args(&["prog", "in.csv"])).unwrap()), "in.csv");
}

#[test]
fn every_error_carries_its_message() {
    let errors = [
        PaymentError::InvalidUriScheme("ftp".to_string()),
        PaymentError::FileDownloadError("No such file or directory".to_string()),
        PaymentError::PaymentProcessingError("Invalid input data".to_string()),
        PaymentError::CliError("Provide input file".to_string()),
    ];
    let messages: Vec<String> = errors.iter().map(|e| e.message().clone()).collect();
    assert_eq!(
        messages,
        vec!["ftp", "No such file or directory", "Invalid input data", "Provide input file"]
    );
    for e in errors.iter() {
        assert_eq!(e.clone().message(), e.message());
    }
    assert!(matches!(errors[1].clone(), PaymentError::FileDownloadError(_)));
    assert_eq!(format!("{:?}", errors[3]), "CliError(\"Provide input file\")");
}
