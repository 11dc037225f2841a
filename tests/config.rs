use pdf2md::{validate_input_path, Args, Config, Pdf2MdError};

#[test]
fn cli_test_args_parse_minimal() {
    let args = Args {
        input: "input.pdf".to_string(),
        output: "output.md".to_string(),
        verbose: false,
        dry_run: false,
    };
    assert_eq!(args.input, "input.pdf");
    assert_eq!(args.output, "output.md");
    assert!(!args.verbose);
    assert!(!args.dry_run);
}

#[test]
fn test_config_from_args() {
    let args = Args {
        input: "input.pdf".to_string(),
        output: "output.md".to_string(),
        verbose: true,
        dry_run: false,
    };
    let config = Config::from_args(args);
    assert_eq!(config.input_path, "input.pdf");
    assert_eq!(config.output_path, "output.md");
    assert!(config.verbose);
    assert!(!config.dry_run);
}

#[test]
fn test_validate_input_path_with_nonexistent_file() {
    let path = std::path::Path::new("/nonexistent/file.pdf");
    let result = validate_input_path("/nonexistent/file.pdf", path.exists(), path.is_file());
    assert!(result.is_err());
    match result.unwrap_err() {
        Pdf2MdError::InvalidInput(msg) => {
            assert!(msg.contains("does not exist"));
        }
        _ => panic!("Expected InvalidInput error"),
    }
}

#[test]
fn validate_rejects_a_directory_and_accepts_a_file() {
    match validate_input_path("some/dir", true, false) {
        Err(Pdf2MdError::InvalidInput(msg)) => {
            assert_eq!(msg, "Input path is not a file: some/dir")
        }
        _ => panic!("Expected InvalidInput error"),
    }
    assert!(validate_input_path("doc.pdf", true, true).is_ok());
    let config = Config {
        input_path: "x.pdf".to_string(),
        output_path: "x.md".to_string(),
        verbose: false,
        dry_run: true,
    };
    match config.validate(false, false) {
        Err(Pdf2MdError::InvalidInput(msg)) => {
            assert_eq!(msg, "Input file does not exist: x.pdf")
        }
        _ => panic!("Expected InvalidInput error"),
    }
    assert!(config.validate(true, true).is_ok());
}
