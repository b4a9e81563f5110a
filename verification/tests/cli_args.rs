use symseek::{Args, Cli, OutputFormat, TreeChars};

#[test]
fn test_output_format_default() {
    let args = Args {
        target: "test".to_string(),
        verbose: false,
        json: false,
    };
    assert_eq!(args.output_format(), OutputFormat::Tree);
}

#[test]
fn test_output_format_json() {
    let args = Args {
        target: "test".to_string(),
        verbose: false,
        json: true,
    };
    assert_eq!(args.output_format(), OutputFormat::Json);
}

#[test]
fn test_output_format_with_verbose() {
    let args = Args {
        target: "test".to_string(),
        verbose: true,
        json: false,
    };
    assert_eq!(args.output_format(), OutputFormat::Tree);

    let args_json = Args {
        target: "test".to_string(),
        verbose: true,
        json: true,
    };
    assert_eq!(args_json.output_format(), OutputFormat::Json);
}

#[test]
fn with_args_keeps_the_options() {
    let cli = Cli::with_args(Args {
        target: "nvim".to_string(),
        verbose: true,
        json: false,
    });
    assert_eq!(cli.args.target, "nvim");
    assert!(cli.args.verbose);
    assert!(!cli.args.json);
    assert_eq!(cli.args.output_format(), OutputFormat::Tree);
}

#[test]
fn defaults_are_tree_output_and_box_drawing() {
    assert_eq!(OutputFormat::default(), OutputFormat::Tree);
    let chars = TreeChars::default();
    assert_eq!(chars.branch, "\u{251c}");
    assert_eq!(chars.last, "\u{2514}");
    assert_eq!(chars.connector, "\u{2500}");
}

#[test]
fn test_output_format_both_flags() {
    let args_tree_quiet = Args {
        target: "test".to_string(),
        verbose: false,
        json: false,
    };
    assert_eq!(args_tree_quiet.output_format(), OutputFormat::Tree);

    let args_tree_verbose = Args {
        target: "test".to_string(),
        verbose: true,
        json: false,
    };
    assert_eq!(args_tree_verbose.output_format(), OutputFormat::Tree);

    let args_json_quiet = Args {
        target: "test".to_string(),
        verbose: false,
        json: true,
    };
    assert_eq!(args_json_quiet.output_format(), OutputFormat::Json);

    let args_json_verbose = Args {
        target: "test".to_string(),
        verbose: true,
        json: true,
    };
    assert_eq!(args_json_verbose.output_format(), OutputFormat::Json);
}
