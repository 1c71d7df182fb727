use cargo_chrono::cli::Args;
use cargo_chrono::cli::Command;

fn args() -> Args {
    Args {
        cmd_bench: false,
        cmd_plot: false,
        arg_bench_option: vec![],
        arg_plot_filter: vec!["foo".to_string(), "!bar".to_string()],
        flag_file: "chrono.csv".to_string(),
        flag_repeat: 1,
        flag_ignore_dirty: vec![],
        flag_include_variance: true,
        flag_medians: false,
        flag_normalize: true,
        flag_output_file: "out.svg".to_string(),
        flag_commits: None,
    }
}

#[test]
fn command_follows_the_flags() {
    let mut given = args();
    assert_eq!(given.command(), None);
    given.cmd_plot = true;
    assert_eq!(given.command(), Some(Command::Plot));
    given.cmd_bench = true;
    assert_eq!(given.command(), Some(Command::Bench));
    given.cmd_plot = false;
    assert_eq!(given.command(), Some(Command::Bench));
}

#[test]
fn plot_config_takes_over_the_arguments() {
    let given = args();
    let config = given.plot_config();
    assert!(config.include_variance);
    assert!(!config.compute_medians);
    assert!(config.compute_normalize);
    assert_eq!(config.output_file, "out.svg");
    assert_eq!(config.filters, &["foo".to_string(), "!bar".to_string()]);
}
