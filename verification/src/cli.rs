//! The arguments of the command line, and what they ask for.

use crate::plot::Config;
use vstd::prelude::*;

verus! {

/// The arguments as they were given.
#[derive(Debug, PartialEq, Eq)]
pub struct Args {
    pub cmd_bench: bool,
    pub cmd_plot: bool,
    pub arg_bench_option: Vec<String>,
    pub arg_plot_filter: Vec<String>,
    pub flag_file: String,
    pub flag_repeat: usize,
    pub flag_ignore_dirty: Vec<String>,
    pub flag_include_variance: bool,
    pub flag_medians: bool,
    pub flag_normalize: bool,
    pub flag_output_file: String,
    pub flag_commits: Option<String>,
}

/// What is to be done.
#[derive(Clone, Copy, Debug, PartialEq, Eq, Structural)]
pub enum Command {
    /// Run the benchmarks and record their results.
    Bench,
    /// Draw the recorded results.
    Plot,
}

impl Args {
    /// The command that the arguments ask for; `None` where they ask for
    /// neither. Where both are set, the benchmarks are run.
    pub fn command(&self) -> (c: Option<Command>)
        ensures
            c == if self.cmd_bench {
                Some(Command::Bench)
            } else if self.cmd_plot {
                Some(Command::Plot)
            } else {
                None
            },
    {
        if self.cmd_bench {
            Some(Command::Bench)
        } else if self.cmd_plot {
            Some(Command::Plot)
        } else {
            None
        }
    }

    /// What the arguments ask of a chart.
    pub fn plot_config<'a>(&'a self) -> (config: Config<'a>)
        ensures
            config.include_variance == self.flag_include_variance,
            config.compute_medians == self.flag_medians,
            config.compute_normalize == self.flag_normalize,
            config.output_file@ == self.flag_output_file@,
            config.filters@ == self.arg_plot_filter@,
    {
        Config {
            include_variance: self.flag_include_variance,
            compute_medians: self.flag_medians,
            compute_normalize: self.flag_normalize,
            output_file: self.flag_output_file.as_str(),
            filters: self.arg_plot_filter.as_slice(),
        }
    }
}

} // verus!
