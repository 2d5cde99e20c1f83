//! Start options of a leaf run, as the foreign-function interface builds them.

use vstd::prelude::*;

verus! {

/// Where the configuration comes from.
#[derive(Debug)]
pub enum ConfigSource {
    /// A file path.
    File(String),
    /// The configuration text itself.
    Str(String),
}

/// The runtime to run on.
#[derive(Clone, Copy, Debug, PartialEq, Eq, Structural)]
pub enum RuntimeOption {
    /// A single-threaded runtime.
    SingleThread,
    /// A multi-threaded runtime sized automatically, with the given stack size.
    MultiThreadAuto(usize),
    /// A multi-threaded runtime with the given number of threads and stack size.
    MultiThread(usize, usize),
}

/// Everything a run is started with.
#[derive(Debug)]
pub struct StartOptions {
    pub config: ConfigSource,
    pub auto_reload: bool,
    pub runtime_opt: RuntimeOption,
    pub routing_history_enabled: bool,
    pub routing_history_max_records: usize,
}

/// The runtime the interface flags ask for: single-threaded unless
/// `multi_thread`; then sized automatically when `auto_threads`, otherwise
/// with `threads` threads.
pub open spec fn runtime_for(multi_thread: bool, auto_threads: bool, threads: usize, stack_size: usize) -> RuntimeOption {
    if !multi_thread {
        RuntimeOption::SingleThread
    } else if auto_threads {
        RuntimeOption::MultiThreadAuto(stack_size)
    } else {
        RuntimeOption::MultiThread(threads, stack_size)
    }
}

/// The options of a run from a configuration file; routing history is off.
pub fn get_start_options(
    config_path: String,
    auto_reload: bool,
    multi_thread: bool,
    auto_threads: bool,
    threads: usize,
    stack_size: usize,
) -> (o: StartOptions)
    ensures
        o.config == ConfigSource::File(config_path),
        o.auto_reload == auto_reload,
        o.runtime_opt == runtime_for(multi_thread, auto_threads, threads, stack_size),
        !o.routing_history_enabled,
        o.routing_history_max_records == 0,
{
    let runtime_opt = if !multi_thread {
        RuntimeOption::SingleThread
    } else if auto_threads {
        RuntimeOption::MultiThreadAuto(stack_size)
    } else {
        RuntimeOption::MultiThread(threads, stack_size)
    };
    StartOptions {
        config: ConfigSource::File(config_path),
        auto_reload,
        runtime_opt,
        routing_history_enabled: false,
        routing_history_max_records: 0,
    }
}

/// The options of a single-threaded run from a configuration file
/// (`leaf_run`).
pub fn file_start_options(config_path: String) -> (o: StartOptions)
    ensures
        o.config == ConfigSource::File(config_path),
        !o.auto_reload,
        o.runtime_opt == RuntimeOption::SingleThread,
        !o.routing_history_enabled,
        o.routing_history_max_records == 0,
{
    StartOptions {
        config: ConfigSource::File(config_path),
        auto_reload: false,
        runtime_opt: RuntimeOption::SingleThread,
        routing_history_enabled: false,
        routing_history_max_records: 0,
    }
}

/// The options of a single-threaded run from configuration text, with the
/// routing history settings given (`leaf_run_with_config_string`).
pub fn string_start_options(config: String, routing_history_enabled: bool, routing_history_max_records: u32) -> (o: StartOptions)
    ensures
        o.config == ConfigSource::Str(config),
        !o.auto_reload,
        o.runtime_opt == RuntimeOption::SingleThread,
        o.routing_history_enabled == routing_history_enabled,
        o.routing_history_max_records == routing_history_max_records,
{
    StartOptions {
        config: ConfigSource::Str(config),
        auto_reload: false,
        runtime_opt: RuntimeOption::SingleThread,
        routing_history_enabled,
        routing_history_max_records: routing_history_max_records as usize,
    }
}

} // verus!
