//! The command line's arguments as the library takes them.
use std::path::PathBuf;
use vstd::prelude::*;

verus! {

/// A file system path, carried through the library as it is.
#[verifier::external_type_specification]
#[verifier::external_body]
pub struct ExPathBuf(PathBuf);

/// The command line: one command.
#[derive(Debug)]
pub struct Cli {
    pub command: Command,
}

/// The commands of the command line.
#[derive(Debug)]
pub enum Command {
    Spike(SpikeCommand),
    Index(IndexCommand),
    FileOverlay(FileOverlayArgs),
    TraceBlock(TraceBlockArgs),
    ExportBindings(ExportBindingsArgs),
}

/// Where to write the generated type bindings.
#[derive(Debug)]
pub struct ExportBindingsArgs {
    pub out: PathBuf,
}

/// The spike commands.
#[derive(Debug)]
pub struct SpikeCommand {
    pub command: SpikeSubcommand,
}

/// The spike subcommands.
#[derive(Debug)]
pub enum SpikeSubcommand {
    Run(SpikeRunArgs),
}

/// The index commands.
#[derive(Debug)]
pub struct IndexCommand {
    pub command: IndexSubcommand,
}

/// The index subcommands.
#[derive(Debug)]
pub enum IndexSubcommand {
    Status(IndexStatusArgs),
    Build(IndexBuildArgs),
    QueryFiles(QueryFilesArgs),
}

/// The arguments every index command takes.
#[derive(Debug)]
pub struct IndexCommonArgs {
    pub repo: PathBuf,
    pub db: Option<PathBuf>,
    pub format: OutputFormat,
    pub pretty: bool,
}

/// The arguments of `index status`.
#[derive(Debug)]
pub struct IndexStatusArgs {
    pub common: IndexCommonArgs,
}

/// The arguments of `index build`.
#[derive(Debug)]
pub struct IndexBuildArgs {
    pub common: IndexCommonArgs,
    pub branch: String,
}

/// The arguments of `index query-files`.
#[derive(Debug)]
pub struct QueryFilesArgs {
    pub common: IndexCommonArgs,
    pub base: String,
    pub head: String,
    pub branch: String,
    pub authors: Vec<String>,
    pub author_query: Option<String>,
    pub message: Option<String>,
    pub since: Option<String>,
    pub until: Option<String>,
    pub globs: Vec<String>,
}

/// The arguments every overlay command takes.
#[derive(Debug)]
pub struct OverlayCommonArgs {
    pub repo: PathBuf,
    pub db: Option<PathBuf>,
    pub base: String,
    pub head: String,
    pub branch: String,
    pub globs: Vec<String>,
    pub authors: Vec<String>,
    pub author_query: Option<String>,
    pub message: Option<String>,
    pub require_index: bool,
    pub format: OutputFormat,
    pub pretty: bool,
}

/// The arguments of `file-overlay`.
#[derive(Debug)]
pub struct FileOverlayArgs {
    pub common: OverlayCommonArgs,
    pub file: String,
}

/// The arguments of `trace-block`.
#[derive(Debug)]
pub struct TraceBlockArgs {
    pub common: OverlayCommonArgs,
    pub file: String,
    pub block_id: Option<String>,
    pub old_start: Option<usize>,
    pub old_end: Option<usize>,
    pub new_start: Option<usize>,
    pub new_end: Option<usize>,
}

/// The arguments of `spike run`.
#[derive(Debug)]
pub struct SpikeRunArgs {
    pub repo: PathBuf,
    pub fixture: SpikeFixture,
    pub format: OutputFormat,
    pub pretty: bool,
}

/// The fixture repositories the spike knows.
#[derive(Debug, Clone, Copy, PartialEq, Eq, Structural)]
pub enum SpikeFixture {
    Linear,
    EarlyFeatureMerge,
    MergeConflict,
    MultiParentAmbiguous,
    RenameMerge,
    DeletionMerge,
}

/// The output formats.
#[derive(Debug, Clone, Copy, PartialEq, Eq, Structural)]
pub enum OutputFormat {
    Json,
}

} // verus!
