//! The command line of `dft`: every command and its arguments, as plain
//! data that the decisions of the commands take.
use vstd::prelude::*;

verus! {

/// The whole command line: the global switches and the command.
#[derive(Debug, Clone)]
pub struct Cli {
    /// Show verbose output and debug traces
    pub verbose: bool,
    /// Suppress non-error output
    pub quiet: bool,
    /// Format command output as structured JSON
    pub json: bool,
    pub command: Commands,
}

/// The commands of `dft`.
#[derive(Debug, Clone)]
pub enum Commands {
    /// Initialize a new Daft repository
    Init(InitArgs),
    /// Clone a repository into a new directory
    Clone(CloneArgs),
    /// Get and set repository or global options
    Config(ConfigArgs),
    /// Add file contents to the staging index
    Add(AddArgs),
    /// Show the working tree and staging status
    Status(StatusArgs),
    /// Record staged changes to the repository
    Commit(CommitArgs),
    /// Reset current HEAD to the specified state
    Reset(ResetArgs),
    /// Restore working tree or staged files
    Restore(RestoreArgs),
    /// Remove files from the working tree and index
    Rm(RmArgs),
    /// Move or rename a file, directory, or symlink
    Mv(MvArgs),
    /// Remove untracked files from the working tree
    Clean(CleanArgs),
    /// Stash the changes in a dirty working directory away
    Stash(StashArgs),
    /// List, create, or delete branches
    Branch(BranchArgs),
    /// Switch branches or restore working tree files
    Checkout(CheckoutArgs),
    /// Switch branches
    Switch(SwitchArgs),
    /// Join two or more development histories together
    Merge(MergeArgs),
    /// Reapply commits on top of another base tip
    Rebase(RebaseArgs),
    /// Apply the changes introduced by some existing commits
    CherryPick(CherryPickArgs),
    /// Create, list, delete or verify a tag object
    Tag(TagArgs),
    /// Show commit logs
    Log(LogArgs),
    /// Show changes between commits, commit and working tree, etc.
    Diff(DiffArgs),
    /// Show various types of objects
    Show(ShowArgs),
    /// Show what revision and author last modified each line of a file
    Blame(BlameArgs),
    /// Summarize 'dft log' output by author
    Shortlog(ShortlogArgs),
    /// Give an object a human readable name based on an available ref
    Describe(DescribeArgs),
    /// Print lines matching a pattern in tracked files
    Grep(GrepArgs),
    /// Use binary search to find the commit that introduced a bug
    Bisect(BisectArgs),
    /// Manage reflog information
    Reflog(ReflogArgs),
    /// Compute object ID and optionally create a blob
    HashObject(HashObjectArgs),
    /// Provide content or type and size information for repository objects
    CatFile(CatFileArgs),
    /// Create a tree object from the current index
    WriteTree(WriteTreeArgs),
    /// Create a new commit object
    CommitTree(CommitTreeArgs),
    /// List the contents of a tree object
    LsTree(LsTreeArgs),
    /// Show information about files in the index and working tree
    LsFiles(LsFilesArgs),
    /// Pick out and massage parameters
    RevParse(RevParseArgs),
    /// Update the object name stored in a ref safely
    UpdateRef(UpdateRefArgs),
    /// Read, modify and delete symbolic refs
    SymbolicRef(SymbolicRefArgs),
    /// Cleanup unnecessary files and optimize the local repository
    Gc(GcArgs),
    /// Verify the connectivity and validity of the objects in the database
    Fsck(FsckArgs),
    /// Prune all unreachable objects from the object database
    Prune(PruneArgs),
    /// Pack unpacked objects in a repository
    Repack(RepackArgs),
    /// Count unpacked objects and display disk consumption
    CountObjects(CountObjectsArgs),
    /// Manage parallel dimension workspaces
    Dimension(DimensionArgs),
    /// Manage immutable dimension snapshots
    Snapshot(SnapshotArgs),
    /// Inspect other dimensions non-destructively
    Observe(ObserveArgs),
    /// Cross-dimension activity radar and hot-zone detection
    Radar(RadarArgs),
    /// Predict merge conflicts before merging
    Foresee(ForeseeArgs),
    /// Detect concurrently modified files across dimensions
    Overlap(OverlapArgs),
    /// Measure mathematical divergence entropy between dimensions
    Entropy(EntropyArgs),
    /// Claim exclusive ownership of a file or directory path
    Claim(ClaimArgs),
    /// Release a claimed path
    Yield(YieldArgs),
    /// Place a hard modification barrier on a file or directory path
    Fence(FenceArgs),
    /// Display or audit the territory ownership map
    Territory(TerritoryArgs),
    /// Collapse parallel dimensions into a single mainline history
    Collapse(CollapseArgs),
    /// Merge multiple selected dimensions together into a unified target
    Converge(ConvergeArgs),
    /// Propagate changes through a chain of dependent dimensions
    Cascade(CascadeArgs),
    /// Interleave commits from two dimensions in chronological order
    Weave(WeaveArgs),
    /// Transplant a slice of commits from one dimension to another
    Splice(SpliceArgs),
    /// Manage live entanglement sync rules between dimensions
    Entangle(EntangleArgs),
    /// Manage the Cronos autonomous background synchronization daemon
    Cronos(CronosArgs),
    /// Manage multi-agent identities, assignments, mailboxes, and heartbeats
    Agent(AgentArgs),
    /// Report agent heartbeat to record liveness
    Heartbeat(HeartbeatArgs),
    /// Visualize and export the multiverse timeline graph
    Timeline(TimelineArgs),
    /// Manage tracked remote repositories
    Remote(RemoteArgs),
    /// Download objects and refs from another repository
    Fetch(FetchArgs),
    /// Fetch from and integrate with another repository or branch
    Pull(PullArgs),
    /// Update remote refs along with associated objects
    Push(PushArgs),
    /// Move objects and refs by archive
    Bundle(BundleArgs),
    /// Export Daft dimensions or repositories to external formats
    Export(ExportArgs),
    /// Import external repositories into Daft
    Import(ImportArgs),
    /// Manage backward compatibility and bridge daemons
    Compat(CompatArgs),
    /// Launch the interactive real-time Daft Multiverse Web GUI
    Ui(UiArgs),
}

/// The arguments of `dft init`: initialize a new Daft repository.
#[derive(Debug, Clone)]
pub struct InitArgs {
    /// Directory where the repository will be created
    pub directory: Option<String>,
    /// Create a bare repository without a working directory
    pub bare: bool,
    /// Use the specified name for the initial branch
    pub initial_branch: String,
}

/// The arguments of `dft clone`: clone a repository into a new directory.
#[derive(Debug, Clone)]
pub struct CloneArgs {
    /// The repository to clone from
    pub repository: String,
    /// The name of a new directory to clone into
    pub directory: Option<String>,
}

/// The arguments of `dft config`: get and set repository or global options.
#[derive(Debug, Clone)]
pub struct ConfigArgs {
    /// Get the value for a given key
    pub get: Option<String>,
    /// Set the value for a given key
    pub set: Option<Vec<String>>,
    /// List all variables set in config file
    pub list: bool,
    /// Remove a variable from config file
    pub unset: Option<String>,
}

/// The arguments of `dft add`: add file contents to the staging index.
#[derive(Debug, Clone)]
pub struct AddArgs {
    /// Files or directories to stage (use '.' for all in current directory)
    pub pathspecs: Vec<String>,
    /// Stage all tracked and untracked changes
    pub all: bool,
    /// Stage only modified and deleted tracked files
    pub update: bool,
}

/// The arguments of `dft status`: show the working tree and staging status.
#[derive(Debug, Clone)]
pub struct StatusArgs {
    /// Give output in short format
    pub short: bool,
}

/// The arguments of `dft commit`: record staged changes to the repository.
#[derive(Debug, Clone)]
pub struct CommitArgs {
    /// Commit message
    pub message: Option<String>,
    /// Automatically stage files that have been modified and deleted
    pub all: bool,
    /// Record commit even when index has no staged changes
    pub allow_empty: bool,
    /// Override the commit author (format: 'Name <email>')
    pub author: Option<String>,
}

/// The arguments of `dft reset`: reset current HEAD to the specified state.
#[derive(Debug, Clone)]
pub struct ResetArgs {
    /// Commit to reset to
    pub target: String,
    /// Do not touch the index file or the working tree at all
    pub soft: bool,
    /// Resets the index but not the working tree (default)
    pub mixed: bool,
    /// Resets the index and working tree
    pub hard: bool,
}

/// The arguments of `dft restore`: restore working tree or staged files.
#[derive(Debug, Clone)]
pub struct RestoreArgs {
    /// Files to restore
    pub paths: Vec<String>,
    /// Restore the index
    pub staged: bool,
    /// Restore the working tree
    pub worktree: bool,
    /// Restore the working tree files with the content from the given tree
    pub source: Option<String>,
}

/// The arguments of `dft rm`: remove files from the working tree and index.
#[derive(Debug, Clone)]
pub struct RmArgs {
    /// Files to remove
    pub paths: Vec<String>,
    /// Override the up-to-date check
    pub force: bool,
    /// Allow recursive removal when a leading directory name is given
    pub recursive: bool,
    /// Unstage and remove paths only from the index
    pub cached: bool,
}

/// The arguments of `dft mv`: move or rename a file, directory, or symlink.
#[derive(Debug, Clone)]
pub struct MvArgs {
    /// Source file/directory
    pub source: String,
    /// Destination file/directory
    pub destination: String,
    /// Force move/rename even if target exists
    pub force: bool,
}

/// The arguments of `dft clean`: remove untracked files from the working tree.
#[derive(Debug, Clone)]
pub struct CleanArgs {
    /// Required to actually delete files
    pub force: bool,
    /// Don't actually remove anything, just show what would be done
    pub dry_run: bool,
    /// Remove untracked directories in addition to untracked files
    pub directories: bool,
}

/// The arguments of `dft stash`: stash the changes in a dirty working directory away.
#[derive(Debug, Clone)]
pub struct StashArgs {
    pub action: Option<StashAction>,
    /// Optional message for stash push
    pub message: Option<String>,
}

/// The actions of `dft stash`.
#[derive(Debug, Clone)]
pub enum StashAction {
    /// Save your local modifications to a new stash
    Push {
        /// Stash message
        message: Option<String>,
    },
    /// Remove a single stashed state from the stash list and apply it on top of the current working tree
    Pop {
        /// Index of stash to pop
        index: usize,
    },
    /// Apply a stashed state without dropping it
    Apply {
        /// Index of stash to apply
        index: usize,
    },
    /// List the stashes that you currently have
    List,
    /// Remove a single stashed state from the stash list
    Drop {
        /// Index of stash to drop
        index: usize,
    },
    /// Remove all the stashed states
    Clear,
}

/// The arguments of `dft branch`: list, create, or delete branches.
#[derive(Debug, Clone)]
pub struct BranchArgs {
    /// Branch name to create
    pub name: Option<String>,
    /// Delete a branch
    pub delete: Option<String>,
    /// Force delete a branch
    pub force_delete: Option<String>,
    /// Move/rename a branch
    pub rename: Option<Vec<String>>,
    /// List both remote and local branches
    pub all: bool,
}

/// The arguments of `dft checkout`: switch branches or restore working tree files.
#[derive(Debug, Clone)]
pub struct CheckoutArgs {
    /// Branch or revision to checkout
    pub target: Option<String>,
    /// Create and checkout a new branch
    pub create_branch: Option<String>,
    /// Paths to restore from tree
    pub paths: Vec<String>,
}

/// The arguments of `dft switch`: switch branches.
#[derive(Debug, Clone)]
pub struct SwitchArgs {
    /// Target branch name
    pub branch: Option<String>,
    /// Create and switch to a new branch
    pub create: Option<String>,
    /// Switch to commit in detached HEAD state
    pub detach: bool,
}

/// The arguments of `dft merge`: join two or more development histories together.
#[derive(Debug, Clone)]
pub struct MergeArgs {
    /// Branch or commit to merge into current branch
    pub target: Option<String>,
    /// Commit message for merge commit
    pub message: Option<String>,
    /// Abort the current conflict resolution process
    pub abort: bool,
    /// Merge strategy ('recursive', 'ours', 'theirs')
    pub strategy: String,
}

/// The arguments of `dft rebase`: reapply commits on top of another base tip.
#[derive(Debug, Clone)]
pub struct RebaseArgs {
    /// Upstream branch to compare against
    pub upstream: String,
    /// Working branch to rebase
    pub branch: Option<String>,
}

/// The arguments of `dft cherry-pick`: apply the changes introduced by some existing commits.
#[derive(Debug, Clone)]
pub struct CherryPickArgs {
    /// Commit to cherry-pick
    pub commit: String,
}

/// The arguments of `dft tag`: create, list, delete or verify a tag object.
#[derive(Debug, Clone)]
pub struct TagArgs {
    /// Tag name to create
    pub name: Option<String>,
    /// Target commit (defaults to HEAD)
    pub target: Option<String>,
    /// Make an unsigned, annotated tag object
    pub annotate: bool,
    /// Tag message
    pub message: Option<String>,
    /// Delete a tag
    pub delete: Option<String>,
    /// List tags
    pub list: bool,
}

/// The arguments of `dft log`: show commit logs.
#[derive(Debug, Clone)]
pub struct LogArgs {
    /// Revision or range to inspect (e.g. 'HEAD', 'main', 'A..B')
    pub revision_range: Option<String>,
    /// Shorthand for '--pretty=oneline --abbrev-commit'
    pub oneline: bool,
    /// Limit the number of commits to output
    pub max_count: Option<usize>,
    /// Draw a graphical representation of the commit history
    pub graph: bool,
}

/// The arguments of `dft diff`: show changes between commits, commit and working tree, etc.
#[derive(Debug, Clone)]
pub struct DiffArgs {
    /// Revisions to compare (e.g. 'HEAD~1 HEAD')
    pub revisions: Vec<String>,
    /// View changes staged for next commit
    pub staged: bool,
    /// Generate a diffstat
    pub stat: bool,
}

/// The arguments of `dft show`: show various types of objects.
#[derive(Debug, Clone)]
pub struct ShowArgs {
    /// Object to show (defaults to HEAD)
    pub object: Option<String>,
}

/// The arguments of `dft blame`: show what revision and author last modified each line of a file.
#[derive(Debug, Clone)]
pub struct BlameArgs {
    /// Path to file to blame
    pub file: String,
    /// Annotate only the given line range <start>,<end>
    pub line_range: Option<String>,
}

/// The arguments of `dft shortlog`: summarize 'dft log' output by author.
#[derive(Debug, Clone)]
pub struct ShortlogArgs {
    /// Suppress commit descriptions and provide a commit count summary only
    pub summary: bool,
    /// Sort output according to the number of commits per author
    pub numbered: bool,
}

/// The arguments of `dft describe`: give an object a human readable name based on an available ref.
#[derive(Debug, Clone)]
pub struct DescribeArgs {
    /// Commit expression to describe (defaults to HEAD)
    pub commit: Option<String>,
}

/// The arguments of `dft grep`: print lines matching a pattern in tracked files.
#[derive(Debug, Clone)]
pub struct GrepArgs {
    /// Search pattern
    pub pattern: String,
    /// Path limits
    pub pathspecs: Vec<String>,
    /// Prefix the line number to matching lines
    pub line_number: bool,
    /// Ignore case differences between pattern and files
    pub ignore_case: bool,
}

/// The arguments of `dft bisect`: use binary search to find the commit that introduced a bug.
#[derive(Debug, Clone)]
pub struct BisectArgs {
    pub args: Vec<String>,
}

/// The arguments of `dft reflog`: manage reflog information.
#[derive(Debug, Clone)]
pub struct ReflogArgs {
    /// Reference name (defaults to HEAD)
    pub ref_name: Option<String>,
    /// Number of entries to show
    pub count: Option<usize>,
}

/// The arguments of `dft hash-object`: compute object ID and optionally create a blob.
#[derive(Debug, Clone)]
pub struct HashObjectArgs {
    /// File to hash
    pub file: String,
    /// Actually write the object into the object database
    pub write: bool,
    /// Object type ('blob', 'tree', 'commit', 'tag')
    pub object_type: String,
}

/// The arguments of `dft cat-file`: provide content or type and size information for repository objects.
#[derive(Debug, Clone)]
pub struct CatFileArgs {
    /// Pretty-print the contents of <object> based on its type
    pub pretty: bool,
    /// Show the object type
    pub show_type: bool,
    /// Show the object size
    pub show_size: bool,
    /// The name of the object to show
    pub object: String,
}

/// The arguments of `dft write-tree`: create a tree object from the current index.
#[derive(Debug, Clone)]
pub struct WriteTreeArgs {}

/// The arguments of `dft commit-tree`: create a new commit object.
#[derive(Debug, Clone)]
pub struct CommitTreeArgs {
    /// Tree object ID
    pub tree: String,
    /// Commit message
    pub message: String,
    /// Parent commit ID(s)
    pub parents: Vec<String>,
}

/// The arguments of `dft ls-tree`: list the contents of a tree object.
#[derive(Debug, Clone)]
pub struct LsTreeArgs {
    /// Tree object ID
    pub tree: String,
    /// Recurse into sub-trees
    pub recursive: bool,
}

/// The arguments of `dft ls-files`: show information about files in the index and working tree.
#[derive(Debug, Clone)]
pub struct LsFilesArgs {
    /// Show staged contents' mode bits, object name and stage number
    pub stage: bool,
    /// Show unmerged files in the output
    pub unmerged: bool,
    /// Show other (untracked) files in the output
    pub others: bool,
}

/// The arguments of `dft rev-parse`: pick out and massage parameters.
#[derive(Debug, Clone)]
pub struct RevParseArgs {
    /// Revision specification to parse
    pub rev: Option<String>,
    /// Show the absolute path of the top-level working tree
    pub show_toplevel: bool,
    /// Check if inside a working tree
    pub is_inside_work_tree: bool,
}

/// The arguments of `dft update-ref`: update the object name stored in a ref safely.
#[derive(Debug, Clone)]
pub struct UpdateRefArgs {
    /// Reference name
    pub ref_name: String,
    /// New commit OID
    pub new_oid: String,
    /// Old commit OID (optional CAS check)
    pub old_oid: Option<String>,
}

/// The arguments of `dft symbolic-ref`: read, modify and delete symbolic refs.
#[derive(Debug, Clone)]
pub struct SymbolicRefArgs {
    /// Symbolic reference name
    pub name: String,
    /// Target reference to point to
    pub target: Option<String>,
}

/// The arguments of `dft gc`: cleanup unnecessary files and optimize the local repository.
#[derive(Debug, Clone)]
pub struct GcArgs {
    /// Prune loose objects
    pub prune: bool,
}

/// The arguments of `dft fsck`: verify the connectivity and validity of the objects in the database.
#[derive(Debug, Clone)]
pub struct FsckArgs {
    /// Check all objects, not just unreachable ones
    pub full: bool,
}

/// The arguments of `dft prune`: prune all unreachable objects from the object database.
#[derive(Debug, Clone)]
pub struct PruneArgs {}

/// The arguments of `dft repack`: pack unpacked objects in a repository.
#[derive(Debug, Clone)]
pub struct RepackArgs {}

/// The arguments of `dft count-objects`: count unpacked objects and display disk consumption.
#[derive(Debug, Clone)]
pub struct CountObjectsArgs {}

/// The arguments of `dft dimension`: manage parallel dimension workspaces.
#[derive(Debug, Clone)]
pub struct DimensionArgs {
    pub action: DimensionAction,
}

/// The actions of `dft dimension`.
#[derive(Debug, Clone)]
pub enum DimensionAction {
    /// Create a new parallel dimension workspace
    Create {
        /// Name of dimension
        name: String,
        /// Source branch, tag, or commit OID
        from: Option<String>,
    },
    /// List all active dimensions
    List,
    /// Switch active context to specified dimension
    Enter {
        /// Name of dimension to enter
        name: String,
    },
    /// Destroy dimension workspace
    Destroy {
        /// Name of dimension to destroy
        name: String,
        /// Force destruction of active or dirty dimension
        force: bool,
    },
    /// Fork live uncommitted state into new dimension
    Fork {
        /// New dimension name
        name: String,
        /// Source dimension name
        from: String,
    },
    /// Take point-in-time snapshot of dimension
    Snapshot {
        /// Snapshot all dimensions
        all: bool,
        /// Dimension to snapshot
        name: Option<String>,
        /// Annotation description
        message: Option<String>,
    },
    /// Rename an existing dimension
    Rename {
        /// Old dimension name
        old_name: String,
        /// New dimension name
        new_name: String,
    },
    /// Display detailed dimension metadata and resource usage
    Info {
        /// Dimension name
        name: String,
    },
}

/// The arguments of `dft snapshot`: manage immutable dimension snapshots.
#[derive(Debug, Clone)]
pub struct SnapshotArgs {
    pub action: SnapshotAction,
}

/// The actions of `dft snapshot`.
#[derive(Debug, Clone)]
pub enum SnapshotAction {
    /// Create a new snapshot of dimension state
    Create {
        /// Name of the snapshot
        name: String,
        /// Target dimension (defaults to active)
        dimension: Option<String>,
        /// Description / annotation
        message: Option<String>,
    },
    /// List snapshots
    List {
        /// Filter by dimension (shows all if omitted)
        dimension: Option<String>,
        /// Output machine-readable tab-separated values
        porcelain: bool,
    },
    /// Restore dimension workspace to snapshot state
    Restore {
        /// Name or ID of snapshot to restore
        name: String,
        /// Target dimension (defaults to active)
        dimension: Option<String>,
        /// Force restore even if working tree is dirty
        force: bool,
    },
    /// Delete a snapshot
    Delete {
        /// Name or ID of snapshot to delete
        name: String,
        /// Target dimension (defaults to active)
        dimension: Option<String>,
    },
}

/// The arguments of `dft observe`: inspect other dimensions non-destructively.
#[derive(Debug, Clone)]
pub struct ObserveArgs {
    pub args: Vec<String>,
}

/// The arguments of `dft radar`: cross-dimension activity radar and hot-zone detection.
#[derive(Debug, Clone)]
pub struct RadarArgs {
    /// Specific path to inspect
    pub path: Option<String>,
    /// Show concurrently modified hot zones
    pub hot: bool,
}

/// The arguments of `dft foresee`: predict merge conflicts before merging.
#[derive(Debug, Clone)]
pub struct ForeseeArgs {
    /// First dimension
    pub dim1: Option<String>,
    /// Second dimension
    pub dim2: Option<String>,
}

/// The arguments of `dft overlap`: detect concurrently modified files across dimensions.
#[derive(Debug, Clone)]
pub struct OverlapArgs {}

/// The arguments of `dft entropy`: measure mathematical divergence entropy between dimensions.
#[derive(Debug, Clone)]
pub struct EntropyArgs {
    /// First dimension
    pub dim1: String,
    /// Second dimension
    pub dim2: String,
}

/// The arguments of `dft claim`: claim exclusive ownership of a file or directory path.
#[derive(Debug, Clone)]
pub struct ClaimArgs {
    /// Path to claim exclusive ownership
    pub path: String,
    /// Claiming dimension
    pub dimension: Option<String>,
}

/// The arguments of `dft yield`: release a claimed path.
#[derive(Debug, Clone)]
pub struct YieldArgs {
    /// Path to release ownership
    pub path: String,
}

/// The arguments of `dft fence`: place a hard modification barrier on a file or directory path.
#[derive(Debug, Clone)]
pub struct FenceArgs {
    /// Path to place a barrier on
    pub path: String,
    /// Hard barrier blocking edits
    pub hard: bool,
}

/// The arguments of `dft territory`: display or audit the territory ownership map.
#[derive(Debug, Clone)]
pub struct TerritoryArgs {
    pub args: Vec<String>,
}

/// The arguments of `dft collapse`: collapse parallel dimensions into a single mainline history.
#[derive(Debug, Clone)]
pub struct CollapseArgs {
    /// Target dimension to collapse into
    pub into: Option<String>,
    /// Merge strategy
    pub strategy: Option<String>,
}

/// The arguments of `dft converge`: merge multiple selected dimensions together into a unified target.
#[derive(Debug, Clone)]
pub struct ConvergeArgs {
    /// Dimensions to converge
    pub dimensions: Vec<String>,
    /// Target dimension name
    pub into: Option<String>,
}

/// The arguments of `dft cascade`: propagate changes through a chain of dependent dimensions.
#[derive(Debug, Clone)]
pub struct CascadeArgs {
    /// Source dimension
    pub dimension: String,
    /// Target dimension
    pub to: Option<String>,
}

/// The arguments of `dft weave`: interleave commits from two dimensions in chronological order.
#[derive(Debug, Clone)]
pub struct WeaveArgs {
    /// First dimension
    pub dim1: String,
    /// Second dimension
    pub dim2: String,
}

/// The arguments of `dft splice`: transplant a slice of commits from one dimension to another.
#[derive(Debug, Clone)]
pub struct SpliceArgs {
    /// Source dimension
    pub dimension: String,
    /// Commit range
    pub range: String,
    /// Target dimension
    pub into: String,
}

/// The arguments of `dft entangle`: manage live entanglement sync rules between dimensions.
#[derive(Debug, Clone)]
pub struct EntangleArgs {
    pub args: Vec<String>,
    /// Path pattern filter
    pub paths: Option<String>,
}

/// The arguments of `dft cronos`: manage the Cronos autonomous background synchronization daemon.
#[derive(Debug, Clone)]
pub struct CronosArgs {
    pub args: Vec<String>,
}

/// The arguments of `dft agent`: manage multi-agent identities, assignments, mailboxes, and heartbeats.
#[derive(Debug, Clone)]
pub struct AgentArgs {
    pub args: Vec<String>,
    /// Agent type: 'ai' or 'human'
    pub agent_type: Option<String>,
}

/// The arguments of `dft heartbeat`: report agent heartbeat to record liveness.
#[derive(Debug, Clone)]
pub struct HeartbeatArgs {
    pub args: Vec<String>,
}

/// The arguments of `dft timeline`: visualize and export the multiverse timeline graph.
#[derive(Debug, Clone)]
pub struct TimelineArgs {
    /// Dimension name
    pub dimension: Option<String>,
    /// Show ancestry links
    pub ancestry: bool,
    pub args: Vec<String>,
    /// Export format: dot, json, svg
    pub format: Option<String>,
}

/// The arguments of `dft remote`: manage tracked remote repositories.
#[derive(Debug, Clone)]
pub struct RemoteArgs {
    pub args: Vec<String>,
    /// Be more verbose
    pub verbose: bool,
}

/// The arguments of `dft fetch`: download objects and refs from another repository.
#[derive(Debug, Clone)]
pub struct FetchArgs {
    pub args: Vec<String>,
}

/// The arguments of `dft pull`: fetch from and integrate with another repository or branch.
#[derive(Debug, Clone)]
pub struct PullArgs {
    pub args: Vec<String>,
}

/// The arguments of `dft push`: update remote refs along with associated objects.
#[derive(Debug, Clone)]
pub struct PushArgs {
    pub args: Vec<String>,
}

/// The arguments of `dft bundle`: move objects and refs by archive.
#[derive(Debug, Clone)]
pub struct BundleArgs {
    pub args: Vec<String>,
}

/// The arguments of `dft export`: export Daft dimensions or repositories to external formats.
#[derive(Debug, Clone)]
pub struct ExportArgs {
    /// Target format, e.g. 'git'
    pub format: String,
    /// Dimension to export
    pub dimension: Option<String>,
}

/// The arguments of `dft import`: import external repositories into Daft.
#[derive(Debug, Clone)]
pub struct ImportArgs {
    /// Source format, e.g. 'git'
    pub format: String,
}

/// The arguments of `dft compat`: manage backward compatibility and bridge daemons.
#[derive(Debug, Clone)]
pub struct CompatArgs {
    /// Bridge type, e.g. 'git-bridge'
    pub bridge: String,
}

/// The arguments of `dft ui`: launch the interactive real-time Daft Multiverse Web GUI.
#[derive(Debug, Clone)]
pub struct UiArgs {
    /// Port to listen on
    pub port: u16,
    /// Host/IP address to bind to
    pub host: String,
    /// Do not automatically open the browser
    pub no_browser: bool,
}

} // verus!
