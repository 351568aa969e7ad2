//! The commands of the program, as values: what was asked for, and what the
//! program has to do about it.
use crate::text::append;
use vstd::prelude::*;

verus! {

/// The port that `run` listens on where none is given.
pub const DEFAULT_PORT: u16 = 3000;

/// `init`: start a new project.
#[derive(Debug, Clone, Copy, PartialEq, Eq, Structural)]
pub struct InitOpts {}

/// `build`: build the project in the working directory.
#[derive(Debug, Clone, Copy, PartialEq, Eq, Structural)]
pub struct BuildOpts {}

/// `run`: build the project, serve it and watch its sources.
#[derive(Debug, Clone, Copy, PartialEq, Eq, Structural)]
pub struct RunOpts {
    pub port: u16,
}

impl Default for RunOpts {
    fn default() -> (opts: RunOpts)
        ensures
            opts.port == DEFAULT_PORT,
    {
        RunOpts { port: DEFAULT_PORT }
    }
}

/// One of the three commands.
#[derive(Debug, Clone, Copy, PartialEq, Eq, Structural)]
pub enum SubCommand {
    Init(InitOpts),
    Build(BuildOpts),
    Run(RunOpts),
}

/// The program's arguments.
#[derive(Debug, Clone, Copy, PartialEq, Eq, Structural)]
pub struct Opts {
    pub cmd: SubCommand,
}

/// What the program has to do.
#[derive(Debug, Clone, Copy, PartialEq, Eq, Structural)]
pub enum Task {
    /// Ask for a name and lay out a new project.
    Scaffold,
    /// Build the project and print the artifact's path.
    Build,
    /// Build the project, then serve it on this port and watch its sources.
    Serve { port: u16 },
}

/// A command knows the task it stands for.
pub trait CmdExecutor: Sized {
    /// The task of the command.
    spec fn task(&self) -> Task;

    /// Hands out the task of the command.
    fn execute(self) -> (task: Task)
        ensures
            task == self.task(),
    ;
}

impl CmdExecutor for InitOpts {
    open spec fn task(&self) -> Task {
        Task::Scaffold
    }

    fn execute(self) -> (task: Task) {
        Task::Scaffold
    }
}

impl CmdExecutor for BuildOpts {
    open spec fn task(&self) -> Task {
        Task::Build
    }

    fn execute(self) -> (task: Task) {
        Task::Build
    }
}

impl CmdExecutor for RunOpts {
    open spec fn task(&self) -> Task {
        Task::Serve { port: self.port }
    }

    fn execute(self) -> (task: Task) {
        Task::Serve { port: self.port }
    }
}

impl CmdExecutor for SubCommand {
    open spec fn task(&self) -> Task {
        match self {
            SubCommand::Init(opts) => opts.task(),
            SubCommand::Build(opts) => opts.task(),
            SubCommand::Run(opts) => opts.task(),
        }
    }

    fn execute(self) -> (task: Task) {
        match self {
            SubCommand::Init(opts) => opts.execute(),
            SubCommand::Build(opts) => opts.execute(),
            SubCommand::Run(opts) => opts.execute(),
        }
    }
}

/// The directory in which a new project is laid out: the working directory
/// where that is empty, else a directory of the project's name in it.
pub open spec fn project_dir_spec(name: Seq<char>, cwd_is_empty: bool) -> Seq<char> {
    if cwd_is_empty {
        "."@
    } else {
        "./"@ + name
    }
}

/// The directory in which a new project is laid out.
pub fn project_dir(name: &str, cwd_is_empty: bool) -> (dir: String)
    ensures
        dir@ == project_dir_spec(name@, cwd_is_empty),
{
    if cwd_is_empty {
        ".".to_owned()
    } else {
        append("./", name)
    }
}

} // verus!
