use vstd::prelude::*;

verus! {

/// Spec-level image of a `Command`: the argument views and the two optional
/// descriptors as mathematical integers.
#[verifier::ext_equal]
pub struct StageS {
    pub args: Seq<Seq<char>>,
    pub infd: Option<int>,
    pub outfd: Option<int>,
}

pub open spec fn fd_view(fd: Option<i32>) -> Option<int> {
    match fd {
        Some(f) => Some(f as int),
        None => None,
    }
}

/// One stage of a pipeline: an argument vector whose first entry is the
/// program name, and the optional input/output descriptors. An absent
/// descriptor means the stage inherits the shell's own stdin/stdout.
pub struct Command {
    pub argv: Vec<String>,
    pub infd: Option<i32>,
    pub outfd: Option<i32>,
}

impl View for Command {
    type V = StageS;

    open spec fn view(&self) -> StageS {
        StageS {
            args: self.argv.deep_view(),
            infd: fd_view(self.infd),
            outfd: fd_view(self.outfd),
        }
    }
}

impl DeepView for Command {
    type V = StageS;

    open spec fn deep_view(&self) -> StageS {
        self.view()
    }
}

impl Command {
    /// A stage that inherits both standard descriptors.
    pub fn new(argv: Vec<String>) -> (c: Command)
        ensures
            c.argv == argv,
            c.infd == None::<i32>,
            c.outfd == None::<i32>,
    {
        Command { argv, infd: None, outfd: None }
    }

    /// A stage with explicit input and output descriptors.
    pub fn from_fd(argv: Vec<String>, infd: Option<i32>, outfd: Option<i32>) -> (c: Command)
        ensures
            c.argv == argv,
            c.infd == infd,
            c.outfd == outfd,
    {
        Command { argv, infd, outfd }
    }

    pub fn get_infd(&self) -> (fd: &Option<i32>)
        ensures
            *fd == self.infd,
    {
        &self.infd
    }

    pub fn get_outfd(&self) -> (fd: &Option<i32>)
        ensures
            *fd == self.outfd,
    {
        &self.outfd
    }

    /// Back-patches the output descriptor, leaving everything else unchanged.
    pub fn change_outfd(&mut self, outfd: Option<i32>)
        ensures
            final(self).argv == old(self).argv,
            final(self).infd == old(self).infd,
            final(self).outfd == outfd,
    {
        self.outfd = outfd;
    }
}

pub open spec fn pipes_view(p: Seq<(i32, i32)>) -> Seq<(int, int)> {
    p.map_values(|q: (i32, i32)| (q.0 as int, q.1 as int))
}

/// Spec-level image of a `Pipeline`.
#[verifier::ext_equal]
pub struct PipelineS {
    pub stages: Seq<StageS>,
    pub pipes: Seq<(int, int)>,
}

/// Everything the builder derives from one input line: the ordered stages and
/// the registry of pipe descriptor pairs (read end, write end) it allocated.
pub struct Pipeline {
    pub stages: Vec<Command>,
    pub pipes: Vec<(i32, i32)>,
}

impl View for Pipeline {
    type V = PipelineS;

    open spec fn view(&self) -> PipelineS {
        PipelineS { stages: self.stages.deep_view(), pipes: pipes_view(self.pipes@) }
    }
}

} // verus!
