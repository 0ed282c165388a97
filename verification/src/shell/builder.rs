use vstd::prelude::*;

use crate::shell::command::{fd_view, pipes_view, Command, Pipeline, StageS};

verus! {

/// The kinds of error the builder can report while it consumes one line:
/// the parse-time resource errors, directory-change errors and pipe-creation
/// errors of the error taxonomy. Each carries the path it concerns where one
/// exists, so a caller can branch on the kind rather than on message text.
pub enum BuildError {
    /// The directory change requested by `cd` failed.
    CdFailed(String),
    /// A redirection target could not be opened.
    OpenFailed(String),
    /// A redirection operator arrived with no path token after it.
    MissingTarget,
    /// A pipe token arrived with no pending arguments and no previous stage.
    NoCommandBeforePipe,
    /// The OS refused to allocate a pipe.
    PipeFailed,
}

/// Spec-level image of `BuildError`.
pub enum BuildErrorS {
    CdFailed(Seq<char>),
    OpenFailed(Seq<char>),
    MissingTarget,
    NoCommandBeforePipe,
    PipeFailed,
}

impl View for BuildError {
    type V = BuildErrorS;

    open spec fn view(&self) -> BuildErrorS {
        match self {
            BuildError::CdFailed(p) => BuildErrorS::CdFailed(p@),
            BuildError::OpenFailed(p) => BuildErrorS::OpenFailed(p@),
            BuildError::MissingTarget => BuildErrorS::MissingTarget,
            BuildError::NoCommandBeforePipe => BuildErrorS::NoCommandBeforePipe,
            BuildError::PipeFailed => BuildErrorS::PipeFailed,
        }
    }
}

impl DeepView for BuildError {
    type V = BuildErrorS;

    open spec fn deep_view(&self) -> BuildErrorS {
        self.view()
    }
}

/// One step of the builder, with the outcome of whatever outside call the
/// step required folded in as data: descriptor values and success bits are
/// exactly what the OS answered, and the builder is specified for every
/// possible answer.
pub enum BuildEvent {
    /// An ordinary word token.
    Word(Seq<char>),
    /// A `*` token together with the directory listing it expands to.
    Star(Seq<Seq<char>>),
    /// A `cd` token: the chosen target path and whether chdir succeeded.
    Cd { path: Seq<char>, ok: bool },
    /// A `<` token with its path and the result of opening it for reading.
    RedirIn { path: Seq<char>, fd: Option<int> },
    /// A `<` token with no path token after it.
    RedirInMissing,
    /// A `>` token with its path and the result of opening it for writing;
    /// `None` both when opening failed and when it was never attempted.
    RedirOut { path: Seq<char>, fd: Option<int> },
    /// A `>` token with no path token after it.
    RedirOutMissing,
    /// A `|` token with the freshly allocated pipe (read end, write end).
    PipeMade { r: int, w: int },
    /// A `|` token on which pipe allocation failed.
    PipeFailed,
    /// A `;` token, including the synthetic terminator.
    Semi,
}

/// Spec-level state of the builder midway through a line: the argument list
/// of the stage under construction, the carried input descriptor left over
/// from a pipe, the stages and pipe registry built so far, and the errors
/// reported so far.
#[verifier::ext_equal]
pub struct BState {
    pub args: Seq<Seq<char>>,
    pub carried: Option<int>,
    pub stages: Seq<StageS>,
    pub pipes: Seq<(int, int)>,
    pub errors: Seq<BuildErrorS>,
}

pub open spec fn init_state() -> BState {
    BState {
        args: Seq::empty(),
        carried: None,
        stages: Seq::empty(),
        pipes: Seq::empty(),
        errors: Seq::empty(),
    }
}

/// What one event does to the builder state. This is the heart of the
/// pipeline builder: every exec handler is proved equal to it.
pub open spec fn step(s: BState, e: BuildEvent) -> BState {
    match e {
        BuildEvent::Word(w) => BState { args: s.args.push(w), ..s },
        BuildEvent::Star(entries) => BState { args: s.args + entries, ..s },
        BuildEvent::Cd { path, ok } => {
            if ok {
                s
            } else {
                BState { errors: s.errors.push(BuildErrorS::CdFailed(path)), ..s }
            }
        },
        BuildEvent::RedirIn { path, fd } => {
            let closed = BState {
                args: Seq::empty(),
                stages: s.stages.push(StageS { args: s.args, infd: fd, outfd: None }),
                ..s
            };
            if fd is None {
                BState { errors: s.errors.push(BuildErrorS::OpenFailed(path)), ..closed }
            } else {
                closed
            }
        },
        BuildEvent::RedirInMissing => BState {
            args: Seq::empty(),
            errors: s.errors.push(BuildErrorS::MissingTarget),
            ..s
        },
        BuildEvent::RedirOut { path, fd } => {
            if s.args.len() > 0 {
                let closed = BState {
                    args: Seq::empty(),
                    carried: None,
                    stages: s.stages.push(StageS { args: s.args, infd: s.carried, outfd: fd }),
                    ..s
                };
                if fd is None {
                    BState { errors: s.errors.push(BuildErrorS::OpenFailed(path)), ..closed }
                } else {
                    closed
                }
            } else if s.stages.len() > 0 {
                match fd {
                    Some(f) => BState {
                        carried: None,
                        stages: s.stages.update(
                            s.stages.len() - 1,
                            StageS { outfd: Some(f), ..s.stages.last() },
                        ),
                        ..s
                    },
                    None => BState {
                        carried: None,
                        errors: s.errors.push(BuildErrorS::OpenFailed(path)),
                        ..s
                    },
                }
            } else {
                BState { carried: None, ..s }
            }
        },
        BuildEvent::RedirOutMissing => BState {
            errors: s.errors.push(BuildErrorS::MissingTarget),
            ..s
        },
        BuildEvent::PipeMade { r, w } => {
            let wired = if s.args.len() > 0 {
                BState {
                    args: Seq::empty(),
                    stages: s.stages.push(StageS { args: s.args, infd: s.carried, outfd: Some(w) }),
                    ..s
                }
            } else if s.stages.len() > 0 {
                BState {
                    stages: s.stages.update(
                        s.stages.len() - 1,
                        StageS { outfd: Some(w), ..s.stages.last() },
                    ),
                    ..s
                }
            } else {
                BState { errors: s.errors.push(BuildErrorS::NoCommandBeforePipe), ..s }
            };
            BState { carried: Some(r), pipes: s.pipes.push((r, w)), ..wired }
        },
        BuildEvent::PipeFailed => {
            let closed = if s.args.len() > 0 {
                BState {
                    args: Seq::empty(),
                    stages: s.stages.push(StageS { args: s.args, infd: s.carried, outfd: None }),
                    ..s
                }
            } else {
                s
            };
            BState {
                carried: None,
                errors: s.errors.push(BuildErrorS::PipeFailed),
                ..closed
            }
        },
        BuildEvent::Semi => {
            if s.args.len() > 0 {
                BState {
                    args: Seq::empty(),
                    stages: s.stages.push(StageS { args: s.args, infd: s.carried, outfd: None }),
                    ..s
                }
            } else {
                s
            }
        },
    }
}

/// Folds a whole event sequence over `step`, front to back.
pub open spec fn run(s: BState, evs: Seq<BuildEvent>) -> BState
    decreases evs.len(),
{
    if evs.len() == 0 {
        s
    } else {
        run(step(s, evs[0]), evs.skip(1))
    }
}

/// Folding one more event is one more step.
pub proof fn lemma_run_snoc(s: BState, evs: Seq<BuildEvent>, e: BuildEvent)
    ensures
        run(s, evs.push(e)) == step(run(s, evs), e),
    decreases evs.len(),
{
    if evs.len() == 0 {
        assert(evs.push(e)[0] == e);
        assert(evs.push(e).skip(1) =~= Seq::<BuildEvent>::empty());
        assert(run(s, evs.push(e)) == run(step(s, e), evs.push(e).skip(1)));
        assert(run(step(s, e), evs.push(e).skip(1)) == step(s, e));
        assert(run(s, evs) == s);
    } else {
        assert(evs.push(e)[0] == evs[0]);
        assert(evs.push(e).skip(1) =~= evs.skip(1).push(e));
        assert(run(s, evs.push(e)) == run(step(s, evs[0]), evs.skip(1).push(e)));
        lemma_run_snoc(step(s, evs[0]), evs.skip(1), e);
        assert(run(s, evs) == run(step(s, evs[0]), evs.skip(1)));
    }
}

/// The pipeline builder's working state, one handler per recognized token.
/// Each handler takes the outcome of the outside call its token required as
/// an argument and is verified against `step` for every possible outcome.
pub struct Builder {
    pub args: Vec<String>,
    pub carried: Option<i32>,
    pub stages: Vec<Command>,
    pub pipes: Vec<(i32, i32)>,
    pub errors: Vec<BuildError>,
}

impl View for Builder {
    type V = BState;

    open spec fn view(&self) -> BState {
        BState {
            args: self.args.deep_view(),
            carried: fd_view(self.carried),
            stages: self.stages.deep_view(),
            pipes: pipes_view(self.pipes@),
            errors: self.errors.deep_view(),
        }
    }
}

impl Builder {
    pub fn new() -> (b: Builder)
        ensures
            b@ == init_state(),
    {
        let b = Builder {
            args: Vec::new(),
            carried: None,
            stages: Vec::new(),
            pipes: Vec::new(),
            errors: Vec::new(),
        };
        proof {
            assert(b@ =~~= init_state());
        }
        b
    }

    /// Moves the pending argument list out, leaving it empty.
    fn take_args(&mut self) -> (argv: Vec<String>)
        ensures
            argv == old(self).args,
            final(self).args@.len() == 0,
            final(self).carried == old(self).carried,
            final(self).stages == old(self).stages,
            final(self).pipes == old(self).pipes,
            final(self).errors == old(self).errors,
    {
        let mut argv: Vec<String> = Vec::new();
        core::mem::swap(&mut argv, &mut self.args);
        argv
    }

    /// An ordinary token: one more argument for the stage under construction.
    pub fn push_word(&mut self, w: String)
        ensures
            final(self)@ == step(old(self)@, BuildEvent::Word(w@)),
    {
        self.args.push(w);
        proof {
            assert(final(self)@ =~~= step(old(self)@, BuildEvent::Word(w@)));
        }
    }

    /// A `*` token: appends one argument per entry of the directory listing,
    /// so the argument list grows by exactly the listing's cardinality.
    pub fn expand_wildcard(&mut self, entries: &Vec<String>)
        ensures
            final(self)@ == step(old(self)@, BuildEvent::Star(entries.deep_view())),
            final(self)@.args == old(self)@.args + entries.deep_view(),
    {
        let n = entries.len();
        for i in 0..n
            invariant
                n == entries@.len(),
                self.args.deep_view() =~= old(self).args.deep_view() + entries.deep_view().take(
                    i as int,
                ),
                self.carried == old(self).carried,
                self.stages == old(self).stages,
                self.pipes == old(self).pipes,
                self.errors == old(self).errors,
        {
            let ghost pre = self.args.deep_view();
            self.args.push(entries[i].clone());
            proof {
                assert(self.args.deep_view() =~= pre.push(entries@[i as int]@));
                assert(entries.deep_view()[i as int] == entries@[i as int]@);
                assert(entries.deep_view().take(i + 1) =~= entries.deep_view().take(i as int).push(
                    entries@[i as int]@,
                ));
                assert(self.args.deep_view() =~= old(self).args.deep_view()
                    + entries.deep_view().take(i + 1));
            }
        }
        proof {
            assert(entries.deep_view().take(n as int) =~= entries.deep_view());
            assert(final(self)@ =~~= step(old(self)@, BuildEvent::Star(entries.deep_view())));
        }
    }

    /// A `cd` token, given the target path that was chosen and whether the
    /// directory change succeeded: on failure the error is recorded and
    /// parsing continues.
    pub fn cd_result(&mut self, path: &String, ok: bool)
        ensures
            final(self)@ == step(old(self)@, BuildEvent::Cd { path: path@, ok }),
    {
        if !ok {
            self.errors.push(BuildError::CdFailed(path.clone()));
        }
        proof {
            assert(final(self)@ =~~= step(old(self)@, BuildEvent::Cd { path: path@, ok }));
        }
    }

    /// A `<` token with its path token, given the result of opening the path
    /// read-only: closes out a stage whose input is the opened descriptor,
    /// or no descriptor at all when opening failed.
    pub fn redirect_input(&mut self, path: &String, fd: Option<i32>)
        ensures
            final(self)@ == step(
                old(self)@,
                BuildEvent::RedirIn { path: path@, fd: fd_view(fd) },
            ),
    {
        let argv = self.take_args();
        let c = Command::from_fd(argv, fd, None);
        self.stages.push(c);
        if fd.is_none() {
            self.errors.push(BuildError::OpenFailed(path.clone()));
        }
        proof {
            assert(final(self)@ =~~= step(
                old(self)@,
                BuildEvent::RedirIn { path: path@, fd: fd_view(fd) },
            ));
        }
    }

    /// A `<` token with no path after it: a usage error; the pending
    /// arguments are discarded.
    pub fn redirect_input_missing(&mut self)
        ensures
            final(self)@ == step(old(self)@, BuildEvent::RedirInMissing),
    {
        self.args.clear();
        self.errors.push(BuildError::MissingTarget);
        proof {
            assert(final(self)@ =~~= step(old(self)@, BuildEvent::RedirInMissing));
        }
    }

    /// Whether a `>` token in the current state would open its target at all:
    /// it opens when a stage is pending or one already exists to back-patch.
    pub fn wants_output_open(&self) -> (r: bool)
        ensures
            r == (self@.args.len() > 0 || self@.stages.len() > 0),
    {
        self.args.len() > 0 || self.stages.len() > 0
    }

    /// A `>` token with its path token, given the result of opening the path
    /// for create-and-truncate writing (`None` when the open failed or was
    /// never attempted): closes out a stage with the carried input and the
    /// opened output, or back-patches the previous stage's output.
    pub fn redirect_output(&mut self, path: &String, fd: Option<i32>)
        ensures
            final(self)@ == step(
                old(self)@,
                BuildEvent::RedirOut { path: path@, fd: fd_view(fd) },
            ),
    {
        if self.args.len() > 0 {
            let argv = self.take_args();
            let c = Command::from_fd(argv, self.carried, fd);
            self.stages.push(c);
            self.carried = None;
            if fd.is_none() {
                self.errors.push(BuildError::OpenFailed(path.clone()));
            }
        } else if self.stages.len() > 0 {
            match fd {
                Some(f) => {
                    if let Some(mut c) = self.stages.pop() {
                        c.change_outfd(Some(f));
                        self.stages.push(c);
                    }
                },
                None => {
                    self.errors.push(BuildError::OpenFailed(path.clone()));
                },
            }
            self.carried = None;
        } else {
            self.carried = None;
        }
        proof {
            assert(final(self)@ =~~= step(
                old(self)@,
                BuildEvent::RedirOut { path: path@, fd: fd_view(fd) },
            ));
        }
    }

    /// A `>` token with no path after it: a usage error; unlike `<`, the
    /// pending arguments are kept.
    pub fn redirect_output_missing(&mut self)
        ensures
            final(self)@ == step(old(self)@, BuildEvent::RedirOutMissing),
    {
        self.errors.push(BuildError::MissingTarget);
        proof {
            assert(final(self)@ =~~= step(old(self)@, BuildEvent::RedirOutMissing));
        }
    }

    /// A `|` token, given the freshly allocated pipe: closes out the pending
    /// stage with the pipe's write end as output (or back-patches the
    /// previous stage), records the pipe in the registry, and carries the
    /// read end forward as the next stage's input.
    pub fn pipe_made(&mut self, r: i32, w: i32)
        ensures
            final(self)@ == step(
                old(self)@,
                BuildEvent::PipeMade { r: r as int, w: w as int },
            ),
    {
        if self.args.len() > 0 {
            let argv = self.take_args();
            let c = Command::from_fd(argv, self.carried, Some(w));
            self.stages.push(c);
        } else if self.stages.len() > 0 {
            if let Some(mut c) = self.stages.pop() {
                c.change_outfd(Some(w));
                self.stages.push(c);
            }
        } else {
            self.errors.push(BuildError::NoCommandBeforePipe);
        }
        self.carried = Some(r);
        self.pipes.push((r, w));
        proof {
            assert(final(self)@ =~~= step(
                old(self)@,
                BuildEvent::PipeMade { r: r as int, w: w as int },
            ));
        }
    }

    /// A `|` token on which the OS refused a pipe: the pending stage is still
    /// closed out, with no output override, and the error is recorded; the
    /// stage simply runs without a pipe, best effort.
    pub fn pipe_failed(&mut self)
        ensures
            final(self)@ == step(old(self)@, BuildEvent::PipeFailed),
    {
        if self.args.len() > 0 {
            let argv = self.take_args();
            let c = Command::from_fd(argv, self.carried, None);
            self.stages.push(c);
        }
        self.carried = None;
        self.errors.push(BuildError::PipeFailed);
        proof {
            assert(final(self)@ =~~= step(old(self)@, BuildEvent::PipeFailed));
        }
    }

    /// A `;` token: closes out a final stage for this segment if arguments
    /// are pending, using the carried input descriptor if any.
    pub fn semicolon(&mut self)
        ensures
            final(self)@ == step(old(self)@, BuildEvent::Semi),
    {
        if self.args.len() > 0 {
            let argv = self.take_args();
            let c = Command::from_fd(argv, self.carried, None);
            self.stages.push(c);
        }
        proof {
            assert(final(self)@ =~~= step(old(self)@, BuildEvent::Semi));
        }
    }

    /// Hands out the finished pipeline and the errors gathered on the way.
    pub fn finish(self) -> (r: (Pipeline, Vec<BuildError>))
        ensures
            r.0@.stages == self@.stages,
            r.0@.pipes == self@.pipes,
            r.1.deep_view() == self@.errors,
    {
        (Pipeline { stages: self.stages, pipes: self.pipes }, self.errors)
    }
}

} // verus!
