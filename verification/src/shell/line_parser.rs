use vstd::prelude::*;

use crate::shell::builder::{
    init_state, lemma_run_snoc, run, step, BState, BuildError, BuildErrorS, BuildEvent, Builder,
};
use crate::shell::command::{fd_view, Pipeline, StageS};
use crate::shell::sys;
use crate::shell::tokenizer::{
    is_operator, is_operator_token, spec_kind, spec_prepared, token_kind, tokenize, TokKind,
};
use crate::shell::Shell;

verus! {

/// How many tokens the step starting at `p` consumes: two when a lookahead
/// token (`cd`, `<`, `>`) is followed by a non-operator path token, else one.
pub open spec fn consumed_at(toks: Seq<Seq<char>>, p: int) -> int {
    let k = spec_kind(toks[p]);
    if (k is Cd || k is RedirIn || k is RedirOut) && p + 1 < toks.len() && !is_operator(
        toks[p + 1],
    ) {
        2
    } else {
        1
    }
}

/// Relates the token list from position `p` on to the events the builder
/// consumed for it. The events' shapes and paths are pinned by the tokens
/// and the ambient context; descriptor values and success bits are whatever
/// the OS answered.
pub open spec fn matches_at(
    toks: Seq<Seq<char>>,
    entries: Seq<Seq<char>>,
    home: Seq<char>,
    p: int,
    evs: Seq<BuildEvent>,
) -> bool
    decreases toks.len() - p,
{
    if p < 0 {
        false
    } else if p >= toks.len() {
        evs.len() == 0
    } else {
        evs.len() >= 1 && matches_at(toks, entries, home, p + consumed_at(toks, p), evs.skip(1))
            && {
            let e = evs[0];
            match spec_kind(toks[p]) {
                TokKind::Word => e == BuildEvent::Word(toks[p]),
                TokKind::Star => e == BuildEvent::Star(entries),
                TokKind::Semi => e == BuildEvent::Semi,
                TokKind::Pipe => e is PipeMade || e is PipeFailed,
                TokKind::Cd => {
                    if consumed_at(toks, p) == 2 {
                        e matches BuildEvent::Cd { path, .. } && path == toks[p + 1]
                    } else {
                        e matches BuildEvent::Cd { path, .. } && path == home
                    }
                },
                TokKind::RedirIn => {
                    if consumed_at(toks, p) == 2 {
                        e matches BuildEvent::RedirIn { path, .. } && path == toks[p + 1]
                    } else {
                        e == BuildEvent::RedirInMissing
                    }
                },
                TokKind::RedirOut => {
                    if consumed_at(toks, p) == 2 {
                        e matches BuildEvent::RedirOut { path, .. } && path == toks[p + 1]
                    } else {
                        e == BuildEvent::RedirOutMissing
                    }
                },
            }
        }
    }
}

/// The builder state a whole matched event list leads to.
pub open spec fn built(evs: Seq<BuildEvent>) -> BState {
    run(init_state(), evs)
}

/// What `parse` promises: some event list matches the prepared token list of
/// the line, and the returned pipeline and errors are exactly what folding
/// the builder over those events yields.
pub open spec fn parse_post(
    r: (Pipeline, Vec<BuildError>),
    toks: Seq<Seq<char>>,
    entries: Seq<Seq<char>>,
    home: Seq<char>,
) -> bool {
    exists|evs: Seq<BuildEvent>|
        #[trigger] matches_at(toks, entries, home, 0, evs) && r.0@.stages == built(evs).stages
            && r.0@.pipes == built(evs).pipes && r.1.deep_view() == built(evs).errors
}

proof fn lemma_run_errors_grow(st: BState, evs: Seq<BuildEvent>)
    ensures
        run(st, evs).errors.len() >= st.errors.len(),
    decreases evs.len(),
{
    if evs.len() > 0 {
        assert(step(st, evs[0]).errors.len() >= st.errors.len());
        lemma_run_errors_grow(step(st, evs[0]), evs.skip(1));
    }
}

/// Helper for the single-command law: running the builder over a tail of
/// word tokens closed by the terminator appends exactly one stage, made of
/// the pending arguments plus those words, taking the carried descriptor as
/// its input and no output override.
proof fn lemma_words_run(
    toks: Seq<Seq<char>>,
    entries: Seq<Seq<char>>,
    home: Seq<char>,
    p: int,
    evs: Seq<BuildEvent>,
    st: BState,
)
    requires
        0 <= p < toks.len(),
        spec_kind(toks[toks.len() - 1]) is Semi,
        forall|k: int| p <= k < toks.len() - 1 ==> spec_kind(#[trigger] toks[k]) is Word,
        matches_at(toks, entries, home, p, evs),
        st.args.len() + (toks.len() - 1 - p) > 0,
    ensures
        run(st, evs) == (BState {
            args: Seq::empty(),
            carried: st.carried,
            stages: st.stages.push(
                StageS {
                    args: st.args + toks.subrange(p, toks.len() - 1),
                    infd: st.carried,
                    outfd: None,
                },
            ),
            pipes: st.pipes,
            errors: st.errors,
        }),
    decreases toks.len() - p,
{
    if p == toks.len() - 1 {
        assert(consumed_at(toks, p) == 1);
        assert(matches_at(toks, entries, home, p + 1, evs.skip(1)));
        assert(evs.skip(1).len() == 0);
        assert(evs[0] == BuildEvent::Semi);
        assert(run(st, evs) == run(step(st, BuildEvent::Semi), evs.skip(1)));
        assert(st.args + toks.subrange(p, toks.len() - 1) =~= st.args);
        assert(run(st, evs) =~~= (BState {
            args: Seq::empty(),
            carried: st.carried,
            stages: st.stages.push(
                StageS {
                    args: st.args + toks.subrange(p, toks.len() - 1),
                    infd: st.carried,
                    outfd: None,
                },
            ),
            pipes: st.pipes,
            errors: st.errors,
        }));
    } else {
        assert(spec_kind(toks[p]) is Word);
        assert(consumed_at(toks, p) == 1);
        assert(matches_at(toks, entries, home, p + 1, evs.skip(1)));
        assert(evs[0] == BuildEvent::Word(toks[p]));
        let st2 = step(st, evs[0]);
        lemma_words_run(toks, entries, home, p + 1, evs.skip(1), st2);
        assert(run(st, evs) == run(st2, evs.skip(1)));
        assert(st2.args + toks.subrange(p + 1, toks.len() - 1) =~= st.args + toks.subrange(
            p,
            toks.len() - 1,
        ));
        assert(run(st, evs) =~~= (BState {
            args: Seq::empty(),
            carried: st.carried,
            stages: st.stages.push(
                StageS {
                    args: st.args + toks.subrange(p, toks.len() - 1),
                    infd: st.carried,
                    outfd: None,
                },
            ),
            pipes: st.pipes,
            errors: st.errors,
        }));
    }
}

/// For every well-formed single command with no operators — one or more word
/// tokens closed by the terminator — the builder produces exactly one stage,
/// with no input or output descriptor set, no pipes and no errors.
pub proof fn lemma_single_command(
    toks: Seq<Seq<char>>,
    entries: Seq<Seq<char>>,
    home: Seq<char>,
    evs: Seq<BuildEvent>,
)
    requires
        toks.len() >= 2,
        spec_kind(toks[toks.len() - 1]) is Semi,
        forall|k: int| 0 <= k < toks.len() - 1 ==> spec_kind(#[trigger] toks[k]) is Word,
        matches_at(toks, entries, home, 0, evs),
    ensures
        built(evs).stages =~= seq![
            StageS { args: toks.drop_last(), infd: None, outfd: None },
        ],
        built(evs).pipes.len() == 0,
        built(evs).errors.len() == 0,
{
    lemma_words_run(toks, entries, home, 0, evs, init_state());
    assert(init_state().args + toks.subrange(0, toks.len() - 1) =~= toks.drop_last());
    assert(built(evs).stages =~= Seq::<StageS>::empty().push(
        StageS { args: toks.drop_last(), infd: None, outfd: None },
    ));
}

/// For every input of the form `a | b | c`, the builder produces exactly
/// three stages and exactly two pipes, and wires them as a chain: stage 1's
/// output is pipe 1's write end, stage 2 reads pipe 1 and writes pipe 2, and
/// stage 3 reads pipe 2 — provided no error was reported, that is, both pipe
/// allocations succeeded.
pub proof fn lemma_three_stage_pipeline(
    a: Seq<char>,
    b: Seq<char>,
    c: Seq<char>,
    entries: Seq<Seq<char>>,
    home: Seq<char>,
    evs: Seq<BuildEvent>,
)
    requires
        spec_kind(a) is Word,
        spec_kind(b) is Word,
        spec_kind(c) is Word,
        matches_at(
            seq![a, seq!['|'], b, seq!['|'], c, seq![';']],
            entries,
            home,
            0,
            evs,
        ),
        built(evs).errors.len() == 0,
    ensures
        built(evs).stages.len() == 3,
        built(evs).pipes.len() == 2,
        built(evs).stages[0].args =~= seq![a],
        built(evs).stages[0].infd is None,
        built(evs).stages[0].outfd == Some(built(evs).pipes[0].1),
        built(evs).stages[1].args =~= seq![b],
        built(evs).stages[1].infd == Some(built(evs).pipes[0].0),
        built(evs).stages[1].outfd == Some(built(evs).pipes[1].1),
        built(evs).stages[2].args =~= seq![c],
        built(evs).stages[2].infd == Some(built(evs).pipes[1].0),
        built(evs).stages[2].outfd is None,
{
    let toks = seq![a, seq!['|'], b, seq!['|'], c, seq![';']];
    assert(toks.len() == 6);
    assert(seq!['|'].len() == 1 && seq!['|'][0] == '|');
    assert(seq![';'].len() == 1 && seq![';'][0] == ';');
    assert(seq!['<'].len() == 1 && seq!['<'][0] == '<');
    assert(seq!['>'].len() == 1 && seq!['>'][0] == '>');
    assert(seq!['*'].len() == 1 && seq!['*'][0] == '*');
    assert(crate::shell::tokenizer::cd_token().len() == 2);
    assert(spec_kind(toks[1]) is Pipe);
    assert(spec_kind(toks[3]) is Pipe);
    assert(spec_kind(toks[5]) is Semi);
    assert(consumed_at(toks, 0) == 1);
    assert(consumed_at(toks, 1) == 1);
    assert(consumed_at(toks, 2) == 1);
    assert(consumed_at(toks, 3) == 1);
    assert(consumed_at(toks, 4) == 1);
    assert(consumed_at(toks, 5) == 1);
    assert(matches_at(toks, entries, home, 1, evs.skip(1)));
    assert(evs.skip(1)[0] == evs[1]);
    assert(evs.skip(1).skip(1) =~= evs.skip(2));
    assert(matches_at(toks, entries, home, 2, evs.skip(2)));
    assert(evs.skip(2)[0] == evs[2]);
    assert(evs.skip(2).skip(1) =~= evs.skip(3));
    assert(matches_at(toks, entries, home, 3, evs.skip(3)));
    assert(evs.skip(3)[0] == evs[3]);
    assert(evs.skip(3).skip(1) =~= evs.skip(4));
    assert(matches_at(toks, entries, home, 4, evs.skip(4)));
    assert(evs.skip(4)[0] == evs[4]);
    assert(evs.skip(4).skip(1) =~= evs.skip(5));
    assert(matches_at(toks, entries, home, 5, evs.skip(5)));
    assert(evs.skip(5)[0] == evs[5]);
    assert(evs.skip(5).skip(1) =~= evs.skip(6));
    assert(matches_at(toks, entries, home, 6, evs.skip(6)));
    assert(evs.skip(6).len() == 0);
    assert(evs[0] == BuildEvent::Word(a));
    assert(evs[2] == BuildEvent::Word(b));
    assert(evs[4] == BuildEvent::Word(c));
    assert(evs[5] == BuildEvent::Semi);
    let s0 = init_state();
    let s1 = step(s0, evs[0]);
    let s2 = step(s1, evs[1]);
    let s3 = step(s2, evs[2]);
    let s4 = step(s3, evs[3]);
    let s5 = step(s4, evs[4]);
    let s6 = step(s5, evs[5]);
    assert(built(evs) == run(s1, evs.skip(1)));
    assert(run(s1, evs.skip(1)) == run(s2, evs.skip(2)));
    assert(run(s2, evs.skip(2)) == run(s3, evs.skip(3)));
    assert(run(s3, evs.skip(3)) == run(s4, evs.skip(4)));
    assert(run(s4, evs.skip(4)) == run(s5, evs.skip(5)));
    assert(run(s5, evs.skip(5)) == run(s6, evs.skip(6)));
    assert(run(s6, evs.skip(6)) == s6);
    if evs[1] is PipeFailed {
        assert(s2.errors.len() >= 1);
        lemma_run_errors_grow(s2, evs.skip(2));
        assert(false);
    }
    if evs[3] is PipeFailed {
        assert(s4.errors.len() >= s3.errors.len() + 1);
        lemma_run_errors_grow(s4, evs.skip(4));
        assert(false);
    }
    let r1 = evs[1]->r;
    let w1 = evs[1]->w;
    let r2 = evs[3]->r;
    let w2 = evs[3]->w;
    assert(evs[1] == BuildEvent::PipeMade { r: r1, w: w1 });
    assert(evs[3] == BuildEvent::PipeMade { r: r2, w: w2 });
    assert(s1.args =~= seq![a]);
    assert(s3.args =~= seq![b]);
    assert(s5.args =~= seq![c]);
    assert(s6.stages.len() == 3);
    assert(s6.pipes =~= seq![(r1, w1), (r2, w2)]);
}

/// For `a > f`, the builder produces one stage whose output is exactly the
/// descriptor the create-and-truncate open of `f` returned, whose input is
/// inherited, with no pipes; when the open failed, the only error is the
/// open failure on `f` and the stage keeps an inherited output.
pub proof fn lemma_output_redirect(
    a: Seq<char>,
    f: Seq<char>,
    entries: Seq<Seq<char>>,
    home: Seq<char>,
    evs: Seq<BuildEvent>,
)
    requires
        spec_kind(a) is Word,
        spec_kind(f) is Word,
        matches_at(seq![a, seq!['>'], f, seq![';']], entries, home, 0, evs),
    ensures
        built(evs).stages.len() == 1,
        built(evs).stages[0].args =~= seq![a],
        built(evs).stages[0].infd is None,
        built(evs).pipes.len() == 0,
        evs.len() == 3,
        evs[1] matches BuildEvent::RedirOut { path, fd } && path == f && built(
            evs,
        ).stages[0].outfd == fd && (fd is Some ==> built(evs).errors.len() == 0) && (fd is None
            ==> built(evs).errors =~= seq![BuildErrorS::OpenFailed(f)]),
{
    let toks = seq![a, seq!['>'], f, seq![';']];
    assert(toks.len() == 4);
    assert(seq!['>'].len() == 1 && seq!['>'][0] == '>');
    assert(seq![';'].len() == 1 && seq![';'][0] == ';');
    assert(seq!['<'].len() == 1 && seq!['<'][0] == '<');
    assert(seq!['|'].len() == 1 && seq!['|'][0] == '|');
    assert(seq!['*'].len() == 1 && seq!['*'][0] == '*');
    assert(crate::shell::tokenizer::cd_token().len() == 2);
    assert(spec_kind(toks[1]) is RedirOut);
    assert(spec_kind(toks[3]) is Semi);
    assert(consumed_at(toks, 0) == 1);
    assert(consumed_at(toks, 1) == 2);
    assert(consumed_at(toks, 3) == 1);
    assert(matches_at(toks, entries, home, 1, evs.skip(1)));
    assert(evs.skip(1)[0] == evs[1]);
    assert(evs.skip(1).skip(1) =~= evs.skip(2));
    assert(matches_at(toks, entries, home, 3, evs.skip(2)));
    assert(evs.skip(2)[0] == evs[2]);
    assert(evs.skip(2).skip(1) =~= evs.skip(3));
    assert(matches_at(toks, entries, home, 4, evs.skip(3)));
    assert(evs.skip(3).len() == 0);
    assert(evs[0] == BuildEvent::Word(a));
    assert(evs[2] == BuildEvent::Semi);
    let s0 = init_state();
    let s1 = step(s0, evs[0]);
    let s2 = step(s1, evs[1]);
    let s3 = step(s2, evs[2]);
    assert(built(evs) == run(s1, evs.skip(1)));
    assert(run(s1, evs.skip(1)) == run(s2, evs.skip(2)));
    assert(run(s2, evs.skip(2)) == run(s3, evs.skip(3)));
    assert(run(s3, evs.skip(3)) == s3);
    assert(s1.args =~= seq![a]);
}

/// For `a < f`, the builder produces one stage whose input is exactly the
/// descriptor the read-only open of `f` returned, whose output is
/// inherited, with no pipes; when the open failed, the only error is the
/// open failure on `f` and the stage keeps an inherited input.
pub proof fn lemma_input_redirect(
    a: Seq<char>,
    f: Seq<char>,
    entries: Seq<Seq<char>>,
    home: Seq<char>,
    evs: Seq<BuildEvent>,
)
    requires
        spec_kind(a) is Word,
        spec_kind(f) is Word,
        matches_at(seq![a, seq!['<'], f, seq![';']], entries, home, 0, evs),
    ensures
        built(evs).stages.len() == 1,
        built(evs).stages[0].args =~= seq![a],
        built(evs).stages[0].outfd is None,
        built(evs).pipes.len() == 0,
        evs.len() == 3,
        evs[1] matches BuildEvent::RedirIn { path, fd } && path == f && built(
            evs,
        ).stages[0].infd == fd && (fd is Some ==> built(evs).errors.len() == 0) && (fd is None
            ==> built(evs).errors =~= seq![BuildErrorS::OpenFailed(f)]),
{
    let toks = seq![a, seq!['<'], f, seq![';']];
    assert(toks.len() == 4);
    assert(seq!['>'].len() == 1 && seq!['>'][0] == '>');
    assert(seq![';'].len() == 1 && seq![';'][0] == ';');
    assert(seq!['<'].len() == 1 && seq!['<'][0] == '<');
    assert(seq!['|'].len() == 1 && seq!['|'][0] == '|');
    assert(seq!['*'].len() == 1 && seq!['*'][0] == '*');
    assert(crate::shell::tokenizer::cd_token().len() == 2);
    assert(spec_kind(toks[1]) is RedirIn);
    assert(spec_kind(toks[3]) is Semi);
    assert(consumed_at(toks, 0) == 1);
    assert(consumed_at(toks, 1) == 2);
    assert(consumed_at(toks, 3) == 1);
    assert(matches_at(toks, entries, home, 1, evs.skip(1)));
    assert(evs.skip(1)[0] == evs[1]);
    assert(evs.skip(1).skip(1) =~= evs.skip(2));
    assert(matches_at(toks, entries, home, 3, evs.skip(2)));
    assert(evs.skip(2)[0] == evs[2]);
    assert(evs.skip(2).skip(1) =~= evs.skip(3));
    assert(matches_at(toks, entries, home, 4, evs.skip(3)));
    assert(evs.skip(3).len() == 0);
    assert(evs[0] == BuildEvent::Word(a));
    assert(evs[2] == BuildEvent::Semi);
    let s0 = init_state();
    let s1 = step(s0, evs[0]);
    let s2 = step(s1, evs[1]);
    let s3 = step(s2, evs[2]);
    assert(built(evs) == run(s1, evs.skip(1)));
    assert(run(s1, evs.skip(1)) == run(s2, evs.skip(2)));
    assert(run(s2, evs.skip(2)) == run(s3, evs.skip(3)));
    assert(run(s3, evs.skip(3)) == s3);
    assert(s1.args =~= seq![a]);
}

/// `cd` with nothing usable after it — end of the token list, or an operator
/// next — targets the home directory.
pub proof fn lemma_cd_defaults_to_home(
    toks: Seq<Seq<char>>,
    entries: Seq<Seq<char>>,
    home: Seq<char>,
    evs: Seq<BuildEvent>,
)
    requires
        toks.len() >= 1,
        spec_kind(toks[0]) is Cd,
        toks.len() == 1 || is_operator(toks[1]),
        matches_at(toks, entries, home, 0, evs),
    ensures
        evs.len() >= 1,
        evs[0] matches BuildEvent::Cd { path, .. } && path == home,
{
    assert(consumed_at(toks, 0) == 1);
}

impl Shell {
    /// Looks one token ahead: the path operand for `cd`, `<` or `>`, present
    /// exactly when a next token exists and is not one of the four operators.
    pub fn get_path(&self, toks: &Vec<String>, pos: usize) -> (r: Option<String>)
        ensures
            match r {
                Some(p) => pos < toks@.len() && !is_operator(toks@[pos as int]@) && p@
                    == toks@[pos as int]@,
                None => !(pos < toks@.len() && !is_operator(toks@[pos as int]@)),
            },
    {
        if pos < toks.len() {
            let t = &toks[pos];
            if !is_operator_token(t) {
                Some(t.clone())
            } else {
                None
            }
        } else {
            None
        }
    }

    /// Consumes one raw input line: tokenizes it, then walks the tokens left
    /// to right, accumulating arguments, opening redirection targets,
    /// allocating pipes, expanding `*` from the given directory listing and
    /// performing `cd` immediately in the shell's own process. Returns the
    /// finished pipeline together with every error met on the way; no error
    /// aborts the rest of the line.
    pub fn parse(&self, buffer: String, dir_entries: &Vec<String>) -> (r: (
        Pipeline,
        Vec<BuildError>,
    ))
        ensures
            parse_post(
                r,
                spec_prepared(buffer@),
                dir_entries.deep_view(),
                self.home_directory@,
            ),
    {
        let toks = tokenize(buffer.as_str());
        let ghost tseq = toks.deep_view();
        let ghost entries = dir_entries.deep_view();
        let ghost home = self.home_directory@;
        let mut b = Builder::new();
        let ghost mut evs: Seq<BuildEvent> = Seq::empty();
        proof {
            assert(b@ == run(init_state(), evs));
        }
        let mut i: usize = 0;
        while i < toks.len()
            invariant
                tseq == toks.deep_view(),
                entries == dir_entries.deep_view(),
                home == self.home_directory@,
                i <= toks@.len(),
                tseq.len() == toks@.len(),
                b@ == run(init_state(), evs),
                forall|rest: Seq<BuildEvent>|
                    #[trigger] matches_at(tseq, entries, home, i as int, rest) ==> matches_at(
                        tseq,
                        entries,
                        home,
                        0,
                        evs + rest,
                    ),
            decreases toks@.len() - i,
        {
            let ghost prev_evs = evs;
            let ghost p = i as int;
            proof {
                assert(tseq[p] == toks@[p]@);
            }
            let t = &toks[i];
            match token_kind(t) {
                TokKind::Word => {
                    b.push_word(t.clone());
                    proof {
                        evs = evs.push(BuildEvent::Word(tseq[p]));
                    }
                    i += 1;
                },
                TokKind::Star => {
                    b.expand_wildcard(dir_entries);
                    proof {
                        evs = evs.push(BuildEvent::Star(entries));
                    }
                    i += 1;
                },
                TokKind::Semi => {
                    b.semicolon();
                    proof {
                        evs = evs.push(BuildEvent::Semi);
                    }
                    i += 1;
                },
                TokKind::Pipe => {
                    match sys::make_pipe() {
                        Some(pw) => {
                            b.pipe_made(pw.0, pw.1);
                            proof {
                                evs = evs.push(
                                    BuildEvent::PipeMade { r: pw.0 as int, w: pw.1 as int },
                                );
                            }
                        },
                        None => {
                            b.pipe_failed();
                            proof {
                                evs = evs.push(BuildEvent::PipeFailed);
                            }
                        },
                    }
                    i += 1;
                },
                TokKind::Cd => {
                    match self.get_path(&toks, i + 1) {
                        Some(path) => {
                            let ok = sys::change_directory(&path);
                            b.cd_result(&path, ok);
                            proof {
                                assert(tseq[p + 1] == toks@[p + 1]@);
                                evs = evs.push(BuildEvent::Cd { path: tseq[p + 1], ok });
                            }
                            i += 2;
                        },
                        None => {
                            let ok = sys::change_directory(&self.home_directory);
                            b.cd_result(&self.home_directory, ok);
                            proof {
                                evs = evs.push(BuildEvent::Cd { path: home, ok });
                            }
                            i += 1;
                        },
                    }
                },
                TokKind::RedirIn => {
                    match self.get_path(&toks, i + 1) {
                        Some(path) => {
                            let fd = sys::open_for_read(&path);
                            b.redirect_input(&path, fd);
                            proof {
                                assert(tseq[p + 1] == toks@[p + 1]@);
                                evs = evs.push(
                                    BuildEvent::RedirIn { path: tseq[p + 1], fd: fd_view(fd) },
                                );
                            }
                            i += 2;
                        },
                        None => {
                            b.redirect_input_missing();
                            proof {
                                evs = evs.push(BuildEvent::RedirInMissing);
                            }
                            i += 1;
                        },
                    }
                },
                TokKind::RedirOut => {
                    match self.get_path(&toks, i + 1) {
                        Some(path) => {
                            let fd = if b.wants_output_open() {
                                sys::open_for_write(&path)
                            } else {
                                None
                            };
                            b.redirect_output(&path, fd);
                            proof {
                                assert(tseq[p + 1] == toks@[p + 1]@);
                                evs = evs.push(
                                    BuildEvent::RedirOut { path: tseq[p + 1], fd: fd_view(fd) },
                                );
                            }
                            i += 2;
                        },
                        None => {
                            b.redirect_output_missing();
                            proof {
                                evs = evs.push(BuildEvent::RedirOutMissing);
                            }
                            i += 1;
                        },
                    }
                },
            }
            proof {
                let e = evs.last();
                assert(evs == prev_evs.push(e));
                lemma_run_snoc(init_state(), prev_evs, e);
                assert(consumed_at(tseq, p) == i - p);
                assert forall|rest: Seq<BuildEvent>|
                    #[trigger] matches_at(tseq, entries, home, i as int, rest) implies matches_at(
                    tseq,
                    entries,
                    home,
                    0,
                    evs + rest,
                ) by {
                    let one = seq![e] + rest;
                    assert(one[0] == e);
                    assert(one.skip(1) =~= rest);
                    assert(matches_at(tseq, entries, home, p, one));
                    assert(prev_evs + one =~= evs + rest);
                }
            }
        }
        proof {
            assert(matches_at(tseq, entries, home, tseq.len() as int, Seq::<BuildEvent>::empty()));
            assert(evs + Seq::<BuildEvent>::empty() =~= evs);
            assert(matches_at(tseq, entries, home, 0, evs));
        }
        let r = b.finish();
        proof {
            assert(r.0@.stages == built(evs).stages && r.0@.pipes == built(evs).pipes
                && r.1.deep_view() == built(evs).errors);
        }
        r
    }
}

} // verus!
