//! The argument-generation and command-templating front end of a parallel
//! command executor: a grammar parser for the process arguments, a cartesian
//! list combinator, a memory-bounded write buffer for the generated argument
//! stream, and a compiler from the command template to literal and
//! placeholder tokens. Process spawning, file and standard-input reading are
//! left to the surrounding application, which hands this library plain
//! values and persists the bytes it produces.

use vstd::prelude::*;

pub mod buffer;
pub mod command;
pub mod errors;
pub mod jobs;
pub mod parser;
pub mod records;
pub mod strutil;
pub mod tokenizer;

use crate::command::quote_command;
use crate::command::quoted;
use crate::command::shellquote_command;
use crate::command::shellquoted_from;
use crate::errors::ParseErr;
use crate::errors::ParseErrSpec;
use crate::parser::Entry;
use crate::parser::EntryV;
use crate::parser::ExitKind;
use crate::parser::GrammarOut;
use crate::parser::Mode;
use crate::parser::ParseState;
use crate::parser::StateV;
use crate::parser::StepFlow;
use crate::parser::StepOut;
use crate::strutil::eq_lit;
use crate::tokenizer::Token;
use crate::tokenizer::token_views;
use crate::tokenizer::tokenize;

verus! {

/// The option flags collected while parsing the process arguments.
#[derive(Clone, Copy, PartialEq, Eq, Structural, Debug)]
pub struct Flags {
    pub inputs_are_commands: bool,
    pub pipe: bool,
    pub uses_shell: bool,
    pub quiet: bool,
    pub verbose: bool,
}

impl Flags {
    /// The default flags: a shell is used, nothing else is switched on.
    pub fn new() -> (f: Flags)
        ensures
            f == (Flags {
                inputs_are_commands: false,
                pipe: false,
                uses_shell: true,
                quiet: false,
                verbose: false,
            }),
    {
        Flags {
            inputs_are_commands: false,
            uses_shell: true,
            quiet: false,
            verbose: false,
            pipe: false,
        }
    }
}

/// Relies on `num_cpus::get`: the number of logical CPUs available to this
/// process, which is documented to be at least 1.
#[verifier::external_body]
pub fn detected_cores() -> (n: usize)
    ensures
        n >= 1,
{
    num_cpus::get()
}

/// What parsing asks the application to do next.
#[derive(Debug)]
pub enum ParseOutput {
    /// Print the requested information and terminate with status 0.
    Exit(ExitKind),
    /// Proceed: the input lists, in order, each entry a literal value or a
    /// file whose lines the application reads into its place.
    Run(Vec<Vec<Entry>>),
}

/// The critical options and arguments collected at startup.
pub struct Args {
    pub flags: Flags,
    pub ncores: usize,
    pub arguments: Vec<Token>,
    pub piped_values: Option<Vec<String>>,
    pub ninputs: usize,
}

/// The command template after the requested transform: `quote` wins over
/// `shellquote`; with neither, the template is untouched.
pub open spec fn transformed_command(s: StateV) -> Seq<char> {
    if s.quote {
        quoted(s.command)
    } else if s.shellquote {
        shellquoted_from(s.command, false)
    } else {
        s.command
    }
}

/// What `parse` guarantees: the grammar's verdict on the token sequence,
/// with the collected state committed only on success.
pub open spec fn parse_post(
    pre: Args,
    post: Args,
    args: Seq<Seq<char>>,
    cores: int,
    r: Result<ParseOutput, ParseErr>,
) -> bool {
    match parser::spec_grammar(args, pre.ncores as int, cores) {
        GrammarOut::Fail(g) => r matches Err(e) && e@ == g && post == pre,
        GrammarOut::Exit(k) => r matches Ok(o) && o matches ParseOutput::Exit(kk) && kk == k
            && post == pre,
        GrammarOut::Run(s) => {
            match tokenizer::spec_tokenize(transformed_command(s)) {
                Err(p) => r matches Err(e) && e@ == ParseErrSpec::Token(p) && post == pre,
                Ok(ts) => r matches Ok(o) && o matches ParseOutput::Run(ls) && ls.deep_view()
                    == s.lists && token_views(post.arguments@) == ts && post.flags == s.flags
                    && post.ncores == s.ncores && post.piped_values == pre.piped_values
                    && post.ninputs == pre.ninputs,
            }
        },
    }
}

impl Args {
    /// A fresh collection: default flags, the detected core count as the
    /// job count, and nothing parsed yet.
    pub fn new() -> (a: Args)
        ensures
            a.flags == (Flags {
                inputs_are_commands: false,
                pipe: false,
                uses_shell: true,
                quiet: false,
                verbose: false,
            }),
            a.ncores >= 1,
            a.arguments@.len() == 0,
            a.piped_values is None,
            a.ninputs == 0,
    {
        Args {
            ncores: detected_cores(),
            flags: Flags::new(),
            arguments: Vec::new(),
            piped_values: None,
            ninputs: 0,
        }
    }

    /// Parses the process arguments (program name already stripped) against
    /// an explicitly supplied core count.
    pub fn parse_with_cores(&mut self, args: &Vec<String>, cores: usize) -> (r: Result<
        ParseOutput,
        ParseErr,
    >)
        ensures
            parse_post(*old(self), *final(self), args.deep_view(), cores as int, r),
    {
        let ghost av = args.deep_view();
        if args.len() == 0 {
            proof {
                assert(av.len() == 0);
            }
            return Err(ParseErr::NoArguments);
        }
        let first = &args[0];
        let m: Mode = if eq_lit(first, ":::") {
            Mode::Inputs
        } else if eq_lit(first, "::::") {
            Mode::Files
        } else {
            Mode::Arguments
        };
        let iac: bool = !matches!(m, Mode::Arguments);
        let mut st = ParseState {
            mode: m,
            awaiting_jobs: false,
            flags: Flags {
                inputs_are_commands: iac,
                pipe: false,
                uses_shell: true,
                quiet: false,
                verbose: false,
            },
            ncores: self.ncores,
            cores,
            command: String::new(),
            lists: Vec::new(),
            current: Vec::new(),
            quote: false,
            shellquote: false,
        };
        proof {
            assert(av[0] == args@[0]@);
            assert(st.lists.deep_view() =~= Seq::<Seq<EntryV>>::empty());
            assert(st.current.deep_view() =~= Seq::<EntryV>::empty());
            assert(st@ =~= parser::init_state(av[0], old(self).ncores as int, cores as int));
        }
        let ghost init = st@;
        proof {
            assert(av.skip(0) =~= av);
        }
        let mut i: usize = 0;
        while i < args.len()
            invariant
                0 <= i <= args@.len(),
                av == args.deep_view(),
                av.len() == args@.len(),
                av.len() > 0,
                init == parser::init_state(av[0], old(self).ncores as int, cores as int),
                parser::run_steps(init, av) == parser::run_steps(st@, av.skip(i as int)),
                *self == *old(self),
            decreases args@.len() - i,
        {
            proof {
                assert(av.skip(i as int)[0] == args@[i as int]@);
                assert(av.skip(i as int).drop_first() =~= av.skip(i + 1 as int));
            }
            let ghost st_pre = st@;
            match st.step(&args[i]) {
                Ok(StepFlow::Continue) => {
                    proof {
                        assert(parser::run_steps(st_pre, av.skip(i as int)) == parser::run_steps(
                            st@,
                            av.skip(i + 1 as int),
                        ));
                    }
                },
                Ok(StepFlow::Exit(k)) => {
                    proof {
                        assert(parser::run_steps(init, av) == StepOut::Exit(k));
                    }
                    return Ok(ParseOutput::Exit(k));
                },
                Err(e) => {
                    proof {
                        assert(parser::run_steps(init, av) == StepOut::Fail(e@));
                    }
                    return Err(e);
                },
            }
            i = i + 1;
        }
        proof {
            assert(av.skip(av.len() as int) =~= Seq::<Seq<char>>::empty());
            assert(parser::run_steps(init, av) == StepOut::Next(st@));
        }
        if st.awaiting_jobs {
            return Err(ParseErr::JobsNoValue);
        }
        st.close_current();
        let ghost s_final = st@;
        proof {
            assert(parser::spec_grammar(av, old(self).ncores as int, cores as int)
                == GrammarOut::Run(s_final));
        }
        let mut cmd = String::new();
        core::mem::swap(&mut cmd, &mut st.command);
        let cmd2 = if st.quote {
            quote_command(cmd)
        } else if st.shellquote {
            shellquote_command(cmd)
        } else {
            cmd
        };
        proof {
            assert(cmd2@ == transformed_command(s_final));
        }
        match tokenize(&cmd2) {
            Err(e) => Err(ParseErr::Token(e)),
            Ok(toks) => {
                self.flags = st.flags;
                self.ncores = st.ncores;
                self.arguments = toks;
                let mut lists: Vec<Vec<Entry>> = Vec::new();
                core::mem::swap(&mut lists, &mut st.lists);
                proof {
                    assert(lists.deep_view() == s_final.lists);
                }
                Ok(ParseOutput::Run(lists))
            },
        }
    }

    /// Parses the process arguments (program name already stripped): the
    /// flags, the job count, the compiled command tokens and the input
    /// lists, against the core count this machine reports.
    pub fn parse(&mut self, args: &Vec<String>) -> (r: Result<ParseOutput, ParseErr>)
        ensures
            exists|c: int| 1 <= c && parse_post(*old(self), *final(self), args.deep_view(), c, r),
    {
        let cores = detected_cores();
        let r = self.parse_with_cores(args, cores);
        proof {
            assert(1 <= cores as int && parse_post(
                *old(self),
                *self,
                args.deep_view(),
                cores as int,
                r,
            ));
        }
        r
    }
}

} // verus!
