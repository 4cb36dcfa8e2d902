//! The command-line grammar: a state machine over the process argument
//! tokens. Parsing starts in `Arguments` mode, switches to `Command` at the
//! first non-option token, and to `Inputs` or `Files` at the separators
//! `:::` / `::::` (`:::+` / `::::+` continue the current list instead of
//! opening a new one). Once the mode has left `Arguments` it never returns.
//!
//! Informational options do not terminate the process here: the parser
//! reports them as an [`ExitKind`] and the surrounding application prints
//! and exits.

use vstd::prelude::*;
use crate::Flags;
use crate::errors::ParseErr;
use crate::errors::ParseErrSpec;
use crate::jobs;
use crate::strutil::chars_vec;
use crate::strutil::eq_lit;
use crate::strutil::str_eq;
use vstd::string::StrSliceExecFns;

verus! {

/// The parser's interpretation of subsequent tokens.
#[derive(Clone, Copy, Debug, PartialEq, Eq, Structural)]
pub enum Mode {
    Arguments,
    Command,
    Inputs,
    Files,
}

/// An informational option that short-circuits parsing: the application
/// prints the requested text and terminates with status 0.
#[derive(Clone, Copy, Debug, PartialEq, Eq, Structural)]
pub enum ExitKind {
    /// `-h` / `--help`: the manual page.
    Help,
    /// `--num-cpu-cores`: the detected core count.
    NumCpuCores,
    /// `--version`: the version line.
    Version,
}

/// What one step of the parser did with its token.
#[derive(Clone, Copy, Debug, PartialEq, Eq, Structural)]
pub enum StepFlow {
    /// The token was consumed; parsing goes on.
    Continue,
    /// An informational option asks the application to print and exit.
    Exit(ExitKind),
}

/// One value of an input list: either a literal token, or the path of a
/// file whose lines the application reads into the list in its place.
#[derive(Debug, PartialEq, Eq)]
pub struct Entry {
    pub is_file: bool,
    pub text: String,
}

/// The mathematical shape of a list entry.
#[verifier::ext_equal]
pub struct EntryV {
    pub is_file: bool,
    pub text: Seq<char>,
}

impl View for Entry {
    type V = EntryV;

    open spec fn view(&self) -> EntryV {
        EntryV { is_file: self.is_file, text: self.text@ }
    }
}

impl DeepView for Entry {
    type V = EntryV;

    open spec fn deep_view(&self) -> EntryV {
        self@
    }
}

/// The full parsing state between two tokens.
pub struct ParseState {
    pub mode: Mode,
    /// Whether the next token is consumed whole as the job-count value.
    pub awaiting_jobs: bool,
    pub flags: Flags,
    /// The resolved job count.
    pub ncores: usize,
    /// The detected core count, for percentage job values.
    pub cores: usize,
    /// The space-joined command template collected so far.
    pub command: String,
    /// The closed input lists, in order.
    pub lists: Vec<Vec<Entry>>,
    /// The list still being collected.
    pub current: Vec<Entry>,
    pub quote: bool,
    pub shellquote: bool,
}

/// The mathematical shape of the parsing state.
#[verifier::ext_equal]
pub struct StateV {
    pub mode: Mode,
    pub awaiting_jobs: bool,
    pub flags: Flags,
    pub ncores: int,
    pub cores: int,
    pub command: Seq<char>,
    pub lists: Seq<Seq<EntryV>>,
    pub current: Seq<EntryV>,
    pub quote: bool,
    pub shellquote: bool,
}

impl View for ParseState {
    type V = StateV;

    open spec fn view(&self) -> StateV {
        StateV {
            mode: self.mode,
            awaiting_jobs: self.awaiting_jobs,
            flags: self.flags,
            ncores: self.ncores as int,
            cores: self.cores as int,
            command: self.command@,
            lists: self.lists.deep_view(),
            current: self.current.deep_view(),
            quote: self.quote,
            shellquote: self.shellquote,
        }
    }
}

/// What a parser step produces: the next state, an exit request, or a
/// failure.
pub enum StepOut {
    Next(StateV),
    Exit(ExitKind),
    Fail(ParseErrSpec),
}

/// Closes the current list: a non-empty current list is pushed onto the
/// closed lists; an empty one is left alone, so no empty list ever appears.
pub open spec fn close_list(s: StateV) -> StateV {
    if s.current.len() > 0 {
        StateV { lists: s.lists.push(s.current), current: Seq::empty(), ..s }
    } else {
        s
    }
}

/// The short-option block after the leading `-`, one character per flag;
/// `h` exits immediately, an unknown character fails with the whole token.
pub open spec fn spec_shorts(s: StateV, rest: Seq<char>, tok: Seq<char>) -> StepOut
    decreases rest.len(),
{
    if rest.len() == 0 {
        StepOut::Next(s)
    } else if rest[0] == 'h' {
        StepOut::Exit(ExitKind::Help)
    } else if rest[0] == 'n' {
        spec_shorts(
            StateV { flags: Flags { uses_shell: false, ..s.flags }, ..s },
            rest.drop_first(),
            tok,
        )
    } else if rest[0] == 'p' {
        spec_shorts(StateV { flags: Flags { pipe: true, ..s.flags }, ..s }, rest.drop_first(), tok)
    } else if rest[0] == 'q' {
        spec_shorts(StateV { quote: true, ..s }, rest.drop_first(), tok)
    } else if rest[0] == 's' {
        spec_shorts(StateV { flags: Flags { quiet: true, ..s.flags }, ..s }, rest.drop_first(), tok)
    } else if rest[0] == 'v' {
        spec_shorts(
            StateV { flags: Flags { verbose: true, ..s.flags }, ..s },
            rest.drop_first(),
            tok,
        )
    } else {
        StepOut::Fail(ParseErrSpec::InvalidArgument(tok))
    }
}

/// A long option `--name`.
pub open spec fn spec_long(s: StateV, t: Seq<char>) -> StepOut {
    let name = t.skip(2);
    if name == "help"@ {
        StepOut::Exit(ExitKind::Help)
    } else if name == "jobs"@ {
        StepOut::Next(StateV { awaiting_jobs: true, ..s })
    } else if name == "no-shell"@ {
        StepOut::Next(StateV { flags: Flags { uses_shell: false, ..s.flags }, ..s })
    } else if name == "num-cpu-cores"@ {
        StepOut::Exit(ExitKind::NumCpuCores)
    } else if name == "pipe"@ {
        StepOut::Next(StateV { flags: Flags { pipe: true, ..s.flags }, ..s })
    } else if name == "quiet"@ || name == "silent"@ {
        StepOut::Next(StateV { flags: Flags { quiet: true, ..s.flags }, ..s })
    } else if name == "quote"@ {
        StepOut::Next(StateV { quote: true, ..s })
    } else if name == "shellquote"@ {
        StepOut::Next(StateV { shellquote: true, ..s })
    } else if name == "verbose"@ {
        StepOut::Next(StateV { flags: Flags { verbose: true, ..s.flags }, ..s })
    } else if name == "version"@ {
        StepOut::Exit(ExitKind::Version)
    } else {
        StepOut::Fail(ParseErrSpec::InvalidArgument(t))
    }
}

/// One token while still in `Arguments` mode: an option, a separator that
/// makes the inputs themselves the commands, or the start of the command
/// template.
pub open spec fn spec_step_arguments(s: StateV, t: Seq<char>) -> StepOut {
    if t.len() > 0 && t[0] == '-' {
        if t.len() == 1 {
            StepOut::Fail(ParseErrSpec::InvalidArgument(t))
        } else if t[1] == 'j' {
            if t.len() > 2 {
                match jobs::spec_jobs(t.skip(2), s.cores) {
                    Some(n) => StepOut::Next(StateV { ncores: n, ..s }),
                    None => StepOut::Fail(ParseErrSpec::Jobs(t.skip(2))),
                }
            } else {
                StepOut::Next(StateV { awaiting_jobs: true, ..s })
            }
        } else if t[1] == '-' {
            spec_long(s, t)
        } else {
            spec_shorts(s, t.skip(1), t)
        }
    } else {
        if t == ":::"@ {
            StepOut::Next(
                StateV {
                    mode: Mode::Inputs,
                    flags: Flags { inputs_are_commands: true, ..s.flags },
                    ..s
                },
            )
        } else if t == "::::"@ {
            StepOut::Next(
                StateV {
                    mode: Mode::Files,
                    flags: Flags { inputs_are_commands: true, ..s.flags },
                    ..s
                },
            )
        } else {
            StepOut::Next(StateV { mode: Mode::Command, command: s.command + t, ..s })
        }
    }
}

/// One token of the grammar: the token after `-j`/`--jobs` is always the
/// job-count value; otherwise the current mode decides.
pub open spec fn spec_step(s: StateV, t: Seq<char>) -> StepOut {
    if s.awaiting_jobs {
        match jobs::spec_jobs(t, s.cores) {
            Some(n) => StepOut::Next(StateV { awaiting_jobs: false, ncores: n, ..s }),
            None => StepOut::Fail(ParseErrSpec::Jobs(t)),
        }
    } else {
        match s.mode {
            Mode::Arguments => spec_step_arguments(s, t),
            Mode::Command => {
                if t == ":::"@ || t == ":::+"@ {
                    StepOut::Next(StateV { mode: Mode::Inputs, ..s })
                } else if t == "::::"@ || t == "::::+"@ {
                    StepOut::Next(StateV { mode: Mode::Files, ..s })
                } else {
                    StepOut::Next(StateV { command: s.command + seq![' '] + t, ..s })
                }
            },
            _ => {
                if t == ":::"@ {
                    StepOut::Next(StateV { mode: Mode::Inputs, ..close_list(s) })
                } else if t == ":::+"@ {
                    StepOut::Next(StateV { mode: Mode::Inputs, ..s })
                } else if t == "::::"@ {
                    StepOut::Next(StateV { mode: Mode::Files, ..close_list(s) })
                } else if t == "::::+"@ {
                    StepOut::Next(StateV { mode: Mode::Files, ..s })
                } else {
                    StepOut::Next(
                        StateV {
                            current: s.current.push(
                                EntryV { is_file: s.mode is Files, text: t },
                            ),
                            ..s
                        },
                    )
                }
            },
        }
    }
}

/// What a correct step implementation reports: the spec transition, with
/// the state untouched on exits and failures.
pub open spec fn step_post(
    pre: StateV,
    t: Seq<char>,
    post: StateV,
    r: Result<StepFlow, ParseErr>,
) -> bool {
    match r {
        Ok(StepFlow::Continue) => spec_step(pre, t) == StepOut::Next(post),
        Ok(StepFlow::Exit(k)) => spec_step(pre, t) == StepOut::Exit(k) && post == pre,
        Err(e) => spec_step(pre, t) == StepOut::Fail(e@) && post == pre,
    }
}

/// Runs the step function over a token sequence, stopping at the first
/// exit or failure.
pub open spec fn run_steps(s: StateV, toks: Seq<Seq<char>>) -> StepOut
    decreases toks.len(),
{
    if toks.len() == 0 {
        StepOut::Next(s)
    } else {
        match spec_step(s, toks[0]) {
            StepOut::Next(s2) => run_steps(s2, toks.drop_first()),
            o => o,
        }
    }
}

/// The state parsing starts in: the first token is peeked at to pick the
/// initial mode, and a leading separator makes the inputs the commands.
pub open spec fn init_state(first: Seq<char>, ncores0: int, cores: int) -> StateV {
    let m = if first == ":::"@ {
        Mode::Inputs
    } else if first == "::::"@ {
        Mode::Files
    } else {
        Mode::Arguments
    };
    StateV {
        mode: m,
        awaiting_jobs: false,
        flags: Flags {
            inputs_are_commands: !(m is Arguments),
            pipe: false,
            uses_shell: true,
            quiet: false,
            verbose: false,
        },
        ncores: ncores0,
        cores: cores,
        command: Seq::empty(),
        lists: Seq::empty(),
        current: Seq::empty(),
        quote: false,
        shellquote: false,
    }
}

/// What the grammar makes of a whole argument vector.
pub enum GrammarOut {
    /// An informational option: print and exit.
    Exit(ExitKind),
    /// The final state, its trailing list closed.
    Run(StateV),
    /// A grammar failure.
    Fail(ParseErrSpec),
}

/// The whole grammar: an empty argument vector fails; a trailing `-j` with
/// no value fails; otherwise the final state with its last list closed.
pub open spec fn spec_grammar(args: Seq<Seq<char>>, ncores0: int, cores: int) -> GrammarOut {
    if args.len() == 0 {
        GrammarOut::Fail(ParseErrSpec::NoArguments)
    } else {
        match run_steps(init_state(args[0], ncores0, cores), args) {
            StepOut::Next(s) => {
                if s.awaiting_jobs {
                    GrammarOut::Fail(ParseErrSpec::JobsNoValue)
                } else {
                    GrammarOut::Run(close_list(s))
                }
            },
            StepOut::Exit(k) => GrammarOut::Exit(k),
            StepOut::Fail(g) => GrammarOut::Fail(g),
        }
    }
}

impl ParseState {
    /// Closes the current list, if it is non-empty.
    pub fn close_current(&mut self)
        ensures
            final(self)@ == close_list(old(self)@),
    {
        if self.current.len() > 0 {
            let mut tmp: Vec<Entry> = Vec::new();
            core::mem::swap(&mut tmp, &mut self.current);
            self.lists.push(tmp);
            proof {
                assert(self.current.deep_view() =~= Seq::<EntryV>::empty());
                assert(self.lists.deep_view() =~= old(self).lists.deep_view().push(
                    old(self).current.deep_view(),
                ));
                assert(self@ =~= close_list(old(self)@));
            }
        } else {
            proof {
                assert(old(self).current.deep_view().len() == 0);
            }
        }
    }

    /// Consumes one token.
    pub fn step(&mut self, token: &String) -> (r: Result<StepFlow, ParseErr>)
        ensures
            step_post(old(self)@, token@, final(self)@, r),
    {
        if self.awaiting_jobs {
            match jobs::parse(token.as_str(), self.cores) {
                Ok(v) => {
                    self.awaiting_jobs = false;
                    self.ncores = v;
                    proof {
                        assert(self@ =~= (StateV {
                            awaiting_jobs: false,
                            ncores: v as int,
                            ..old(self)@
                        }));
                    }
                    Ok(StepFlow::Continue)
                },
                Err(e) => Err(e),
            }
        } else {
            match self.mode {
                Mode::Arguments => self.step_arguments(token),
                Mode::Command => {
                    if eq_lit(token, ":::") || eq_lit(token, ":::+") {
                        self.mode = Mode::Inputs;
                        proof {
                            assert(self@ =~= (StateV { mode: Mode::Inputs, ..old(self)@ }));
                        }
                        Ok(StepFlow::Continue)
                    } else if eq_lit(token, "::::") || eq_lit(token, "::::+") {
                        self.mode = Mode::Files;
                        proof {
                            assert(self@ =~= (StateV { mode: Mode::Files, ..old(self)@ }));
                        }
                        Ok(StepFlow::Continue)
                    } else {
                        self.command.append(" ");
                        self.command.append(token.as_str());
                        proof {
                            reveal_strlit(" ");
                            assert(" "@ =~= seq![' ']);
                            assert(self@ =~= (StateV {
                                command: old(self)@.command + seq![' '] + token@,
                                ..old(self)@
                            }));
                        }
                        Ok(StepFlow::Continue)
                    }
                },
                _ => {
                    if eq_lit(token, ":::") {
                        self.close_current();
                        self.mode = Mode::Inputs;
                        proof {
                            assert(self@ =~= (StateV {
                                mode: Mode::Inputs,
                                ..close_list(old(self)@)
                            }));
                        }
                        Ok(StepFlow::Continue)
                    } else if eq_lit(token, ":::+") {
                        self.mode = Mode::Inputs;
                        proof {
                            assert(self@ =~= (StateV { mode: Mode::Inputs, ..old(self)@ }));
                        }
                        Ok(StepFlow::Continue)
                    } else if eq_lit(token, "::::") {
                        self.close_current();
                        self.mode = Mode::Files;
                        proof {
                            assert(self@ =~= (StateV {
                                mode: Mode::Files,
                                ..close_list(old(self)@)
                            }));
                        }
                        Ok(StepFlow::Continue)
                    } else if eq_lit(token, "::::+") {
                        self.mode = Mode::Files;
                        proof {
                            assert(self@ =~= (StateV { mode: Mode::Files, ..old(self)@ }));
                        }
                        Ok(StepFlow::Continue)
                    } else {
                        let is_file = matches!(self.mode, Mode::Files);
                        let e = Entry { is_file, text: token.clone() };
                        proof {
                            assert(e@ == (EntryV { is_file: old(self)@.mode is Files, text: token@ }));
                        }
                        self.current.push(e);
                        proof {
                            assert(self.current.deep_view() =~= old(self).current.deep_view().push(
                                e@,
                            ));
                            assert(self@ =~= (StateV {
                                current: old(self)@.current.push(
                                    EntryV { is_file: old(self)@.mode is Files, text: token@ },
                                ),
                                ..old(self)@
                            }));
                        }
                        Ok(StepFlow::Continue)
                    }
                },
            }
        }
    }

    /// Consumes one token while in `Arguments` mode.
    fn step_arguments(&mut self, token: &String) -> (r: Result<StepFlow, ParseErr>)
        requires
            old(self)@.mode is Arguments,
            !old(self)@.awaiting_jobs,
        ensures
            step_post(old(self)@, token@, final(self)@, r),
    {
        let cs = chars_vec(token.as_str());
        let n = cs.len();
        if n > 0 && cs[0] == '-' {
            if n == 1 {
                return Err(ParseErr::InvalidArgument(token.clone()));
            }
            if cs[1] == 'j' {
                if n > 2 {
                    let val = token.as_str().substring_char(2, n);
                    proof {
                        assert(val@ =~= token@.skip(2));
                    }
                    match jobs::parse(val, self.cores) {
                        Ok(v) => {
                            self.ncores = v;
                            proof {
                                assert(self@ =~= (StateV { ncores: v as int, ..old(self)@ }));
                            }
                            Ok(StepFlow::Continue)
                        },
                        Err(e) => Err(e),
                    }
                } else {
                    self.awaiting_jobs = true;
                    proof {
                        assert(self@ =~= (StateV { awaiting_jobs: true, ..old(self)@ }));
                    }
                    Ok(StepFlow::Continue)
                }
            } else if cs[1] == '-' {
                self.step_long(token, n)
            } else {
                self.step_shorts(&cs, token)
            }
        } else {
            if eq_lit(token, ":::") {
                self.mode = Mode::Inputs;
                self.flags.inputs_are_commands = true;
                proof {
                    assert(self@ =~= (StateV {
                        mode: Mode::Inputs,
                        flags: Flags { inputs_are_commands: true, ..old(self)@.flags },
                        ..old(self)@
                    }));
                }
                Ok(StepFlow::Continue)
            } else if eq_lit(token, "::::") {
                self.mode = Mode::Files;
                self.flags.inputs_are_commands = true;
                proof {
                    assert(self@ =~= (StateV {
                        mode: Mode::Files,
                        flags: Flags { inputs_are_commands: true, ..old(self)@.flags },
                        ..old(self)@
                    }));
                }
                Ok(StepFlow::Continue)
            } else {
                self.command.append(token.as_str());
                self.mode = Mode::Command;
                proof {
                    assert(self@ =~= (StateV {
                        mode: Mode::Command,
                        command: old(self)@.command + token@,
                        ..old(self)@
                    }));
                }
                Ok(StepFlow::Continue)
            }
        }
    }

    /// A long option `--name`.
    fn step_long(&mut self, token: &String, n: usize) -> (r: Result<StepFlow, ParseErr>)
        requires
            old(self)@.mode is Arguments,
            !old(self)@.awaiting_jobs,
            n == token@.len(),
            n >= 2,
            token@[0] == '-',
            token@[1] == '-',
        ensures
            step_post(old(self)@, token@, final(self)@, r),
    {
        let name = token.as_str().substring_char(2, n);
        proof {
            assert(name@ =~= token@.skip(2));
        }
        if str_eq(name, "help") {
            Ok(StepFlow::Exit(ExitKind::Help))
        } else if str_eq(name, "jobs") {
            self.awaiting_jobs = true;
            proof {
                assert(self@ =~= (StateV { awaiting_jobs: true, ..old(self)@ }));
            }
            Ok(StepFlow::Continue)
        } else if str_eq(name, "no-shell") {
            self.flags.uses_shell = false;
            proof {
                assert(self@ =~= (StateV {
                    flags: Flags { uses_shell: false, ..old(self)@.flags },
                    ..old(self)@
                }));
            }
            Ok(StepFlow::Continue)
        } else if str_eq(name, "num-cpu-cores") {
            Ok(StepFlow::Exit(ExitKind::NumCpuCores))
        } else if str_eq(name, "pipe") {
            self.flags.pipe = true;
            proof {
                assert(self@ =~= (StateV {
                    flags: Flags { pipe: true, ..old(self)@.flags },
                    ..old(self)@
                }));
            }
            Ok(StepFlow::Continue)
        } else if str_eq(name, "quiet") || str_eq(name, "silent") {
            self.flags.quiet = true;
            proof {
                assert(self@ =~= (StateV {
                    flags: Flags { quiet: true, ..old(self)@.flags },
                    ..old(self)@
                }));
            }
            Ok(StepFlow::Continue)
        } else if str_eq(name, "quote") {
            self.quote = true;
            proof {
                assert(self@ =~= (StateV { quote: true, ..old(self)@ }));
            }
            Ok(StepFlow::Continue)
        } else if str_eq(name, "shellquote") {
            self.shellquote = true;
            proof {
                assert(self@ =~= (StateV { shellquote: true, ..old(self)@ }));
            }
            Ok(StepFlow::Continue)
        } else if str_eq(name, "verbose") {
            self.flags.verbose = true;
            proof {
                assert(self@ =~= (StateV {
                    flags: Flags { verbose: true, ..old(self)@.flags },
                    ..old(self)@
                }));
            }
            Ok(StepFlow::Continue)
        } else if str_eq(name, "version") {
            Ok(StepFlow::Exit(ExitKind::Version))
        } else {
            Err(ParseErr::InvalidArgument(token.clone()))
        }
    }

    /// A block of short options `-xyz`, one character per flag.
    fn step_shorts(&mut self, cs: &Vec<char>, token: &String) -> (r: Result<StepFlow, ParseErr>)
        requires
            old(self)@.mode is Arguments,
            !old(self)@.awaiting_jobs,
            cs@ == token@,
            cs@.len() >= 2,
            cs@[0] == '-',
            !(cs@[1] == 'j'),
            !(cs@[1] == '-'),
        ensures
            step_post(old(self)@, token@, final(self)@, r),
    {
        let ghost pre = old(self)@;
        let n = cs.len();
        let mut fl: Flags = self.flags;
        let mut q: bool = self.quote;
        let mut i: usize = 1;
        proof {
            assert(token@.skip(1).drop_first() =~= token@.skip(2));
            assert((StateV { flags: fl, quote: q, ..pre }) =~= pre);
            assert(token@.len() > 0 && token@[0] == '-');
            assert(spec_step(pre, token@) == spec_step_arguments(pre, token@));
            assert(spec_step_arguments(pre, token@) == spec_shorts(pre, token@.skip(1), token@));
        }
        while i < n
            invariant
                1 <= i <= n,
                n == cs@.len(),
                cs@ == token@,
                pre == old(self)@,
                pre.mode is Arguments,
                !pre.awaiting_jobs,
                token@.len() >= 2,
                token@[0] == '-',
                !(token@[1] == 'j'),
                !(token@[1] == '-'),
                spec_shorts(pre, token@.skip(1), token@) == spec_shorts(
                    StateV { flags: fl, quote: q, ..pre },
                    token@.skip(i as int),
                    token@,
                ),
                self@ == pre,
            decreases n - i,
        {
            let c = cs[i];
            proof {
                assert(token@.skip(i as int)[0] == token@[i as int]);
                assert(token@.skip(i as int).drop_first() =~= token@.skip(i + 1 as int));
            }
            if c == 'h' {
                proof {
                    assert(spec_shorts(
                        StateV { flags: fl, quote: q, ..pre },
                        token@.skip(i as int),
                        token@,
                    ) == StepOut::Exit(ExitKind::Help));
                    assert(spec_step(pre, token@) == spec_shorts(pre, token@.skip(1), token@));
                }
                return Ok(StepFlow::Exit(ExitKind::Help));
            } else if c == 'n' {
                fl.uses_shell = false;
            } else if c == 'p' {
                fl.pipe = true;
            } else if c == 'q' {
                q = true;
            } else if c == 's' {
                fl.quiet = true;
            } else if c == 'v' {
                fl.verbose = true;
            } else {
                proof {
                    assert(spec_shorts(
                        StateV { flags: fl, quote: q, ..pre },
                        token@.skip(i as int),
                        token@,
                    ) == StepOut::Fail(ParseErrSpec::InvalidArgument(token@)));
                    assert(spec_step(pre, token@) == spec_shorts(pre, token@.skip(1), token@));
                }
                return Err(ParseErr::InvalidArgument(token.clone()));
            }
            i = i + 1;
        }
        proof {
            assert(token@.skip(n as int) =~= Seq::<char>::empty());
        }
        self.flags = fl;
        self.quote = q;
        proof {
            assert(self@ =~= (StateV { flags: fl, quote: q, ..pre }));
            assert(spec_step(pre, token@) == spec_shorts(pre, token@.skip(1), token@));
        }
        Ok(StepFlow::Continue)
    }
}

/// Feeding `:::+` (or `::::+`) as the very first list separator — from
/// command mode, or in a list mode before any value has been collected —
/// behaves exactly like the plain `:::` (or `::::`): there is no prior
/// list to continue, so nothing is closed either way.
pub proof fn lemma_plus_separator_like_plain(s: StateV)
    requires
        !s.awaiting_jobs,
        (s.mode is Command) || ((s.mode is Inputs || s.mode is Files) && s.current.len() == 0),
    ensures
        spec_step(s, ":::+"@) == spec_step(s, ":::"@),
        spec_step(s, "::::+"@) == spec_step(s, "::::"@),
{
    reveal_strlit(":::");
    reveal_strlit(":::+");
    reveal_strlit("::::");
    reveal_strlit("::::+");
    assert(":::"@.len() == 3);
    assert(":::+"@.len() == 4);
    assert("::::"@.len() == 4);
    assert("::::+"@.len() == 5);
    assert(":::+"@[3] == '+');
    assert("::::"@[3] == ':');
    assert(!(":::+"@ == "::::"@));
}

/// How many file entries a list holds.
pub open spec fn file_count(es: Seq<EntryV>) -> int
    decreases es.len(),
{
    if es.len() == 0 {
        0
    } else {
        (if es[0].is_file {
            1int
        } else {
            0int
        }) + file_count(es.drop_first())
    }
}

/// The values of a list once each file entry is replaced, in place, by the
/// lines read from its file: `ex` holds one expansion per file entry, in
/// order.
pub open spec fn spliced(es: Seq<EntryV>, ex: Seq<Seq<Seq<char>>>) -> Seq<Seq<char>>
    decreases es.len(),
{
    if es.len() == 0 {
        Seq::empty()
    } else if es[0].is_file {
        ex[0] + spliced(es.drop_first(), ex.drop_first())
    } else {
        seq![es[0].text] + spliced(es.drop_first(), ex)
    }
}

proof fn lemma_file_count_nonneg(es: Seq<EntryV>)
    ensures
        file_count(es) >= 0,
    decreases es.len(),
{
    if es.len() > 0 {
        lemma_file_count_nonneg(es.drop_first());
    }
}

proof fn lemma_file_count_step(es: Seq<EntryV>, i: int)
    requires
        0 <= i < es.len(),
    ensures
        file_count(es.take(i + 1)) == file_count(es.take(i)) + (if es[i].is_file {
            1int
        } else {
            0int
        }),
    decreases i,
{
    if i == 0 {
        assert(es.take(1).drop_first() =~= es.take(0));
        assert(es.take(1)[0] == es[0]);
    } else {
        lemma_file_count_step(es.drop_first(), i - 1);
        assert(es.take(i + 1).drop_first() =~= es.drop_first().take(i));
        assert(es.take(i).drop_first() =~= es.drop_first().take(i - 1));
        assert(es.take(i + 1)[0] == es[0]);
        assert(es.take(i)[0] == es[0]);
        assert(es.drop_first()[i - 1] == es[i]);
    }
}

proof fn lemma_file_count_prefix(es: Seq<EntryV>, i: int)
    requires
        0 <= i <= es.len(),
    ensures
        file_count(es.take(i)) <= file_count(es),
    decreases es.len() - i,
{
    if i == es.len() {
        assert(es.take(i) =~= es);
    } else {
        lemma_file_count_prefix(es, i + 1);
        lemma_file_count_step(es, i);
    }
}

/// Replaces each file entry of a list by its expansion, in order: the
/// application reads the files, this function builds the final list. `None`
/// when the number of expansions does not match the number of file entries.
pub fn splice_entries(entries: &Vec<Entry>, expansions: &Vec<Vec<String>>) -> (r: Option<
    Vec<String>,
>)
    ensures
        ({
            let es = entries.deep_view();
            let ex = expansions.deep_view();
            if file_count(es) == ex.len() {
                r matches Some(v) && v.deep_view() == spliced(es, ex)
            } else {
                r is None
            }
        }),
{
    let ghost es = entries.deep_view();
    let ghost ex = expansions.deep_view();
    let mut out: Vec<String> = Vec::new();
    let mut fi: usize = 0;
    let mut i: usize = 0;
    proof {
        assert(es.skip(0) =~= es);
        assert(ex.skip(0) =~= ex);
        assert(out.deep_view() =~= Seq::<Seq<char>>::empty());
        assert(out.deep_view() + spliced(es, ex) =~= spliced(es, ex));
        assert(file_count(es.take(0)) == 0);
    }
    while i < entries.len()
        invariant
            0 <= i <= entries@.len(),
            0 <= fi <= expansions@.len(),
            es == entries.deep_view(),
            ex == expansions.deep_view(),
            es.len() == entries@.len(),
            ex.len() == expansions@.len(),
            fi == file_count(es.take(i as int)),
            spliced(es, ex) == out.deep_view() + spliced(es.skip(i as int), ex.skip(fi as int)),
        decreases entries@.len() - i,
    {
        proof {
            assert(es.skip(i as int)[0] == es[i as int]);
            assert(es.skip(i as int).drop_first() =~= es.skip(i + 1 as int));
            assert(es[i as int] == entries@[i as int]@);
            lemma_file_count_step(es, i as int);
        }
        if entries[i].is_file {
            if fi >= expansions.len() {
                proof {
                    lemma_file_count_prefix(es, i + 1 as int);
                    assert(file_count(es) >= fi + 1);
                }
                return None;
            }
            proof {
                assert(ex.skip(fi as int)[0] == ex[fi as int]);
                assert(ex.skip(fi as int).drop_first() =~= ex.skip(fi + 1 as int));
                assert(ex[fi as int] =~= expansions@[fi as int].deep_view());
            }
            let ghost out_before = out.deep_view();
            let m = expansions[fi].len();
            let mut t: usize = 0;
            while t < m
                invariant
                    0 <= t <= m,
                    fi < expansions@.len(),
                    ex == expansions.deep_view(),
                    m == expansions@[fi as int]@.len(),
                    ex[fi as int].len() == m,
                    out.deep_view() == out_before + ex[fi as int].take(t as int),
                decreases m - t,
            {
                let v = expansions[fi][t].clone();
                proof {
                    assert(expansions@[fi as int]@[t as int]@ == ex[fi as int][t as int]);
                    assert(v@ == ex[fi as int][t as int]);
                }
                let ghost odv = out.deep_view();
                out.push(v);
                proof {
                    assert(out.deep_view() =~= odv.push(ex[fi as int][t as int]));
                    assert(ex[fi as int].take(t + 1 as int) =~= ex[fi as int].take(t as int).push(
                        ex[fi as int][t as int],
                    ));
                    assert(out.deep_view() =~= out_before + ex[fi as int].take(t + 1 as int));
                }
                t = t + 1;
            }
            proof {
                assert(ex[fi as int].take(m as int) =~= ex[fi as int]);
                assert(spliced(es, ex) =~= out.deep_view() + spliced(
                    es.skip(i + 1 as int),
                    ex.skip(fi + 1 as int),
                ));
            }
            fi = fi + 1;
        } else {
            let v = entries[i].text.clone();
            out.push(v);
            proof {
                assert(out.deep_view() =~= out.deep_view().drop_last().push(
                    es[i as int].text,
                ));
                assert(spliced(es, ex) =~= out.deep_view() + spliced(
                    es.skip(i + 1 as int),
                    ex.skip(fi as int),
                ));
            }
        }
        i = i + 1;
    }
    proof {
        assert(es.take(es.len() as int) =~= es);
        assert(es.skip(es.len() as int) =~= Seq::<EntryV>::empty());
    }
    if fi == expansions.len() {
        proof {
            assert(out.deep_view() + Seq::<Seq<char>>::empty() =~= out.deep_view());
        }
        Some(out)
    } else {
        None
    }
}


/// Once parsing has left `Arguments` mode it never returns to it: every
/// step taken from another mode lands in `Command`, `Inputs` or `Files`.
pub proof fn lemma_mode_never_returns(s: StateV, t: Seq<char>)
    requires
        !(s.mode is Arguments),
        spec_step(s, t) matches StepOut::Next(s2),
    ensures
        !(spec_step(s, t)->Next_0.mode is Arguments),
{
}

} // verus!
