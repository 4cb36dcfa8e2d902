//! The command tokenizer: compiles the (possibly quote-transformed) command
//! template into an immutable sequence of literal and placeholder tokens,
//! replayed per job by the external execution engine.
//!
//! The placeholder grammar of this library: `{}` stands for the current
//! job's argument tuple, `{#}` for the job's sequence index, and `{%}` for
//! the total job count. Any other text after an opening brace is a
//! malformed placeholder and fails with the position of that brace. A
//! closing brace on its own is literal text.

use vstd::prelude::*;
use crate::strutil::chars_vec;
use crate::strutil::string_from_chars;

verus! {

/// One compiled unit of the command template.
#[derive(Debug, PartialEq, Eq)]
pub enum Token {
    /// A literal span of the template.
    Text(String),
    /// The placeholder for the current job's argument tuple.
    JobArgs,
    /// The placeholder for the job's sequence index.
    JobIndex,
    /// The placeholder for the total job count.
    JobTotal,
}

/// The mathematical shape of a token.
pub enum TokenSpec {
    Text(Seq<char>),
    JobArgs,
    JobIndex,
    JobTotal,
}

impl View for Token {
    type V = TokenSpec;

    open spec fn view(&self) -> TokenSpec {
        match self {
            Token::Text(s) => TokenSpec::Text(s@),
            Token::JobArgs => TokenSpec::JobArgs,
            Token::JobIndex => TokenSpec::JobIndex,
            Token::JobTotal => TokenSpec::JobTotal,
        }
    }
}

/// The views of a token vector, in order.
pub open spec fn token_views(ts: Seq<Token>) -> Seq<TokenSpec> {
    Seq::new(ts.len(), |i: int| ts[i]@)
}

/// A malformed placeholder, reported with the character position of its
/// opening brace in the template.
#[derive(Debug, Clone, Copy, PartialEq, Eq, Structural)]
pub struct TokenErr {
    pub pos: usize,
}

/// The tokens a pending literal run contributes: nothing when it is empty,
/// one literal token otherwise — so literal runs are always maximal.
pub open spec fn emit(lit: Seq<char>) -> Seq<TokenSpec> {
    if lit.len() == 0 {
        Seq::empty()
    } else {
        seq![TokenSpec::Text(lit)]
    }
}

/// Tokenizes `s`, with `lit` the literal run read so far; an error is the
/// offset of the malformed opening brace from the start of `s`.
pub open spec fn tok_from(s: Seq<char>, lit: Seq<char>) -> Result<Seq<TokenSpec>, int>
    decreases s.len(),
{
    if s.len() == 0 {
        Ok(emit(lit))
    } else if s[0] != '{' {
        match tok_from(s.drop_first(), lit.push(s[0])) {
            Ok(ts) => Ok(ts),
            Err(e) => Err(e + 1),
        }
    } else if s.len() >= 2 && s[1] == '}' {
        match tok_from(s.skip(2), Seq::empty()) {
            Ok(ts) => Ok(emit(lit) + seq![TokenSpec::JobArgs] + ts),
            Err(e) => Err(e + 2),
        }
    } else if s.len() >= 3 && s[1] == '#' && s[2] == '}' {
        match tok_from(s.skip(3), Seq::empty()) {
            Ok(ts) => Ok(emit(lit) + seq![TokenSpec::JobIndex] + ts),
            Err(e) => Err(e + 3),
        }
    } else if s.len() >= 3 && s[1] == '%' && s[2] == '}' {
        match tok_from(s.skip(3), Seq::empty()) {
            Ok(ts) => Ok(emit(lit) + seq![TokenSpec::JobTotal] + ts),
            Err(e) => Err(e + 3),
        }
    } else {
        Err(0)
    }
}

/// The tokens of a template, or the position of its malformed placeholder.
pub open spec fn spec_tokenize(s: Seq<char>) -> Result<Seq<TokenSpec>, int> {
    tok_from(s, Seq::empty())
}

/// The surface text a token stands for.
pub open spec fn render_token(t: TokenSpec) -> Seq<char> {
    match t {
        TokenSpec::Text(l) => l,
        TokenSpec::JobArgs => seq!['{', '}'],
        TokenSpec::JobIndex => seq!['{', '#', '}'],
        TokenSpec::JobTotal => seq!['{', '%', '}'],
    }
}

/// The concatenated surface text of a token sequence.
pub open spec fn render(ts: Seq<TokenSpec>) -> Seq<char>
    decreases ts.len(),
{
    if ts.len() == 0 {
        Seq::empty()
    } else {
        render_token(ts[0]) + render(ts.drop_first())
    }
}

proof fn lemma_render_concat(a: Seq<TokenSpec>, b: Seq<TokenSpec>)
    ensures
        render(a + b) == render(a) + render(b),
    decreases a.len(),
{
    if a.len() == 0 {
        assert(a + b =~= b);
        assert(render(a) + render(b) =~= render(b));
    } else {
        lemma_render_concat(a.drop_first(), b);
        assert((a + b).drop_first() =~= a.drop_first() + b);
        assert(render(a + b) =~= render(a) + render(b));
    }
}

proof fn lemma_tok_from_render(s: Seq<char>, lit: Seq<char>)
    requires
        tok_from(s, lit) is Ok,
    ensures
        render(tok_from(s, lit)->Ok_0) == lit + s,
    decreases s.len(),
{
    reveal_with_fuel(render, 3);
    if s.len() == 0 {
        if lit.len() == 0 {
            assert(render(emit(lit)) =~= lit + s);
        } else {
            assert(emit(lit).drop_first() =~= Seq::<TokenSpec>::empty());
            assert(render(emit(lit)) =~= lit + s);
        }
    } else if s[0] != '{' {
        lemma_tok_from_render(s.drop_first(), lit.push(s[0]));
        assert(lit.push(s[0]) + s.drop_first() =~= lit + s);
    } else if s.len() >= 2 && s[1] == '}' {
        lemma_tok_from_render(s.skip(2), Seq::empty());
        let rest = tok_from(s.skip(2), Seq::empty())->Ok_0;
        lemma_render_concat(emit(lit) + seq![TokenSpec::JobArgs], rest);
        lemma_render_concat(emit(lit), seq![TokenSpec::JobArgs]);
        assert(render(seq![TokenSpec::JobArgs]) =~= seq!['{', '}']);
        assert(render(emit(lit)) =~= lit) by {
            if lit.len() != 0 {
                assert(emit(lit).drop_first() =~= Seq::<TokenSpec>::empty());
            }
        }
        assert(Seq::<char>::empty() + s.skip(2) =~= s.skip(2));
        assert(lit + seq!['{', '}'] + s.skip(2) =~= lit + s);
    } else if s.len() >= 3 && s[1] == '#' && s[2] == '}' {
        lemma_tok_from_render(s.skip(3), Seq::empty());
        let rest = tok_from(s.skip(3), Seq::empty())->Ok_0;
        lemma_render_concat(emit(lit) + seq![TokenSpec::JobIndex], rest);
        lemma_render_concat(emit(lit), seq![TokenSpec::JobIndex]);
        assert(render(seq![TokenSpec::JobIndex]) =~= seq!['{', '#', '}']);
        assert(render(emit(lit)) =~= lit) by {
            if lit.len() != 0 {
                assert(emit(lit).drop_first() =~= Seq::<TokenSpec>::empty());
            }
        }
        assert(Seq::<char>::empty() + s.skip(3) =~= s.skip(3));
        assert(lit + seq!['{', '#', '}'] + s.skip(3) =~= lit + s);
    } else {
        lemma_tok_from_render(s.skip(3), Seq::empty());
        let rest = tok_from(s.skip(3), Seq::empty())->Ok_0;
        lemma_render_concat(emit(lit) + seq![TokenSpec::JobTotal], rest);
        lemma_render_concat(emit(lit), seq![TokenSpec::JobTotal]);
        assert(render(seq![TokenSpec::JobTotal]) =~= seq!['{', '%', '}']);
        assert(render(emit(lit)) =~= lit) by {
            if lit.len() != 0 {
                assert(emit(lit).drop_first() =~= Seq::<TokenSpec>::empty());
            }
        }
        assert(Seq::<char>::empty() + s.skip(3) =~= s.skip(3));
        assert(lit + seq!['{', '%', '}'] + s.skip(3) =~= lit + s);
    }
}

/// Tokenization loses nothing: whenever a template tokenizes, concatenating
/// the literal text and the placeholders' surface forms reconstructs the
/// template exactly.
pub proof fn lemma_tokens_reconstruct(s: Seq<char>)
    requires
        spec_tokenize(s) is Ok,
    ensures
        render(spec_tokenize(s)->Ok_0) == s,
{
    lemma_tok_from_render(s, Seq::empty());
    assert(Seq::<char>::empty() + s =~= s);
}

/// Compiles the template into tokens, or reports the position of the first
/// malformed placeholder.
pub fn tokenize(template: &String) -> (r: Result<Vec<Token>, TokenErr>)
    ensures
        ({
            match spec_tokenize(template@) {
                Ok(ts) => r matches Ok(v) && token_views(v@) == ts,
                Err(p) => r matches Err(e) && e.pos == p,
            }
        }),
{
    let cs = chars_vec(template.as_str());
    let n = cs.len();
    let mut out: Vec<Token> = Vec::new();
    let mut cur: Vec<char> = Vec::new();
    let mut p: usize = 0;
    proof {
        assert(cs@.skip(0) =~= cs@);
        assert(token_views(out@) =~= Seq::<TokenSpec>::empty());
    }
    while p < n
        invariant
            0 <= p <= n,
            n == cs@.len(),
            cs@ == template@,
            ({
                match tok_from(cs@.skip(p as int), cur@) {
                    Ok(ts2) => spec_tokenize(cs@) == Ok::<Seq<TokenSpec>, int>(
                        token_views(out@) + ts2,
                    ),
                    Err(e2) => spec_tokenize(cs@) == Err::<Seq<TokenSpec>, int>(p + e2),
                }
            }),
        decreases n - p,
    {
        let ghost out0 = out@;
        let ghost cur0 = cur@;
        let ghost s_here = cs@.skip(p as int);
        proof {
            assert(s_here[0] == cs@[p as int]);
            assert(s_here.drop_first() =~= cs@.skip(p + 1 as int));
            if n - p >= 2 {
                assert(s_here.skip(2) =~= cs@.skip(p + 2 as int));
            }
            if n - p >= 3 {
                assert(s_here.skip(3) =~= cs@.skip(p + 3 as int));
            }
        }
        let c = cs[p];
        if c != '{' {
            cur.push(c);
            p = p + 1;
        } else if n - p >= 2 && cs[p + 1] == '}' {
            flush_literal(&mut out, &mut cur);
            out.push(Token::JobArgs);
            proof {
                lemma_views_push(out@.drop_last(), Token::JobArgs);
                assert(token_views(out@) =~= token_views(out0) + emit(cur0) + seq![
                    TokenSpec::JobArgs,
                ]);
                match tok_from(cs@.skip(p + 2 as int), Seq::<char>::empty()) {
                    Ok(ts_rest) => {
                        assert(token_views(out0) + (emit(cur0) + seq![TokenSpec::JobArgs]
                            + ts_rest) =~= token_views(out@) + ts_rest);
                    },
                    Err(_) => {},
                }
            }
            p = p + 2;
        } else if n - p >= 3 && cs[p + 1] == '#' && cs[p + 2] == '}' {
            flush_literal(&mut out, &mut cur);
            out.push(Token::JobIndex);
            proof {
                lemma_views_push(out@.drop_last(), Token::JobIndex);
                assert(token_views(out@) =~= token_views(out0) + emit(cur0) + seq![
                    TokenSpec::JobIndex,
                ]);
                match tok_from(cs@.skip(p + 3 as int), Seq::<char>::empty()) {
                    Ok(ts_rest) => {
                        assert(token_views(out0) + (emit(cur0) + seq![TokenSpec::JobIndex]
                            + ts_rest) =~= token_views(out@) + ts_rest);
                    },
                    Err(_) => {},
                }
            }
            p = p + 3;
        } else if n - p >= 3 && cs[p + 1] == '%' && cs[p + 2] == '}' {
            flush_literal(&mut out, &mut cur);
            out.push(Token::JobTotal);
            proof {
                lemma_views_push(out@.drop_last(), Token::JobTotal);
                assert(token_views(out@) =~= token_views(out0) + emit(cur0) + seq![
                    TokenSpec::JobTotal,
                ]);
                match tok_from(cs@.skip(p + 3 as int), Seq::<char>::empty()) {
                    Ok(ts_rest) => {
                        assert(token_views(out0) + (emit(cur0) + seq![TokenSpec::JobTotal]
                            + ts_rest) =~= token_views(out@) + ts_rest);
                    },
                    Err(_) => {},
                }
            }
            p = p + 3;
        } else {
            return Err(TokenErr { pos: p });
        }
    }
    proof {
        assert(cs@.skip(n as int) =~= Seq::<char>::empty());
    }
    let ghost out1 = out@;
    let ghost cur1 = cur@;
    if cur.len() > 0 {
        let mut lit: Vec<char> = Vec::new();
        core::mem::swap(&mut lit, &mut cur);
        let ghost litv = lit@;
        let t = Token::Text(string_from_chars(lit));
        proof {
            assert(t@ == TokenSpec::Text(litv));
        }
        out.push(t);
        proof {
            assert(token_views(out@) =~= token_views(out1) + emit(cur1));
        }
    } else {
        proof {
            assert(token_views(out@) =~= token_views(out1) + emit(cur1));
        }
    }
    Ok(out)
}

/// Closes the pending literal run, if any, as one literal token.
fn flush_literal(out: &mut Vec<Token>, cur: &mut Vec<char>)
    ensures
        token_views(final(out)@) == token_views(old(out)@) + emit(old(cur)@),
        final(cur)@ == Seq::<char>::empty(),
{
    if cur.len() > 0 {
        let mut lit: Vec<char> = Vec::new();
        core::mem::swap(&mut lit, cur);
        let ghost litv = lit@;
        let t = Token::Text(string_from_chars(lit));
        proof {
            assert(t@ == TokenSpec::Text(litv));
        }
        out.push(t);
        proof {
            assert(token_views(out@) =~= token_views(out@.drop_last()) + emit(litv));
        }
    } else {
        proof {
            assert(token_views(out@) + emit(cur@) =~= token_views(out@));
        }
    }
}

proof fn lemma_views_push(ts: Seq<Token>, t: Token)
    ensures
        token_views(ts.push(t)) == token_views(ts).push(t@),
{
    assert(token_views(ts.push(t)) =~= token_views(ts).push(t@));
}

} // verus!
