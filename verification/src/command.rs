//! The two optional transforms applied to the command template before it is
//! compiled into tokens: `quote_command` doubles every backslash, and
//! `shellquote_command` escapes shell metacharacters in everything after the
//! binary name.

use vstd::prelude::*;
use crate::strutil::chars_vec;
use crate::strutil::string_from_chars;

verus! {

/// What one character contributes to the quoted command: every backslash is
/// doubled, every other character is left unchanged.
pub open spec fn quote_unit(c: char) -> Seq<char> {
    if c == '\\' {
        seq![c, c]
    } else {
        seq![c]
    }
}

/// The quote transform of a whole template.
pub open spec fn quoted(s: Seq<char>) -> Seq<char>
    decreases s.len(),
{
    if s.len() == 0 {
        Seq::empty()
    } else {
        quote_unit(s[0]) + quoted(s.drop_first())
    }
}

/// The shell metacharacters that `shellquote_command` escapes.
pub open spec fn is_shell_special(c: char) -> bool {
    ||| c == '$'
    ||| c == ' '
    ||| c == '\\'
    ||| c == '>'
    ||| c == '<'
    ||| c == '^'
    ||| c == '&'
    ||| c == '#'
    ||| c == '!'
    ||| c == '*'
    ||| c == '\''
    ||| c == '"'
    ||| c == '`'
    ||| c == '~'
    ||| c == '{'
    ||| c == '}'
    ||| c == '['
    ||| c == ']'
    ||| c == '('
    ||| c == ')'
    ||| c == ';'
    ||| c == '|'
    ||| c == '?'
}

/// The shellquote transform: `found` says whether the space separating the
/// binary name from its arguments has already been passed. That first space
/// is emitted unescaped; afterwards every metacharacter — further spaces
/// included — gains a preceding backslash.
pub open spec fn shellquoted_from(s: Seq<char>, found: bool) -> Seq<char>
    decreases s.len(),
{
    if s.len() == 0 {
        Seq::empty()
    } else if s[0] == ' ' && !found {
        seq![' '] + shellquoted_from(s.drop_first(), true)
    } else {
        (if is_shell_special(s[0]) {
            seq!['\\', s[0]]
        } else {
            seq![s[0]]
        }) + shellquoted_from(s.drop_first(), found)
    }
}

/// How many backslashes a template holds.
pub open spec fn count_backslashes(s: Seq<char>) -> int
    decreases s.len(),
{
    if s.len() == 0 {
        0
    } else {
        (if s[0] == '\\' {
            1int
        } else {
            0int
        }) + count_backslashes(s.drop_first())
    }
}

/// Doubles every backslash of the command and leaves every other character
/// unchanged.
pub fn quote_command(command: String) -> (r: String)
    ensures
        r@ == quoted(command@),
{
    let cs = chars_vec(command.as_str());
    let n = cs.len();
    let mut out: Vec<char> = Vec::new();
    let mut i: usize = 0;
    proof {
        assert(cs@.skip(0) =~= cs@);
        assert(out@ + quoted(cs@) =~= quoted(cs@));
    }
    while i < n
        invariant
            0 <= i <= n,
            n == cs@.len(),
            cs@ == command@,
            out@ + quoted(cs@.skip(i as int)) == quoted(cs@),
        decreases n - i,
    {
        let c = cs[i];
        if c == '\\' {
            out.push('\\');
            out.push(c);
        } else {
            out.push(c);
        }
        proof {
            assert(cs@.skip(i as int)[0] == cs@[i as int]);
            assert(cs@.skip(i as int).drop_first() =~= cs@.skip(i + 1 as int));
            assert(out@ + quoted(cs@.skip(i + 1 as int)) =~= quoted(cs@));
        }
        i = i + 1;
    }
    proof {
        assert(cs@.skip(n as int) =~= Seq::<char>::empty());
        assert(out@ =~= quoted(cs@));
    }
    string_from_chars(out)
}

/// Treats the command as a binary name followed by arguments: the first
/// space passes through unescaped as the boundary, and every shell
/// metacharacter after it gains a preceding backslash.
pub fn shellquote_command(command: String) -> (r: String)
    ensures
        r@ == shellquoted_from(command@, false),
{
    let cs = chars_vec(command.as_str());
    let n = cs.len();
    let mut out: Vec<char> = Vec::new();
    let mut found: bool = false;
    let mut i: usize = 0;
    proof {
        assert(cs@.skip(0) =~= cs@);
        assert(out@ + shellquoted_from(cs@, false) =~= shellquoted_from(cs@, false));
    }
    while i < n
        invariant
            0 <= i <= n,
            n == cs@.len(),
            cs@ == command@,
            out@ + shellquoted_from(cs@.skip(i as int), found) == shellquoted_from(cs@, false),
        decreases n - i,
    {
        let c = cs[i];
        proof {
            assert(cs@.skip(i as int)[0] == cs@[i as int]);
            assert(cs@.skip(i as int).drop_first() =~= cs@.skip(i + 1 as int));
        }
        if c == ' ' && !found {
            found = true;
            out.push(c);
        } else {
            if is_special(c) {
                out.push('\\');
            }
            out.push(c);
        }
        proof {
            assert(out@ + shellquoted_from(cs@.skip(i + 1 as int), found) =~= shellquoted_from(
                cs@,
                false,
            ));
        }
        i = i + 1;
    }
    proof {
        assert(cs@.skip(n as int) =~= Seq::<char>::empty());
        assert(out@ =~= shellquoted_from(cs@, false));
    }
    string_from_chars(out)
}

/// Whether the character is one of the escaped shell metacharacters.
fn is_special(c: char) -> (r: bool)
    ensures
        r == is_shell_special(c),
{
    match c {
        '$' | ' ' | '\\' | '>' | '<' | '^' | '&' | '#' | '!' | '*' | '\'' | '"' | '`' | '~'
            | '{' | '}' | '[' | ']' | '(' | ')' | ';' | '|' | '?' => true,
        _ => false,
    }
}

proof fn lemma_count_concat(a: Seq<char>, b: Seq<char>)
    ensures
        count_backslashes(a + b) == count_backslashes(a) + count_backslashes(b),
    decreases a.len(),
{
    if a.len() == 0 {
        assert(a + b =~= b);
    } else {
        lemma_count_concat(a.drop_first(), b);
        assert((a + b).drop_first() =~= a.drop_first() + b);
    }
}

proof fn lemma_count_nonneg(s: Seq<char>)
    ensures
        count_backslashes(s) >= 0,
    decreases s.len(),
{
    if s.len() > 0 {
        lemma_count_nonneg(s.drop_first());
    }
}

proof fn lemma_quoted_len(s: Seq<char>)
    ensures
        quoted(s).len() == s.len() + count_backslashes(s),
    decreases s.len(),
{
    if s.len() > 0 {
        lemma_quoted_len(s.drop_first());
    }
}

proof fn lemma_quoted_count(s: Seq<char>)
    ensures
        count_backslashes(quoted(s)) == 2 * count_backslashes(s),
    decreases s.len(),
{
    if s.len() > 0 {
        lemma_quoted_count(s.drop_first());
        lemma_count_concat(quote_unit(s[0]), quoted(s.drop_first()));
        assert(count_backslashes(quote_unit(s[0])) == if s[0] == '\\' {
            2int
        } else {
            0int
        }) by {
            reveal_with_fuel(count_backslashes, 4);
            let u = quote_unit(s[0]);
            if s[0] == '\\' {
                assert(u.len() == 2 && u[0] == '\\');
                assert(u.drop_first() =~= seq![s[0]]);
                assert(seq![s[0]].drop_first() =~= Seq::<char>::empty());
                assert(count_backslashes(seq![s[0]]) == 1);
                assert(count_backslashes(u) == 2);
            } else {
                assert(u.len() == 1 && u[0] == s[0]);
                assert(u.drop_first() =~= Seq::<char>::empty());
                assert(count_backslashes(u) == 0);
            }
        }
    }
}

/// The quote transform is not idempotent: once a template holds a
/// backslash, quoting the quoted template grows it again (each original
/// backslash has become four), so the two differ.
pub proof fn lemma_quote_not_idempotent(s: Seq<char>)
    requires
        count_backslashes(s) > 0,
    ensures
        quoted(quoted(s)) != quoted(s),
{
    lemma_quoted_len(s);
    lemma_quoted_len(quoted(s));
    lemma_quoted_count(s);
    lemma_count_nonneg(s);
    assert(quoted(quoted(s)).len() > quoted(s).len());
}

} // verus!
