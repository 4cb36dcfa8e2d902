//! The job-count value of `-j` and `--jobs`: either a bare integer, the
//! exact number of jobs, or an integer ending in `%`, a percentage of the
//! detected core count, rounded to the nearest integer with a minimum of 1.

use vstd::prelude::*;
use crate::errors::ParseErr;
use crate::errors::ParseErrSpec;
use crate::strutil::chars_vec;

verus! {

/// Whether every character is a decimal digit.
pub open spec fn is_digits(s: Seq<char>) -> bool {
    forall|i: int| 0 <= i < s.len() ==> 48 <= (#[trigger] s[i]) as u32 <= 57
}

/// The number a digit string denotes.
pub open spec fn digits_val(s: Seq<char>) -> int
    decreases s.len(),
{
    if s.len() == 0 {
        0
    } else {
        digits_val(s.drop_last()) * 10 + (s.last() as u32 - 48)
    }
}

/// The job count a percentage resolves to: the rounded share of the cores,
/// capped at the largest representable count, and at least 1.
pub open spec fn jobs_from_pct(cores: int, p: int) -> int {
    let raw = (cores * p + 50) / 100;
    let capped = if raw > usize::MAX as int {
        usize::MAX as int
    } else {
        raw
    };
    if capped < 1 {
        1
    } else {
        capped
    }
}

/// What a job-count token resolves to: a bare integer gives that count, an
/// integer ending in `%` gives the rounded percentage of the cores; every
/// other shape, and any integer too large for the machine, is refused.
pub open spec fn spec_jobs(t: Seq<char>, cores: int) -> Option<int> {
    if t.len() > 0 && is_digits(t) && digits_val(t) <= usize::MAX {
        Some(digits_val(t))
    } else if t.len() >= 2 && t.last() == '%' && is_digits(t.drop_last()) && digits_val(
        t.drop_last(),
    ) <= usize::MAX {
        Some(jobs_from_pct(cores, digits_val(t.drop_last())))
    } else {
        None
    }
}

proof fn lemma_digits_nonneg(s: Seq<char>)
    requires
        is_digits(s),
    ensures
        digits_val(s) >= 0,
    decreases s.len(),
{
    if s.len() > 0 {
        assert(is_digits(s.drop_last()));
        lemma_digits_nonneg(s.drop_last());
    }
}

/// A digit string denotes at least as much as any of its prefixes.
proof fn lemma_digits_prefix(s: Seq<char>, i: int)
    requires
        is_digits(s),
        0 <= i <= s.len(),
    ensures
        digits_val(s.take(i)) <= digits_val(s),
    decreases s.len() - i,
{
    if i == s.len() {
        assert(s.take(i) =~= s);
    } else {
        lemma_digits_prefix(s, i + 1);
        assert(s.take(i + 1).drop_last() =~= s.take(i));
        assert(s.take(i + 1).last() == s[i]);
        assert(is_digits(s.take(i)));
        lemma_digits_nonneg(s.take(i));
        assert(digits_val(s.take(i + 1)) == digits_val(s.take(i)) * 10 + (s[i] as u32 - 48));
    }
}

/// Resolves a job-count token against the detected core count.
pub fn parse(value: &str, cores: usize) -> (r: Result<usize, ParseErr>)
    ensures
        ({
            match spec_jobs(value@, cores as int) {
                Some(n) => r matches Ok(v) && v == n,
                None => r matches Err(e) && e@ == ParseErrSpec::Jobs(value@),
            }
        }),
{
    let cs = chars_vec(value);
    let n = cs.len();
    if n == 0 {
        return Err(ParseErr::Jobs(String::from_str(value)));
    }
    let is_pct = cs[n - 1] == '%';
    let dlen = if is_pct {
        n - 1
    } else {
        n
    };
    let ghost dseq = if is_pct {
        value@.drop_last()
    } else {
        value@
    };
    proof {
        assert(dseq =~= cs@.take(dlen as int));
    }
    if dlen == 0 {
        // A lone `%`: neither shape fits.
        return Err(ParseErr::Jobs(String::from_str(value)));
    }
    let mut acc: u128 = 0;
    let mut i: usize = 0;
    while i < dlen
        invariant
            0 <= i <= dlen,
            dlen <= n,
            n == cs@.len(),
            cs@ == value@,
            dseq == cs@.take(dlen as int),
            is_pct ==> dseq == value@.drop_last() && value@.last() == '%' && dlen == n - 1,
            !is_pct ==> dseq == value@ && dlen == n && !(value@.last() == '%'),
            n > 0,
            dlen > 0,
            is_digits(cs@.take(i as int)),
            acc == digits_val(cs@.take(i as int)),
            acc <= usize::MAX,
        decreases dlen - i,
    {
        let c = cs[i];
        let cu = c as u32;
        if cu < 48 || cu > 57 {
            proof {
                // A non-digit inside the digit span refuses both shapes.
                assert(dseq[i as int] == cs@[i as int]);
                assert(!is_digits(dseq));
                if is_pct {
                    assert(value@[i as int] == cs@[i as int]);
                    assert(!is_digits(value@));
                }
            }
            return Err(ParseErr::Jobs(String::from_str(value)));
        }
        proof {
            assert(cs@.take(i + 1 as int).drop_last() =~= cs@.take(i as int));
            assert(cs@.take(i + 1 as int).last() == cs@[i as int]);
            assert(is_digits(cs@.take(i + 1 as int)));
        }
        let next: u128 = acc * 10 + (cu - 48) as u128;
        if next > usize::MAX as u128 {
            proof {
                assert(digits_val(cs@.take(i + 1 as int)) > usize::MAX);
                if is_digits(dseq) {
                    lemma_digits_prefix(dseq, i + 1);
                    assert(dseq.take(i + 1) =~= cs@.take(i + 1 as int));
                    assert(digits_val(dseq) > usize::MAX);
                }
                if is_pct && is_digits(value@) {
                    // The trailing `%` is not a digit.
                    assert(value@.last() == '%');
                    assert(value@[n - 1] == '%');
                    assert(48 <= value@[n - 1] as u32 <= 57);
                    assert(false);
                }
            }
            return Err(ParseErr::Jobs(String::from_str(value)));
        }
        acc = next;
        i = i + 1;
    }
    proof {
        assert(cs@.take(dlen as int) =~= dseq);
        assert(is_digits(dseq));
        assert(digits_val(dseq) == acc <= usize::MAX);
    }
    if is_pct {
        proof {
            let x = cores as u128 as int;
            let y = acc as int;
            assert(x * y + 50 <= u128::MAX) by (nonlinear_arith)
                requires
                    0 <= x <= u64::MAX,
                    0 <= y <= u64::MAX,
            ;
        }
        let wide: u128 = (cores as u128) * acc + 50;
        let raw: u128 = wide / 100;
        let capped: usize = if raw > usize::MAX as u128 {
            usize::MAX
        } else {
            raw as usize
        };
        let res: usize = if capped < 1 {
            1
        } else {
            capped
        };
        proof {
            assert(res == jobs_from_pct(cores as int, digits_val(dseq)));
        }
        Ok(res)
    } else {
        Ok(acc as usize)
    }
}

} // verus!
