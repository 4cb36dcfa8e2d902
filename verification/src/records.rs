//! The list combinator: turns the input lists into the ordered argument
//! stream that is written into the [`crate::buffer::WriteBuffer`].
//!
//! One list passes through unchanged, one record per value. Two or more
//! lists produce their full cartesian product in odometer order: the last
//! list is the fastest-varying digit, the first list the slowest. Each
//! record is the space-joined tuple of its values, terminated by a newline.
//! When no list was supplied at all, the caller reads standard input and
//! hands the lines to [`write_lines`].

use vstd::prelude::*;
use vstd::utf8::encode_utf8;
use vstd::string::StringSliceAdditionalSpecFns;
use crate::buffer::WriteBuffer;

verus! {

/// The bytes a text value contributes to a record: its UTF-8 encoding.
pub open spec fn val_bytes(v: Seq<char>) -> Seq<u8> {
    encode_utf8(v)
}

/// The product of the sizes of the lists from position `j` on.
pub open spec fn suffix_prod(ls: Seq<Seq<Seq<char>>>, j: int) -> int
    decreases ls.len() - j when j <= ls.len()
{
    if j >= ls.len() {
        1
    } else {
        ls[j].len() * suffix_prod(ls, j + 1)
    }
}

/// The total number of tuples in the cartesian product of the lists.
pub open spec fn product(ls: Seq<Seq<Seq<char>>>) -> int {
    suffix_prod(ls, 0)
}

/// The value index that list `j` contributes to tuple `i`: odometer order,
/// the last list varying fastest.
pub open spec fn digit(ls: Seq<Seq<Seq<char>>>, i: int, j: int) -> int {
    (i / suffix_prod(ls, j + 1)) % (ls[j].len() as int)
}

/// Tuple `i` of the cartesian product, in list order.
pub open spec fn tuple_of(ls: Seq<Seq<Seq<char>>>, i: int) -> Seq<Seq<char>> {
    Seq::new(ls.len() as nat, |j: int| ls[j][digit(ls, i, j)])
}

/// The bytes of a tuple: the values' encodings joined by single spaces.
pub open spec fn join_vals(vals: Seq<Seq<char>>) -> Seq<u8>
    decreases vals.len(),
{
    if vals.len() == 0 {
        Seq::empty()
    } else if vals.len() == 1 {
        val_bytes(vals[0])
    } else {
        join_vals(vals.drop_last()) + seq![32u8] + val_bytes(vals.last())
    }
}

/// One newline-terminated record per value, in the order given.
pub open spec fn line_records(vs: Seq<Seq<char>>) -> Seq<Seq<u8>> {
    Seq::new(vs.len(), |i: int| val_bytes(vs[i]) + seq![10u8])
}

/// The ordered argument stream, one byte sequence per record: a single list
/// passes through unchanged; two or more lists yield their cartesian product
/// in odometer order; no list yields nothing.
pub open spec fn records_of(ls: Seq<Seq<Seq<char>>>) -> Seq<Seq<u8>> {
    if ls.len() == 0 {
        Seq::empty()
    } else if ls.len() == 1 {
        line_records(ls[0])
    } else {
        Seq::new(product(ls) as nat, |i: int| join_vals(tuple_of(ls, i)) + seq![10u8])
    }
}

proof fn lemma_sp_nonneg(ls: Seq<Seq<Seq<char>>>, j: int)
    requires
        0 <= j <= ls.len(),
    ensures
        suffix_prod(ls, j) >= 0,
    decreases ls.len() - j,
{
    if j < ls.len() {
        lemma_sp_nonneg(ls, j + 1);
        assert(ls[j].len() * suffix_prod(ls, j + 1) >= 0) by (nonlinear_arith)
            requires
                ls[j].len() >= 0,
                suffix_prod(ls, j + 1) >= 0,
        ;
    }
}

/// While the product of every list size is positive, each suffix product is
/// positive and no larger than the whole product.
proof fn lemma_sp_bounds(ls: Seq<Seq<Seq<char>>>, j: int)
    requires
        0 <= j <= ls.len(),
        product(ls) > 0,
    ensures
        0 < suffix_prod(ls, j) <= product(ls),
        forall|m: int| 0 <= m < ls.len() ==> ls[m].len() > 0,
    decreases j,
{
    assert forall|m: int| 0 <= m < ls.len() implies ls[m].len() > 0 by {
        if ls[m].len() == 0 {
            lemma_sp_zero(ls, 0, m);
        }
    }
    if j > 0 {
        lemma_sp_bounds(ls, j - 1);
        lemma_sp_nonneg(ls, j);
        assert(suffix_prod(ls, j - 1) == ls[j - 1].len() * suffix_prod(ls, j));
        assert(0 < suffix_prod(ls, j) <= ls[j - 1].len() * suffix_prod(ls, j))
            by (nonlinear_arith)
            requires
                ls[j - 1].len() >= 1,
                suffix_prod(ls, j) >= 0,
                ls[j - 1].len() * suffix_prod(ls, j) > 0,
        ;
    }
}

/// An empty list anywhere makes every suffix product before it zero.
proof fn lemma_sp_zero(ls: Seq<Seq<Seq<char>>>, j: int, j0: int)
    requires
        0 <= j <= j0 < ls.len(),
        ls[j0].len() == 0,
    ensures
        suffix_prod(ls, j) == 0,
    decreases j0 - j,
{
    if j == j0 {
        assert(ls[j].len() * suffix_prod(ls, j + 1) == 0) by (nonlinear_arith)
            requires
                ls[j].len() == 0,
        ;
    } else {
        lemma_sp_zero(ls, j + 1, j0);
        assert(ls[j].len() * 0 == 0) by (nonlinear_arith);
    }
}

/// Appends the UTF-8 bytes of a value to a byte vector.
fn push_val_bytes(out: &mut Vec<u8>, v: &String)
    ensures
        final(out)@ == old(out)@ + val_bytes(v@),
{
    out.extend_from_slice(v.as_str().as_bytes());
    proof {
        assert(out@ =~= old(out)@ + val_bytes(v@));
    }
}

/// The number of records the combinator will produce, if it fits in a
/// 64-bit count: the list size for one list, the product of all sizes for
/// several, zero for none.
pub fn record_count(lists: &Vec<Vec<String>>) -> (r: Option<u64>)
    ensures
        ({
            let ls = lists.deep_view();
            match r {
                Some(n) => n == records_of(ls).len() && product(ls) <= u64::MAX,
                None => ls.len() >= 2 && product(ls) > u64::MAX,
            }
        }),
{
    let ghost ls = lists.deep_view();
    let k = lists.len();
    proof {
        assert(ls.len() == k);
    }
    if k == 0 {
        Some(0)
    } else if k == 1 {
        proof {
            assert(ls[0] =~= lists@[0].deep_view());
            assert(records_of(ls).len() == ls[0].len());
            assert(suffix_prod(ls, 1) == 1);
            assert(product(ls) == ls[0].len() * 1);
        }
        Some(lists[0].len() as u64)
    } else {
        // Reject the degenerate case of an empty list up front: its product
        // is zero no matter how large the other lists are.
        let mut m: usize = 0;
        while m < k
            invariant
                0 <= m <= k,
                k == ls.len(),
                ls == lists.deep_view(),
                forall|t: int| 0 <= t < m ==> ls[t].len() > 0,
            decreases k - m,
        {
            proof {
                assert(ls[m as int] =~= lists@[m as int].deep_view());
            }
            if lists[m].len() == 0 {
                proof {
                    lemma_sp_zero(ls, 0, m as int);
                }
                return Some(0);
            }
            m = m + 1;
        }
        // Every list is non-empty: multiply the sizes from the last list
        // backward, stopping as soon as the count no longer fits.
        let mut acc: u64 = 1;
        let mut j: usize = k;
        while j > 0
            invariant
                0 <= j <= k,
                k == ls.len(),
                ls == lists.deep_view(),
                forall|t: int| 0 <= t < k ==> ls[t].len() > 0,
                acc == suffix_prod(ls, j as int),
            decreases j,
        {
            proof {
                assert(ls[j - 1] =~= lists@[j - 1].deep_view());
            }
            let len = lists[j - 1].len() as u64;
            proof {
                assert(len == ls[j - 1].len());
                assert(suffix_prod(ls, j - 1) == ls[j - 1].len() * suffix_prod(ls, j as int));
            }
            match acc.checked_mul(len) {
                Some(next) => {
                    proof {
                        assert(next == suffix_prod(ls, j - 1));
                    }
                    acc = next;
                },
                None => {
                    proof {
                        lemma_sp_minimums(ls, j - 1);
                        assert(suffix_prod(ls, j - 1) > u64::MAX);
                    }
                    return None;
                },
            }
            j = j - 1;
        }
        proof {
            lemma_sp_nonneg(ls, 0);
            assert(records_of(ls).len() == product(ls));
        }
        Some(acc)
    }
}

/// With every list non-empty, each suffix product is at least as large as
/// the suffix product one position later, so an overflow while multiplying
/// backward means the whole product overflows too.
proof fn lemma_sp_minimums(ls: Seq<Seq<Seq<char>>>, j: int)
    requires
        0 <= j <= ls.len(),
        forall|t: int| 0 <= t < ls.len() ==> ls[t].len() > 0,
    ensures
        suffix_prod(ls, j) >= 1,
        product(ls) >= suffix_prod(ls, j),
    decreases j,
{
    lemma_sp_min1(ls, j);
    if j > 0 {
        lemma_sp_minimums(ls, j - 1);
        lemma_sp_min1(ls, j);
        assert(suffix_prod(ls, j) <= ls[j - 1].len() * suffix_prod(ls, j))
            by (nonlinear_arith)
            requires
                ls[j - 1].len() >= 1,
                suffix_prod(ls, j) >= 1,
        ;
    }
}

proof fn lemma_sp_min1(ls: Seq<Seq<Seq<char>>>, j: int)
    requires
        0 <= j <= ls.len(),
        forall|t: int| 0 <= t < ls.len() ==> ls[t].len() > 0,
    ensures
        suffix_prod(ls, j) >= 1,
    decreases ls.len() - j,
{
    if j < ls.len() {
        lemma_sp_min1(ls, j + 1);
        assert(ls[j].len() * suffix_prod(ls, j + 1) >= 1) by (nonlinear_arith)
            requires
                ls[j].len() >= 1,
                suffix_prod(ls, j + 1) >= 1,
        ;
    }
}

/// Builds record `i` of the cartesian product of two or more lists: the
/// space-joined tuple in odometer order, terminated by a newline.
pub fn record(lists: &Vec<Vec<String>>, i: u64) -> (r: Vec<u8>)
    requires
        lists.deep_view().len() >= 2,
        product(lists.deep_view()) <= u64::MAX,
        i < product(lists.deep_view()),
    ensures
        r@ == records_of(lists.deep_view())[i as int],
{
    let ghost ls = lists.deep_view();
    let k = lists.len();
    proof {
        assert(ls.len() == k);
        lemma_sp_bounds(ls, 0);
    }
    // rsp[m] holds the product of the sizes of the last m lists, so
    // rsp[k - j] == suffix_prod(ls, j).
    let mut rsp: Vec<u64> = Vec::new();
    rsp.push(1u64);
    let mut m: usize = 0;
    while m < k
        invariant
            0 <= m <= k,
            k == ls.len(),
            ls == lists.deep_view(),
            product(ls) > 0,
            product(ls) <= u64::MAX,
            rsp@.len() == m + 1,
            forall|t: int| 0 <= t <= m ==> rsp@[t] == suffix_prod(ls, k - t),
        decreases k - m,
    {
        proof {
            assert(ls[k - 1 - m] =~= lists@[k - 1 - m].deep_view());
            lemma_sp_bounds(ls, k - 1 - m as int);
        }
        let len = lists[k - 1 - m].len() as u64;
        let last = rsp[m];
        let next = len * last;
        rsp.push(next);
        m = m + 1;
    }
    // Read off tuple i digit by digit and join the chosen values.
    let mut rec: Vec<u8> = Vec::new();
    let ghost tup = tuple_of(ls, i as int);
    let mut j: usize = 0;
    while j < k
        invariant
            0 <= j <= k,
            k == ls.len(),
            ls == lists.deep_view(),
            product(ls) > 0,
            product(ls) <= u64::MAX,
            i < product(ls),
            tup == tuple_of(ls, i as int),
            rsp@.len() == k + 1,
            forall|t: int| 0 <= t <= k ==> rsp@[t] == suffix_prod(ls, k - t),
            rec@ == join_vals(tup.take(j as int)),
        decreases k - j,
    {
        proof {
            lemma_sp_bounds(ls, j + 1 as int);
            assert(ls[j as int] =~= lists@[j as int].deep_view());
        }
        let sp_next = rsp[k - 1 - j];
        let len = lists[j].len() as u64;
        let d = (i / sp_next) % len;
        proof {
            assert(d == digit(ls, i as int, j as int));
            assert(d < len);
        }
        let idx = d as usize;
        if j > 0 {
            rec.push(32u8);
        }
        push_val_bytes(&mut rec, &lists[j][idx]);
        proof {
            assert(lists@[j as int]@[idx as int]@ == ls[j as int][d as int]);
            assert(tup.take(j + 1 as int).drop_last() =~= tup.take(j as int));
            assert(tup.take(j + 1 as int).last() == tup[j as int]);
            if j == 0 {
                assert(rec@ =~= join_vals(tup.take(1)));
            } else {
                assert(rec@ =~= join_vals(tup.take(j + 1 as int)));
            }
        }
        j = j + 1;
    }
    rec.push(10u8);
    proof {
        assert(tup.take(k as int) =~= tup);
        assert(rec@ =~= join_vals(tup) + seq![10u8]);
        assert(records_of(ls)[i as int] == join_vals(tuple_of(ls, i as int)) + seq![10u8]);
    }
    rec
}

/// Writes every record of the combinator's stream into the buffer, in
/// order, and returns how many records were written; `None`, with nothing
/// written, when the product of the list sizes does not fit a 64-bit count.
pub fn write_all_records(lists: &Vec<Vec<String>>, buf: &mut WriteBuffer) -> (r: Option<u64>)
    requires
        old(buf).wf(),
    ensures
        final(buf).wf(),
        final(buf).drained() == old(buf).drained(),
        ({
            let ls = lists.deep_view();
            match r {
                Some(n) => n == records_of(ls).len() && final(buf).history() == old(
                    buf,
                ).history() + records_of(ls).flatten(),
                None => ls.len() >= 2 && product(ls) > u64::MAX && final(buf).history() == old(
                    buf,
                ).history(),
            }
        }),
{
    broadcast use vstd::seq_lib::group_seq_lib_default;

    let ghost ls = lists.deep_view();
    let n = match record_count(lists) {
        Some(n) => n,
        None => {
            return None;
        },
    };
    let k = lists.len();
    if k == 1 {
        let ghost vs = ls[0];
        let mut t: usize = 0;
        proof {
            assert(vs =~= lists@[0].deep_view());
        }
        while t < lists[0].len()
            invariant
                0 <= t <= lists@[0].len(),
                ls == lists.deep_view(),
                ls.len() == 1,
                vs == ls[0],
                vs.len() == lists@[0].len(),
                buf.wf(),
                buf.drained() == old(buf).drained(),
                buf.history() == old(buf).history() + records_of(ls).take(t as int).flatten(),
            decreases lists@[0].len() - t,
        {
            let mut rec: Vec<u8> = Vec::new();
            push_val_bytes(&mut rec, &lists[0][t]);
            rec.push(10u8);
            buf.write(rec.as_slice());
            proof {
                assert(lists@[0]@[t as int]@ == vs[t as int]);
                assert(rec@ =~= records_of(ls)[t as int]);
                assert(records_of(ls).take(t + 1 as int) =~= records_of(ls).take(
                    t as int,
                ).push(records_of(ls)[t as int]));
                records_of(ls).take(t as int).lemma_flatten_push(records_of(ls)[t as int]);
                assert(buf.history() =~= old(buf).history() + records_of(ls).take(
                    t + 1 as int,
                ).flatten());
            }
            t = t + 1;
        }
        proof {
            assert(records_of(ls).take(vs.len() as int) =~= records_of(ls));
        }
        Some(n)
    } else if k == 0 {
        proof {
            assert(records_of(ls).flatten() =~= Seq::<u8>::empty());
            assert(buf.history() =~= old(buf).history() + records_of(ls).flatten());
        }
        Some(0)
    } else {
        proof {
            lemma_sp_nonneg(ls, 0);
            assert(records_of(ls).len() == product(ls));
        }
        let mut i: u64 = 0;
        while i < n
            invariant
                0 <= i <= n,
                ls == lists.deep_view(),
                ls.len() >= 2,
                ls.len() == lists@.len(),
                n == records_of(ls).len(),
                product(ls) <= u64::MAX,
                n == product(ls),
                buf.wf(),
                buf.drained() == old(buf).drained(),
                buf.history() == old(buf).history() + records_of(ls).take(i as int).flatten(),
            decreases n - i,
        {
            let rec = record(lists, i);
            buf.write(rec.as_slice());
            proof {
                assert(records_of(ls).take(i + 1 as int) =~= records_of(ls).take(i as int).push(
                    records_of(ls)[i as int],
                ));
                records_of(ls).take(i as int).lemma_flatten_push(records_of(ls)[i as int]);
                assert(buf.history() =~= old(buf).history() + records_of(ls).take(
                    i + 1 as int,
                ).flatten());
            }
            i = i + 1;
        }
        proof {
            assert(records_of(ls).take(n as int) =~= records_of(ls));
        }
        Some(n)
    }
}

/// Writes one newline-terminated record per line, in order: the fallback
/// used when no list was supplied and the lines come from standard input.
pub fn write_lines(lines: &Vec<String>, buf: &mut WriteBuffer) -> (n: u64)
    requires
        old(buf).wf(),
    ensures
        final(buf).wf(),
        final(buf).drained() == old(buf).drained(),
        n == lines@.len(),
        final(buf).history() == old(buf).history() + line_records(
            lines.deep_view(),
        ).flatten(),
{
    broadcast use vstd::seq_lib::group_seq_lib_default;

    let ghost vs = lines.deep_view();
    let mut t: usize = 0;
    while t < lines.len()
        invariant
            0 <= t <= lines@.len(),
            vs == lines.deep_view(),
            vs.len() == lines@.len(),
            buf.wf(),
            buf.drained() == old(buf).drained(),
            buf.history() == old(buf).history() + line_records(vs).take(t as int).flatten(),
        decreases lines@.len() - t,
    {
        let mut rec: Vec<u8> = Vec::new();
        push_val_bytes(&mut rec, &lines[t]);
        rec.push(10u8);
        buf.write(rec.as_slice());
        proof {
            assert(lines@[t as int]@ == vs[t as int]);
            assert(rec@ =~= line_records(vs)[t as int]);
            assert(line_records(vs).take(t + 1 as int) =~= line_records(vs).take(t as int).push(
                line_records(vs)[t as int],
            ));
            line_records(vs).take(t as int).lemma_flatten_push(line_records(vs)[t as int]);
            assert(buf.history() =~= old(buf).history() + line_records(vs).take(
                t + 1 as int,
            ).flatten());
        }
        t = t + 1;
    }
    proof {
        assert(line_records(vs).take(vs.len() as int) =~= line_records(vs));
    }
    lines.len() as u64
}

/// With two or more lists the stream holds exactly one record per tuple of
/// the cartesian product — `product(ls)` many — and record `i` is the
/// space-joined, newline-terminated tuple whose digit for list `j` steps in
/// odometer order: the last list varies fastest, the first slowest.
pub proof fn lemma_cartesian_order(ls: Seq<Seq<Seq<char>>>, i: int)
    requires
        ls.len() >= 2,
        0 <= i < product(ls),
    ensures
        records_of(ls).len() == product(ls),
        records_of(ls)[i] == join_vals(tuple_of(ls, i)) + seq![10u8],
        tuple_of(ls, i).len() == ls.len(),
        forall|j: int|
            0 <= j < ls.len() ==> tuple_of(ls, i)[j] == ls[j][digit(ls, i, j)],
        digit(ls, i, ls.len() - 1) == i % (ls[ls.len() - 1].len() as int),
{
    lemma_sp_bounds(ls, 0);
    assert(suffix_prod(ls, ls.len() as int) == 1);
    assert(i / 1 == i);
}

/// With exactly one list the stream is that list, unchanged and in order:
/// one newline-terminated record per value, no combination.
pub proof fn lemma_single_list_passthrough(ls: Seq<Seq<Seq<char>>>)
    requires
        ls.len() == 1,
    ensures
        records_of(ls).len() == ls[0].len(),
        forall|i: int|
            0 <= i < ls[0].len() ==> records_of(ls)[i] == val_bytes(ls[0][i]) + seq![10u8],
{
}

} // verus!
