//! The splitting model and the streaming splitter.
//!
//! `split_plan` says, as a mathematical function, which lines belong to
//! which chunk. `split_lines` computes that partition on in-memory lines,
//! and `Splitter` is the per-line decision engine a caller drives while
//! streaming a file it reads and writes itself.

use vstd::prelude::*;
use vstd::arithmetic::div_mod::*;

verus! {

/// The lines the splitter distributes: all input lines, or all but the
/// first when the first is skipped.
pub open spec fn post_skip(lines: Seq<String>, skip_first: bool) -> Seq<String> {
    if skip_first && lines.len() > 0 {
        lines.drop_first()
    } else {
        lines
    }
}

/// How many chunks a split of `t` lines, `n` per chunk, produces: one for
/// every started group of `n`, and a single empty chunk when there are no
/// lines at all.
pub open spec fn num_chunks(t: nat, n: nat) -> nat {
    if t == 0 {
        1
    } else {
        (t - 1) as nat / n + 1
    }
}

/// Where chunk `c` of a split of `t` lines ends: after its `n` lines, or
/// at the end of the input.
pub open spec fn chunk_end(c: nat, t: nat, n: nat) -> int {
    if c * n + n <= t {
        (c * n + n) as int
    } else {
        t as int
    }
}

/// The partition itself: consecutive runs of `n` lines, in order; the
/// final run holds whatever remains. Zero lines still make one (empty)
/// chunk.
pub open spec fn chunk_split(ps: Seq<String>, n: nat) -> Seq<Seq<String>>
    decreases ps.len(),
    when n >= 1
{
    if ps.len() <= n {
        seq![ps]
    } else {
        seq![ps.take(n as int)] + chunk_split(ps.skip(n as int), n)
    }
}

/// The complete split of an input: the partition of its post-skip lines.
pub open spec fn split_plan(lines: Seq<String>, n: nat, skip_first: bool) -> Seq<Seq<String>> {
    chunk_split(post_skip(lines, skip_first), n)
}

/// Shape of the partition: `num_chunks` chunks, chunk `c` holding exactly
/// the lines from `c * n` up to `chunk_end(c)`.
pub proof fn lemma_chunk_split_shape(ps: Seq<String>, n: nat)
    requires
        n >= 1,
    ensures
        chunk_split(ps, n).len() == num_chunks(ps.len(), n),
        forall|c: int|
            0 <= c < num_chunks(ps.len(), n) ==> #[trigger] chunk_split(ps, n)[c] == ps.subrange(
                c * n,
                chunk_end(c as nat, ps.len(), n),
            ),
    decreases ps.len(),
{
    let t = ps.len();
    let cs = chunk_split(ps, n);
    if t <= n {
        if t > 0 {
            lemma_basic_div((t - 1) as int, n as int);
        }
        assert(num_chunks(t, n) == 1);
        assert(cs[0] =~= ps.subrange(0int * n, chunk_end(0, t, n)));
    } else {
        let rest = ps.skip(n as int);
        lemma_chunk_split_shape(rest, n);
        lemma_div_plus_one((t - n - 1) as int, n as int);
        assert(num_chunks(t, n) == 1 + num_chunks((t - n) as nat, n));
        assert forall|c: int| 0 <= c < num_chunks(t, n) implies #[trigger] cs[c] == ps.subrange(
            c * n,
            chunk_end(c as nat, t, n),
        ) by {
            if c == 0 {
                assert(cs[0] == ps.take(n as int));
                assert(ps.take(n as int) =~= ps.subrange(0int * n, chunk_end(0, t, n)));
            } else {
                let tp = (t - n) as nat;
                assert(0 <= c - 1 < num_chunks(tp, n));
                lemma_fundamental_div_mod((tp - 1) as int, n as int);
                lemma_mod_division_less_than_divisor((tp - 1) as int, n as int);
                assert(c - 1 <= (tp - 1) as int / n as int);
                vstd::arithmetic::mul::lemma_mul_inequality(
                    c - 1,
                    (tp - 1) as int / n as int,
                    n as int,
                );
                assert(((tp - 1) as int / n as int) * n <= tp - 1) by {
                    assert((tp - 1) as int == ((tp - 1) as int / n as int) * n + (tp - 1) as int % n
                        as int);
                }
                assert((c - 1) * n <= tp - 1);
                assert(cs[c] == chunk_split(rest, n)[c - 1]);
                assert((c - 1) * n == c * n - n) by (nonlinear_arith);
                assert(chunk_end((c - 1) as nat, tp, n) == chunk_end(c as nat, t, n) - n);
                assert(rest.subrange((c - 1) * n, chunk_end((c - 1) as nat, tp, n)) =~= ps.subrange(
                    c * n,
                    chunk_end(c as nat, t, n),
                ));
            }
        }
    }
}

/// Law: the chunks concatenate, in chunk order, to exactly the post-skip
/// lines of the input — every line appears once, in its original place,
/// none lost, none duplicated.
pub proof fn lemma_exact_partition(lines: Seq<String>, n: nat, skip_first: bool)
    requires
        n >= 1,
    ensures
        split_plan(lines, n, skip_first).flatten() == post_skip(lines, skip_first),
{
    lemma_chunk_split_flatten(post_skip(lines, skip_first), n);
}

proof fn lemma_chunk_split_flatten(ps: Seq<String>, n: nat)
    requires
        n >= 1,
    ensures
        chunk_split(ps, n).flatten() == ps,
    decreases ps.len(),
{
    let cs = chunk_split(ps, n);
    if ps.len() <= n {
        cs.lemma_flatten_one_element();
    } else {
        let rest = ps.skip(n as int);
        lemma_chunk_split_flatten(rest, n);
        assert(cs.first() == ps.take(n as int));
        assert(cs.drop_first() =~= chunk_split(rest, n));
        assert(cs.flatten() == cs.first() + cs.drop_first().flatten());
        assert(ps.take(n as int) + rest =~= ps);
    }
}

/// Law: every chunk except the last holds exactly `n` lines; when any line
/// exists the last chunk holds between 1 and `n` of them, and an input with
/// no post-skip lines yields exactly one empty chunk.
pub proof fn lemma_chunk_sizes(lines: Seq<String>, n: nat, skip_first: bool)
    requires
        n >= 1,
    ensures
        split_plan(lines, n, skip_first).len() == num_chunks(post_skip(lines, skip_first).len(), n),
        forall|c: int|
            0 <= c < split_plan(lines, n, skip_first).len() - 1 ==> #[trigger] split_plan(
                lines,
                n,
                skip_first,
            )[c].len() == n,
        post_skip(lines, skip_first).len() > 0 ==> 1 <= split_plan(
            lines,
            n,
            skip_first,
        ).last().len() <= n,
        post_skip(lines, skip_first).len() == 0 ==> split_plan(lines, n, skip_first) =~= seq![
            Seq::<String>::empty(),
        ],
{
    let ps = post_skip(lines, skip_first);
    let t = ps.len();
    let cs = split_plan(lines, n, skip_first);
    lemma_chunk_split_shape(ps, n);
    assert forall|c: int| 0 <= c < cs.len() - 1 implies #[trigger] cs[c].len() == n by {
        // chunk c is not the last, so it ends at c * n + n
        assert(c + 1 < num_chunks(t, n));
        if t == 0 {
            assert(false);
        } else {
            // c + 1 <= (t - 1) / n, so (c + 1) * n <= t - (t - 1) % n + ... ;
            // bound via the fundamental property of division
            lemma_fundamental_div_mod((t - 1) as int, n as int);
            lemma_mod_division_less_than_divisor((t - 1) as int, n as int);
            assert(c + 1 <= (t - 1) as int / n as int);
            vstd::arithmetic::mul::lemma_mul_inequality(c + 1, (t - 1) as int / n as int, n as int);
            assert((c + 1) * n <= ((t - 1) as int / n as int) * n);
            assert(((t - 1) as int / n as int) * n <= t - 1) by {
                assert((t - 1) as int == ((t - 1) as int / n as int) * n + (t - 1) as int % n
                    as int);
            }
            assert(c * n + n <= t) by {
                assert((c + 1) * n == c * n + n) by (nonlinear_arith);
            }
            assert(cs[c].len() == chunk_end(c as nat, t, n) - c * n);
        }
    }
    if t > 0 {
        let c = cs.len() - 1;
        assert(c == num_chunks(t, n) - 1);
        lemma_fundamental_div_mod((t - 1) as int, n as int);
        lemma_mod_division_less_than_divisor((t - 1) as int, n as int);
        assert(c == (t - 1) as int / n as int);
        assert((t - 1) as int == (n as int) * c + (t - 1) as int % n as int);
        assert(c * n == (n as int) * c) by (nonlinear_arith);
        assert(c * n <= t - 1);
        assert(t <= c * n + n);
        assert(cs[c].len() == chunk_end(c as nat, t, n) - c * n);
    } else {
        assert(cs[0] == ps.subrange(0int * n, chunk_end(0, t, n)));
        assert(cs[0] =~= Seq::<String>::empty());
        assert(cs =~= seq![Seq::<String>::empty()]);
    }
}

/// Law: with the first line skipped and a nonempty input, the partition is
/// computed purely over the remaining lines, and every chunk entry is drawn
/// from an input position at or past the second line — the input's first
/// line is written to no chunk.
pub proof fn lemma_skip_first(lines: Seq<String>, n: nat)
    requires
        n >= 1,
        lines.len() > 0,
    ensures
        split_plan(lines, n, true) == chunk_split(lines.drop_first(), n),
        forall|c: int, p: int|
            0 <= c < split_plan(lines, n, true).len() && 0 <= p < split_plan(
                lines,
                n,
                true,
            )[c].len() ==> #[trigger] split_plan(lines, n, true)[c][p] == lines[c * n + p + 1],
{
    let ps = lines.drop_first();
    let cs = split_plan(lines, n, true);
    lemma_chunk_split_shape(ps, n);
    assert forall|c: int, p: int|
        0 <= c < cs.len() && 0 <= p < cs[c].len() implies #[trigger] cs[c][p] == lines[c * n + p
        + 1] by {
        let t = ps.len();
        if t == 0 {
            assert(cs[c] == ps.subrange(c * n, chunk_end(c as nat, t, n)));
            assert(cs[c].len() == 0);
        } else {
            lemma_fundamental_div_mod((t - 1) as int, n as int);
            lemma_mod_division_less_than_divisor((t - 1) as int, n as int);
            assert(c <= (t - 1) as int / n as int);
            vstd::arithmetic::mul::lemma_mul_inequality(c, (t - 1) as int / n as int, n as int);
            assert(((t - 1) as int / n as int) * n <= t - 1) by {
                assert((t - 1) as int == ((t - 1) as int / n as int) * n + (t - 1) as int % n
                    as int);
            }
            assert(cs[c] == ps.subrange(c * n, chunk_end(c as nat, t, n)));
            assert(cs[c][p] == ps[c * n + p]);
        }
    }
}

/// Law: the split is a function of the lines and parameters alone — two
/// runs over the same input with the same threshold and skip flag produce
/// identical chunks, so a re-run overwrites every output file with the
/// same content.
pub proof fn lemma_rerun_identical(
    lines: Seq<String>,
    n: nat,
    skip_first: bool,
    r1: Seq<Seq<String>>,
    r2: Seq<Seq<String>>,
)
    requires
        r1 == split_plan(lines, n, skip_first),
        r2 == split_plan(lines, n, skip_first),
    ensures
        r1 == r2,
{
}

/// Law: post-skip line `k` lands in chunk `k / n`, at offset `k % n`
/// within it.
pub proof fn lemma_line_placement(ps: Seq<String>, n: nat, k: int)
    requires
        n >= 1,
        0 <= k < ps.len(),
    ensures
        0 <= k / (n as int) < num_chunks(ps.len(), n),
        0 <= k % (n as int) < chunk_split(ps, n)[k / (n as int)].len(),
        chunk_split(ps, n)[k / (n as int)][k % (n as int)] == ps[k],
{
    let t = ps.len();
    let c = k / (n as int);
    let r = k % (n as int);
    lemma_chunk_split_shape(ps, n);
    lemma_fundamental_div_mod(k, n as int);
    lemma_mod_division_less_than_divisor(k, n as int);
    lemma_div_pos_is_pos(k, n as int);
    assert(c <= (t - 1) as int / n as int) by {
        lemma_div_is_ordered(k, (t - 1) as int, n as int);
    }
    assert(0 <= c < num_chunks(t, n));
    assert(chunk_split(ps, n)[c] == ps.subrange(c * n, chunk_end(c as nat, t, n)));
    assert(c * n + r == k);
    assert(chunk_end(c as nat, t, n) > k);
}

/// The view of a built partition: each chunk as its sequence of lines.
pub open spec fn chunks_view(r: Seq<Vec<String>>) -> Seq<Seq<String>> {
    r.map_values(|c: Vec<String>| c@)
}

/// Partitions `lines` into chunks of at most `lines_per_chunk` lines each,
/// optionally dropping the first line: the same partition, on in-memory
/// lines, that the streaming splitter distributes over files.
pub fn split_lines(lines: &Vec<String>, lines_per_chunk: usize, skip_first: bool) -> (r: Vec<
    Vec<String>,
>)
    requires
        lines_per_chunk >= 1,
    ensures
        chunks_view(r@) == split_plan(lines@, lines_per_chunk as nat, skip_first),
{
    let n = lines_per_chunk;
    let start: usize = if skip_first && lines.len() > 0 {
        1
    } else {
        0
    };
    let ghost ps = post_skip(lines@, skip_first);
    proof {
        assert(ps =~= lines@.skip(start as int));
    }
    let mut done: Vec<Vec<String>> = Vec::new();
    let mut cur: Vec<String> = Vec::new();
    let mut i: usize = start;
    while i < lines.len()
        invariant
            n >= 1,
            start <= i <= lines@.len(),
            ps == lines@.skip(start as int),
            done@.len() * n + cur@.len() == i - start,
            forall|c: int|
                0 <= c < done@.len() ==> (#[trigger] done@[c])@ == ps.subrange(c * n, c * n + n),
            cur@ == ps.subrange(done@.len() * n, i - start),
            cur@.len() <= n,
            cur@.len() == 0 ==> done@.len() == 0,
        decreases lines@.len() - i,
    {
        let line = lines[i].clone();
        let ghost j = i - start;
        proof {
            assert(ps[j] == lines@[i as int]);
        }
        if cur.len() == n {
            let ghost d = done@.len();
            done.push(cur);
            cur = Vec::new();
            proof {
                assert((d + 1) * n == d * n + n) by (nonlinear_arith);
                assert(done@[d as int]@ == ps.subrange(d * n, d * n + n));
                assert(cur@ =~= ps.subrange(done@.len() * n, j));
            }
        }
        cur.push(line);
        i = i + 1;
        proof {
            assert(cur@ =~= ps.subrange(done@.len() * n, i - start));
        }
    }
    let ghost d = done@.len();
    let ghost t = ps.len();
    done.push(cur);
    proof {
        assert(t == i - start);
        assert(t == d * n + cur@.len());
        lemma_chunk_split_shape(ps, n as nat);
        if t == 0 {
            assert(d == 0);
            assert(num_chunks(t, n as nat) == 1);
        } else {
            assert(cur@.len() >= 1);
            lemma_fundamental_div_mod_converse_div(
                (t - 1) as int,
                n as int,
                d as int,
                cur@.len() - 1,
            );
            assert(num_chunks(t, n as nat) == d + 1);
        }
        assert forall|c: int| 0 <= c < done@.len() implies (#[trigger] done@[c])@ == chunk_split(
            ps,
            n as nat,
        )[c] by {
            if c < d {
                assert((c + 1) * n <= d * n) by (nonlinear_arith)
                    requires
                        0 <= c + 1 <= d,
                        n >= 1,
                ;
                assert((c + 1) * n == c * n + n) by (nonlinear_arith);
                assert(chunk_end(c as nat, t, n as nat) == c * n + n);
                assert(done@[c]@ == ps.subrange(c * n, c * n + n));
            } else {
                assert(c == d);
                assert(chunk_end(d as nat, t, n as nat) == t);
                assert(done@[c]@ == ps.subrange(d * n, t as int));
            }
        }
        assert(chunks_view(done@) =~= chunk_split(ps, n as nat));
    }
    done
}

} // verus!
