//! The search itself: split the content into lines, test each line for the
//! pattern, and forward the matching lines to the sink in order.

use crate::sink::{Sink, WriteError};
use crate::text::{
    expected_output, is_match_at, lemma_lines_of_split, lemma_matching_lines_push,
    lemma_matching_lines_take_prefix, lemma_rendered_push, line_matches, lines_of, matching_lines,
    rendered,
};
use vstd::prelude::*;
use vstd::string::StrSliceExecFns;

verus! {

/// Whether `pat` occurs in `line` starting exactly at position `i`.
fn match_at(line: &str, pat: &str, i: usize, n: usize, m: usize) -> (b: bool)
    requires
        n == line@.len(),
        m == pat@.len(),
        i + m <= n,
    ensures
        b == (line@.subrange(i as int, i + m) == pat@),
{
    let mut k: usize = 0;
    while k < m
        invariant
            n == line@.len(),
            m == pat@.len(),
            i + m <= n,
            0 <= k <= m,
            forall|t: int| 0 <= t < k ==> line@[i + t] == pat@[t],
        decreases m - k,
    {
        if line.get_char(i + k) != pat.get_char(k) {
            proof {
                assert(line@.subrange(i as int, i + m)[k as int] == line@[i + k]);
            }
            return false;
        }
        k = k + 1;
    }
    proof {
        assert(line@.subrange(i as int, i + m) =~= pat@);
    }
    true
}

/// Whether the line contains the pattern as a contiguous substring.
fn line_contains(line: &str, pat: &str) -> (b: bool)
    ensures
        b == line_matches(line@, pat@),
{
    let n = line.unicode_len();
    let m = pat.unicode_len();
    if m > n {
        proof {
            assert(forall|t: int| !is_match_at(line@, pat@, t));
        }
        return false;
    }
    let mut i: usize = 0;
    loop
        invariant
            n == line@.len(),
            m == pat@.len(),
            m <= n,
            0 <= i <= n - m,
            forall|t: int| 0 <= t < i ==> !is_match_at(line@, pat@, t),
        decreases n - m - i,
    {
        if match_at(line, pat, i, n, m) {
            proof {
                assert(is_match_at(line@, pat@, i as int));
            }
            return true;
        }
        if i == n - m {
            proof {
                assert(forall|t: int| !is_match_at(line@, pat@, t));
            }
            return false;
        }
        i = i + 1;
    }
}

/// Position of the first line delimiter at or after `from`, if any.
fn find_newline(s: &str, from: usize, n: usize) -> (r: Option<usize>)
    requires
        n == s@.len(),
        from <= n,
    ensures
        match r {
            Some(j) => from <= j < n && s@[j as int] == '\n' && (forall|k: int|
                from <= k < j ==> s@[k] != '\n'),
            None => forall|k: int| from <= k < n ==> s@[k] != '\n',
        },
{
    let mut j: usize = from;
    while j < n
        invariant
            n == s@.len(),
            from <= j <= n,
            forall|k: int| from <= k < j ==> s@[k] != '\n',
        decreases n - j,
    {
        if s.get_char(j) == '\n' {
            return Some(j);
        }
        j = j + 1;
    }
    None
}

/// Writes every line of `content` that contains `pattern` to `sink`, in the
/// original order, each followed by one terminator, stopping at the sink's
/// first refusal.
///
/// On success the sink has received exactly the matching lines.  On failure
/// it has received a strict prefix of them: every line it holds is
/// complete, and at least one matching line was never written.  A sink
/// that promises to accept every write makes failure impossible, so the
/// call then succeeds.
#[verifier::loop_isolation(false)]
pub fn find_matches<S: Sink>(content: &str, pattern: &str, sink: &mut S) -> (r: Result<
    (),
    WriteError,
>)
    ensures
        r is Ok ==> final (sink).contents() == old(sink).contents() + expected_output(
            content@,
            pattern@,
        ),
        r is Err ==> exists|k: int|
            0 <= k < matching_lines(lines_of(content@), pattern@).len() && final (
                sink
            ).contents() == old(sink).contents() + rendered(
                matching_lines(lines_of(content@), pattern@).take(k),
            ),
        matching_lines(lines_of(content@), pattern@).len() == 0 ==> r is Ok,
        old(sink).never_fails() ==> r is Ok,
        final (sink).never_fails() == old(sink).never_fails(),
{
    let n = content.unicode_len();
    let ghost all = lines_of(content@);
    let mut p: usize = 0;
    let ghost mut li: int = 0;
    proof {
        assert(content@.subrange(0, n as int) =~= content@);
        assert(all.subrange(0, all.len() as int) =~= all);
        assert(all.take(0) =~= Seq::<Seq<char>>::empty());
        assert(old(sink).contents() + rendered(Seq::<Seq<char>>::empty()) =~= old(
            sink,
        ).contents());
    }
    while p < n
        invariant
            0 <= p <= n,
            0 <= li <= all.len(),
            all.subrange(li, all.len() as int) == lines_of(
                content@.subrange(p as int, n as int),
            ),
            sink.contents() == old(sink).contents() + rendered(
                matching_lines(all.take(li), pattern@),
            ),
            sink.never_fails() == old(sink).never_fails(),
        decreases n - p,
    {
        let line_end: usize;
        let next_p: usize;
        match find_newline(content, p, n) {
            Some(j) => {
                line_end = j;
                next_p = j + 1;
            },
            None => {
                line_end = n;
                next_p = n;
            },
        }
        let line = content.substring_char(p, line_end);
        proof {
            let rem = content@.subrange(p as int, n as int);
            assert forall|j: int| 0 <= j < line_end - p implies rem[j] != '\n' by {
                assert(rem[j] == content@[p + j]);
            }
            if line_end < n {
                assert(rem[line_end - p] == content@[line_end as int]);
            }
            lemma_lines_of_split(rem, line_end - p);
            assert(rem.take(line_end - p) =~= line@);
            if line_end < n {
                assert(rem.subrange(line_end - p + 1, rem.len() as int) =~= content@.subrange(
                    next_p as int,
                    n as int,
                ));
                assert(lines_of(rem) == seq![line@] + lines_of(
                    content@.subrange(next_p as int, n as int),
                ));
            } else {
                assert(rem =~= line@);
                assert(lines_of(rem) == seq![line@]);
                assert(content@.subrange(next_p as int, n as int).len() == 0);
                assert(lines_of(content@.subrange(next_p as int, n as int)) == Seq::<
                    Seq<char>,
                >::empty());
                assert(lines_of(rem) =~~= seq![line@] + lines_of(
                    content@.subrange(next_p as int, n as int),
                ));
            }
            let tail = lines_of(content@.subrange(next_p as int, n as int));
            assert(all.subrange(li, all.len() as int) == seq![line@] + tail);
            assert(lines_of(rem)[0] == line@);
            assert(all.subrange(li, all.len() as int)[0] == all[li]);
            assert(all[li] == line@);
            assert(li < all.len());
            assert(all.len() - (li + 1) == tail.len());
            assert forall|j: int| 0 <= j < tail.len() implies all.subrange(
                li + 1,
                all.len() as int,
            )[j] == tail[j] by {
                assert(all.subrange(li, all.len() as int)[j + 1] == (seq![line@] + tail)[j + 1]);
            }
            assert(all.subrange(li + 1, all.len() as int) =~~= tail);
        }
        if line_contains(line, pattern) {
            match sink.write_line(line) {
                Ok(u) => {
                    proof {
                        lemma_matching_lines_push(all.take(li), pattern@, line@);
                        assert(all.take(li).push(all[li]) =~~= all.take(li + 1));
                        lemma_rendered_push(matching_lines(all.take(li), pattern@), line@);
                        assert(sink.contents() =~= old(sink).contents() + rendered(
                            matching_lines(all.take(li + 1), pattern@),
                        ));
                    }
                },
                Err(e) => {
                    proof {
                        lemma_matching_lines_take_prefix(all, pattern@, li);
                        lemma_matching_lines_push(all.take(li), pattern@, line@);
                        assert(all.take(li).push(all[li]) =~~= all.take(li + 1));
                        lemma_matching_lines_take_prefix(all, pattern@, li + 1);
                        let part = matching_lines(all.take(li), pattern@);
                        let whole = matching_lines(all, pattern@);
                        let k = part.len() as int;
                        assert(matching_lines(all.take(li + 1), pattern@) == part.push(line@));
                        assert(k + 1 <= whole.len());
                        assert(part == whole.take(k));
                        assert(0 <= k < whole.len() && sink.contents() == old(sink).contents()
                            + rendered(whole.take(k)));
                    }
                    return Err(e);
                },
            }
        } else {
            proof {
                lemma_matching_lines_push(all.take(li), pattern@, line@);
                assert(all.take(li).push(all[li]) =~~= all.take(li + 1));
                assert(matching_lines(all.take(li + 1), pattern@) == matching_lines(
                    all.take(li),
                    pattern@,
                ));
            }
        }
        proof {
            li = li + 1;
        }
        p = next_p;
    }
    proof {
        assert(content@.subrange(p as int, n as int).len() == 0);
        assert(lines_of(content@.subrange(p as int, n as int)) == Seq::<Seq<char>>::empty());
        assert(all.subrange(li, all.len() as int).len() == 0);
        assert(li == all.len());
        assert(all.take(li) =~~= all);
    }
    Ok(())
}

} // verus!
