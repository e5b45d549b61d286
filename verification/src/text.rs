//! The mathematical model of the search: how content splits into lines,
//! when a line matches a pattern, and what output a search produces.

use vstd::prelude::*;

verus! {

/// `pat` occurs in `line` as the substring starting at position `i`.
pub open spec fn is_match_at(line: Seq<char>, pat: Seq<char>, i: int) -> bool {
    0 <= i && i + pat.len() <= line.len() && line.subrange(i, i + pat.len()) == pat
}

/// A line matches a pattern when the pattern occurs somewhere in it as a
/// contiguous substring; the empty pattern matches every line.
pub open spec fn line_matches(line: Seq<char>, pat: Seq<char>) -> bool {
    exists|i: int| is_match_at(line, pat, i)
}

/// The logical lines of a block of text: maximal runs of characters
/// delimited by `'\n'`, the delimiter excluded.  A trailing delimiter
/// closes the last line rather than opening an empty one, while text
/// ending without a delimiter still yields its final partial line.
pub open spec fn lines_of(s: Seq<char>) -> Seq<Seq<char>>
    decreases s.len(),
{
    if s.len() == 0 {
        Seq::empty()
    } else if s[0] == '\n' {
        seq![Seq::<char>::empty()] + lines_of(s.drop_first())
    } else {
        let rest = lines_of(s.drop_first());
        if rest.len() == 0 {
            seq![s]
        } else {
            seq![seq![s[0]] + rest[0]] + rest.drop_first()
        }
    }
}

/// The sub-sequence of `lines` whose members match `pat`, in order.
pub open spec fn matching_lines(lines: Seq<Seq<char>>, pat: Seq<char>) -> Seq<Seq<char>>
    decreases lines.len(),
{
    if lines.len() == 0 {
        Seq::empty()
    } else {
        let rest = matching_lines(lines.drop_last(), pat);
        if line_matches(lines.last(), pat) {
            rest.push(lines.last())
        } else {
            rest
        }
    }
}

/// The text that writing `lines` produces: each line followed by one
/// `'\n'` terminator.
pub open spec fn rendered(lines: Seq<Seq<char>>) -> Seq<char>
    decreases lines.len(),
{
    if lines.len() == 0 {
        Seq::empty()
    } else {
        rendered(lines.drop_last()) + lines.last() + seq!['\n']
    }
}

/// The whole output of one successful search: its matching lines, rendered.
pub open spec fn expected_output(content: Seq<char>, pat: Seq<char>) -> Seq<char> {
    rendered(matching_lines(lines_of(content), pat))
}

/// Splitting text at its first delimiter: when no delimiter occurs before
/// position `i`, and position `i` holds a delimiter or is the end of the
/// text, the lines of the text are the prefix before `i` followed by the
/// lines of what comes after `i`.
pub proof fn lemma_lines_of_split(s: Seq<char>, i: int)
    requires
        s.len() > 0,
        0 <= i <= s.len(),
        forall|j: int| 0 <= j < i ==> s[j] != '\n',
        i == s.len() || s[i] == '\n',
    ensures
        i < s.len() ==> lines_of(s) == seq![s.take(i)] + lines_of(
            s.subrange(i + 1, s.len() as int),
        ),
        i == s.len() ==> lines_of(s) == seq![s],
    decreases i,
{
    if i == 0 {
        assert(s.take(0) =~= Seq::<char>::empty());
        assert(s.subrange(1, s.len() as int) =~= s.drop_first());
    } else {
        let d = s.drop_first();
        if i == s.len() && s.len() == 1 {
            assert(d.len() == 0);
            assert(lines_of(d) == Seq::<Seq<char>>::empty());
            assert(lines_of(s) =~~= seq![s]);
        } else {
            assert(d.len() > 0);
            assert(forall|j: int| 0 <= j < i - 1 ==> d[j] != '\n');
            lemma_lines_of_split(d, i - 1);
            let rest = lines_of(d);
            assert(rest.len() >= 1);
            if i == s.len() {
                assert(rest == seq![d]);
                assert(rest[0] == d);
                assert(rest.drop_first().len() == 0);
                assert(seq![s[0]] + d =~= s);
                assert(lines_of(s) =~~= seq![s]);
            } else {
                assert(rest == seq![d.take(i - 1)] + lines_of(d.subrange(i, d.len() as int)));
                assert(rest[0] == d.take(i - 1));
                assert(seq![s[0]] + d.take(i - 1) =~= s.take(i));
                assert(rest.drop_first() =~= lines_of(d.subrange(i, d.len() as int)));
                assert(d.subrange(i, d.len() as int) =~= s.subrange(i + 1, s.len() as int));
                assert(lines_of(s) =~~= seq![s.take(i)] + lines_of(s.subrange(i + 1, s.len() as int)));
            }
        }
    }
}

/// Appending one line keeps the earlier matches and appends the new line
/// exactly when it matches.
pub proof fn lemma_matching_lines_push(lines: Seq<Seq<char>>, pat: Seq<char>, x: Seq<char>)
    ensures
        line_matches(x, pat) ==> matching_lines(lines.push(x), pat) == matching_lines(
            lines,
            pat,
        ).push(x),
        !line_matches(x, pat) ==> matching_lines(lines.push(x), pat) == matching_lines(lines, pat),
{
    assert(lines.push(x).drop_last() =~~= lines);
    assert(lines.push(x).last() == x);
}

/// Rendering distributes over appending one line.
pub proof fn lemma_rendered_push(lines: Seq<Seq<char>>, x: Seq<char>)
    ensures
        rendered(lines.push(x)) == rendered(lines) + x + seq!['\n'],
{
    assert(lines.push(x).drop_last() =~~= lines);
    assert(lines.push(x).last() == x);
}

/// The matches found in a prefix of the lines are a prefix of the matches
/// found in all of them.
pub proof fn lemma_matching_lines_take_prefix(lines: Seq<Seq<char>>, pat: Seq<char>, n: int)
    requires
        0 <= n <= lines.len(),
    ensures
        ({
            let part = matching_lines(lines.take(n), pat);
            let whole = matching_lines(lines, pat);
            part.len() <= whole.len() && part == whole.take(part.len() as int)
        }),
    decreases lines.len() - n,
{
    let part = matching_lines(lines.take(n), pat);
    let whole = matching_lines(lines, pat);
    if n == lines.len() {
        assert(lines.take(n) =~~= lines);
        assert(whole.take(whole.len() as int) =~~= whole);
    } else {
        lemma_matching_lines_push(lines.take(n), pat, lines[n]);
        assert(lines.take(n).push(lines[n]) =~~= lines.take(n + 1));
        lemma_matching_lines_take_prefix(lines, pat, n + 1);
        let next = matching_lines(lines.take(n + 1), pat);
        if line_matches(lines[n], pat) {
            assert(next == part.push(lines[n]));
            assert(next == whole.take(next.len() as int));
            assert(part =~~= whole.take(part.len() as int));
        } else {
            assert(next == part);
        }
    }
}

/// When every line matches, the matching lines are all of them.
proof fn lemma_matching_lines_all(lines: Seq<Seq<char>>, pat: Seq<char>)
    requires
        forall|i: int| 0 <= i < lines.len() ==> line_matches(#[trigger] lines[i], pat),
    ensures
        matching_lines(lines, pat) == lines,
    decreases lines.len(),
{
    if lines.len() > 0 {
        lemma_matching_lines_all(lines.drop_last(), pat);
        assert(lines.last() == lines[lines.len() - 1]);
        assert(matching_lines(lines, pat) =~~= lines);
    }
}

/// When no line matches, there are no matching lines.
proof fn lemma_matching_lines_none(lines: Seq<Seq<char>>, pat: Seq<char>)
    requires
        forall|i: int| 0 <= i < lines.len() ==> !line_matches(#[trigger] lines[i], pat),
    ensures
        matching_lines(lines, pat) == Seq::<Seq<char>>::empty(),
    decreases lines.len(),
{
    if lines.len() > 0 {
        lemma_matching_lines_none(lines.drop_last(), pat);
        assert(lines.last() == lines[lines.len() - 1]);
    }
}

/// Rendering distributes over prepending one line.
proof fn lemma_rendered_cons(l: Seq<char>, rest: Seq<Seq<char>>)
    ensures
        rendered(seq![l] + rest) == l + seq!['\n'] + rendered(rest),
    decreases rest.len(),
{
    if rest.len() == 0 {
        assert(seq![l] + rest =~~= seq![l]);
        assert(seq![l].drop_last() =~~= Seq::<Seq<char>>::empty());
        assert(seq![l].last() == l);
        assert(rendered(seq![l].drop_last()) == Seq::<char>::empty());
        assert(rendered(rest) == Seq::<char>::empty());
        assert(rendered(seq![l]) =~= l + seq!['\n'] + rendered(rest));
    } else {
        let whole = seq![l] + rest;
        assert(whole.drop_last() =~~= seq![l] + rest.drop_last());
        assert(whole.last() == rest.last());
        lemma_rendered_cons(l, rest.drop_last());
        assert(rendered(whole) =~= l + seq!['\n'] + rendered(rest));
    }
}

/// Splitting terminator-ended content into lines and rendering them back
/// is the identity: the search with the empty pattern reproduces such
/// content exactly.
pub proof fn lemma_render_round_trip(c: Seq<char>)
    requires
        c.len() == 0 || c.last() == '\n',
    ensures
        rendered(lines_of(c)) == c,
    decreases c.len(),
{
    if c.len() == 0 {
    } else if c[0] == '\n' {
        let d = c.drop_first();
        lemma_render_round_trip(d);
        lemma_rendered_cons(Seq::empty(), lines_of(d));
        assert(rendered(lines_of(c)) =~= c);
    } else {
        assert(c.len() >= 2);
        let d = c.drop_first();
        assert(d.last() == '\n');
        lemma_render_round_trip(d);
        let rest = lines_of(d);
        assert(rest.len() >= 1);
        assert(lines_of(c) == seq![seq![c[0]] + rest[0]] + rest.drop_first());
        assert(rest =~~= seq![rest[0]] + rest.drop_first());
        lemma_rendered_cons(rest[0], rest.drop_first());
        assert(d =~= rest[0] + seq!['\n'] + rendered(rest.drop_first()));
        lemma_rendered_cons(seq![c[0]] + rest[0], rest.drop_first());
        assert(c =~= seq![c[0]] + d);
        assert(rendered(lines_of(c)) =~= c);
    }
}

/// Adding a single terminator to content that ends without one changes no
/// line: the last partial line is simply closed, and no empty line appears.
pub proof fn lemma_trailing_terminator(c: Seq<char>)
    requires
        c.len() > 0,
        c.last() != '\n',
    ensures
        lines_of(c + seq!['\n']) == lines_of(c),
    decreases c.len(),
{
    let e = c + seq!['\n'];
    if c.len() == 1 {
        assert(e[0] == c[0]);
        assert(e[1] == '\n');
        lemma_lines_of_split(e, 1);
        assert(e.take(1) =~= c);
        assert(e.subrange(2, 2).len() == 0);
        assert(lines_of(e.subrange(2, 2)) == Seq::<Seq<char>>::empty());
        assert(lines_of(e) =~~= seq![c]);
        lemma_lines_of_split(c, 1);
        assert(lines_of(c) == seq![c]);
    } else {
        let d = c.drop_first();
        assert(d.last() == c.last());
        lemma_trailing_terminator(d);
        assert(e.drop_first() =~= d + seq!['\n']);
        assert(lines_of(e.drop_first()) == lines_of(d));
        assert(e[0] == c[0]);
        if c[0] == '\n' {
            assert(lines_of(e) == seq![Seq::<char>::empty()] + lines_of(e.drop_first()));
            assert(lines_of(c) == seq![Seq::<char>::empty()] + lines_of(d));
        } else {
            let rest = lines_of(d);
            assert(rest.len() >= 1);
            assert(lines_of(e) == seq![seq![e[0]] + rest[0]] + rest.drop_first());
            assert(lines_of(c) == seq![seq![c[0]] + rest[0]] + rest.drop_first());
        }
    }
}

/// The output of a successful search is a function of the content and the
/// pattern alone: two runs over the same content and pattern, each into a
/// fresh sink, produce identical output in both sinks.
pub proof fn lemma_output_deterministic(
    content: Seq<char>,
    pat: Seq<char>,
    out1: Seq<char>,
    out2: Seq<char>,
)
    requires
        out1 == expected_output(content, pat),
        out2 == expected_output(content, pat),
    ensures
        out1 == out2,
{
}

/// The empty pattern matches every line, so searching with it writes all of
/// the content's lines, in order, each followed by one terminator.
pub proof fn lemma_empty_pattern(content: Seq<char>)
    ensures
        expected_output(content, Seq::empty()) == rendered(lines_of(content)),
{
    let lines = lines_of(content);
    assert forall|i: int| 0 <= i < lines.len() implies line_matches(
        #[trigger] lines[i],
        Seq::empty(),
    ) by {
        assert(lines[i].subrange(0, 0) =~= Seq::<char>::empty());
        assert(is_match_at(lines[i], Seq::empty(), 0));
    }
    lemma_matching_lines_all(lines, Seq::empty());
}

/// Empty content has no lines, so a search over it writes nothing.
pub proof fn lemma_empty_content(pat: Seq<char>)
    ensures
        expected_output(Seq::empty(), pat) == Seq::<char>::empty(),
{
}

/// When no line of the content matches the pattern, the search writes
/// nothing.
pub proof fn lemma_pattern_absent(content: Seq<char>, pat: Seq<char>)
    requires
        forall|i: int|
            0 <= i < lines_of(content).len() ==> !line_matches(#[trigger] lines_of(content)[i], pat),
    ensures
        expected_output(content, pat) == Seq::<char>::empty(),
{
    lemma_matching_lines_none(lines_of(content), pat);
}

} // verus!
