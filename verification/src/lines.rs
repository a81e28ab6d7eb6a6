use vstd::prelude::*;

verus! {

/// The pieces of `s` between its newline characters, in order.
///
/// A text with `k` newlines has `k + 1` lines; the empty text has one line,
/// which is empty. A carriage return before a newline stays on its line.
pub open spec fn split_lines(s: Seq<char>) -> Seq<Seq<char>>
    decreases s.len(),
{
    if s.len() == 0 {
        seq![Seq::<char>::empty()]
    } else {
        let before = split_lines(s.drop_last());
        if s.last() == '\n' {
            before.push(Seq::<char>::empty())
        } else {
            before.update(before.len() - 1, before.last().push(s.last()))
        }
    }
}

/// The lines joined again, with one newline between neighbours.
pub open spec fn join_lines(lines: Seq<Seq<char>>) -> Seq<char>
    decreases lines.len(),
{
    if lines.len() == 0 {
        Seq::<char>::empty()
    } else if lines.len() == 1 {
        lines[0]
    } else {
        join_lines(lines.drop_last()) + seq!['\n'] + lines.last()
    }
}

/// Whether no line holds a newline.
pub open spec fn free_of_newlines(lines: Seq<Seq<char>>) -> bool {
    forall|i: int| 0 <= i < lines.len() ==> !(#[trigger] lines[i]).contains('\n')
}

/// The views of a vector of strings, one per element.
pub open spec fn texts(v: Seq<String>) -> Seq<Seq<char>> {
    Seq::new(v.len(), |i: int| v[i]@)
}

/// Every text has at least one line, no line holds a newline, and joining
/// the lines with newlines gives the text back.
pub proof fn lemma_join_undoes_split(s: Seq<char>)
    ensures
        split_lines(s).len() >= 1,
        free_of_newlines(split_lines(s)),
        join_lines(split_lines(s)) == s,
    decreases s.len(),
{
    lemma_join_undoes_split_by_chars(s);
    let lines = split_lines(s);
    assert forall|i: int| 0 <= i < lines.len() implies !(#[trigger] lines[i]).contains('\n') by {
        if lines[i].contains('\n') {
            let j = choose|j: int| 0 <= j < lines[i].len() && lines[i][j] == '\n';
            assert(split_lines(s)[i][j] != '\n');
        }
    }
}

/// The same, with the lines' freedom of newlines said character by
/// character, as the induction needs it.
proof fn lemma_join_undoes_split_by_chars(s: Seq<char>)
    ensures
        split_lines(s).len() >= 1,
        forall|i: int, j: int|
            0 <= i < split_lines(s).len() && 0 <= j < split_lines(s)[i].len()
                ==> #[trigger] split_lines(s)[i][j] != '\n',
        join_lines(split_lines(s)) == s,
    decreases s.len(),
{
    if s.len() == 0 {
        assert(join_lines(split_lines(s)) =~= s);
    } else {
        let p = s.drop_last();
        let before = split_lines(p);
        lemma_join_undoes_split_by_chars(p);
        if s.last() == '\n' {
            let after = before.push(Seq::<char>::empty());
            assert(after.drop_last() =~= before);
            assert(join_lines(after) =~= join_lines(before) + seq!['\n']);
            assert(p + seq!['\n'] =~= s);
        } else {
            let grown = before.last().push(s.last());
            let after = before.update(before.len() - 1, grown);
            if before.len() == 1 {
                assert(join_lines(before) == before[0]);
                assert(join_lines(after) == grown);
                assert(grown =~= s);
            } else {
                assert(after.drop_last() =~= before.drop_last());
                assert(join_lines(after) =~= join_lines(before.drop_last()) + seq!['\n']
                    + before.last() + seq![s.last()]);
                assert(join_lines(before) + seq![s.last()] =~= s);
            }
        }
    }
}

/// A text without a newline is a single line.
pub proof fn lemma_single_line(contents: Seq<char>)
    requires
        !contents.contains('\n'),
    ensures
        split_lines(contents) == seq![contents],
    decreases contents.len(),
{
    if contents.len() == 0 {
        assert(contents =~= Seq::<char>::empty());
        assert(split_lines(contents) =~= seq![contents]);
    } else {
        let p = contents.drop_last();
        assert forall|i: int| 0 <= i < p.len() implies p[i] != '\n' by {
            assert(contents.contains(contents[i]));
        }
        assert(!p.contains('\n'));
        lemma_single_line(p);
        assert(contents.contains(contents.last()));
        assert(p.push(contents.last()) =~= contents);
        assert(contents.last() != '\n');
        assert(split_lines(contents)[0] == contents);
        assert(split_lines(contents) =~= seq![contents]);
    }
}

/// Text without a newline, added to the end of a text, adds to its last line.
pub proof fn lemma_split_lines_append(a: Seq<char>, b: Seq<char>)
    requires
        !b.contains('\n'),
    ensures
        split_lines(a).len() >= 1,
        split_lines(a + b) == split_lines(a).update(
            split_lines(a).len() - 1,
            split_lines(a).last() + b,
        ),
    decreases b.len(),
{
    let before = split_lines(a);
    lemma_join_undoes_split(a);
    if b.len() == 0 {
        assert(a + b =~= a);
        assert(before.last() + b =~= before.last());
        assert(before.update(before.len() - 1, before.last()) =~= before);
    } else {
        let shorter = b.drop_last();
        assert forall|i: int| 0 <= i < shorter.len() implies shorter[i] != '\n' by {
            assert(b.contains(b[i]));
        }
        assert(!shorter.contains('\n'));
        assert(b.contains(b.last()));
        lemma_split_lines_append(a, shorter);
        assert((a + b).drop_last() =~= a + shorter);
        assert((a + b).last() == b.last());
        assert((before.last() + shorter).push(b.last()) =~= before.last() + b);
        assert(split_lines(a + b) =~= before.update(before.len() - 1, before.last() + b));
    }
}

/// Cutting undoes joining: lines without a newline, at least one of them,
/// joined and cut again, are the same lines. With the lemma before the
/// first, this says that `split_lines` is the one way to write a text as
/// newline-free lines with a newline between neighbours.
pub proof fn lemma_split_undoes_join(lines: Seq<Seq<char>>)
    requires
        lines.len() >= 1,
        free_of_newlines(lines),
    ensures
        split_lines(join_lines(lines)) == lines,
    decreases lines.len(),
{
    if lines.len() == 1 {
        lemma_single_line(lines[0]);
        assert(seq![lines[0]] =~= lines);
    } else {
        let shorter = lines.drop_last();
        lemma_split_undoes_join(shorter);
        let head = join_lines(shorter) + seq!['\n'];
        assert(head.drop_last() =~= join_lines(shorter));
        assert(split_lines(head) == shorter.push(Seq::<char>::empty()));
        lemma_split_lines_append(head, lines.last());
        assert(Seq::<char>::empty() + lines.last() =~= lines.last());
        assert(split_lines(head + lines.last()) =~= lines);
    }
}

/// Appends one character to a string, by `String::push`: the string's
/// characters afterwards are those before, followed by `c`.
#[verifier::external_body]
pub(crate) fn push_char(s: &mut String, c: char)
    ensures
        final(s)@ == old(s)@.push(c),
{
    s.push(c)
}

/// Splits a text at its newline characters.
pub fn lines_of(contents: &str) -> (lines: Vec<String>)
    ensures
        texts(lines@) == split_lines(contents@),
{
    let mut done: Vec<String> = Vec::new();
    let mut cur = String::new();
    for c in it: contents.chars()
        invariant
            it.seq() == contents@,
            done@.len() + 1 == split_lines(contents@.take(it.index())).len(),
            forall|j: int|
                0 <= j < done@.len() ==> #[trigger] done@[j]@ == split_lines(
                    contents@.take(it.index()),
                )[j],
            cur@ == split_lines(contents@.take(it.index())).last(),
    {
        proof {
            let p = contents@.take(it.index());
            let q = contents@.take(it.index() + 1);
            assert(q.drop_last() =~= p);
            assert(q.last() == c);
        }
        if c == '\n' {
            done.push(cur);
            cur = String::new();
        } else {
            push_char(&mut cur, c);
        }
    }
    proof {
        assert(contents@.take(contents@.len() as int) =~= contents@);
    }
    done.push(cur);
    proof {
        assert(texts(done@) =~= split_lines(contents@));
    }
    done
}

} // verus!
