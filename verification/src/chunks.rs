use vstd::prelude::*;
use crate::lines::{
    free_of_newlines, lemma_join_undoes_split, lemma_single_line, lemma_split_lines_append,
    split_lines,
};

verus! {

/// The terminator written after every line of a chunk.
pub open spec fn line_break() -> Seq<char> {
    seq!['\r', '\n']
}

/// The lines written out one after another, each followed by a line break.
pub open spec fn render_lines(lines: Seq<Seq<char>>) -> Seq<char>
    decreases lines.len(),
{
    if lines.len() == 0 {
        Seq::<char>::empty()
    } else {
        render_lines(lines.drop_last()) + lines.last() + line_break()
    }
}

/// The lines that are split into chunks: all of them, or all but the header.
pub open spec fn data_lines(lines: Seq<Seq<char>>, headers: bool) -> Seq<Seq<char>> {
    if headers {
        lines.skip(1)
    } else {
        lines
    }
}

/// The number of chunks for `d` data lines at `n` lines per chunk: `d / n`,
/// rounded up.
pub open spec fn chunk_count(d: nat, n: nat) -> nat
    recommends
        n > 0,
{
    if n == 0 {
        0
    } else {
        ((d + n - 1) / (n as int)) as nat
    }
}

/// Where chunk `c` ends among `d` data lines.
pub open spec fn chunk_end(d: nat, n: nat, c: nat) -> nat {
    if (c + 1) * n < d {
        (c + 1) * n
    } else {
        d
    }
}

/// The data lines of chunk `c`.
pub open spec fn chunk_lines(data: Seq<Seq<char>>, n: nat, c: nat) -> Seq<Seq<char>> {
    data.subrange((c * n) as int, chunk_end(data.len(), n, c) as int)
}

/// What every chunk starts with: the header and a line break, or nothing.
pub open spec fn chunk_prefix(lines: Seq<Seq<char>>, headers: bool) -> Seq<char> {
    if headers {
        lines[0] + line_break()
    } else {
        Seq::<char>::empty()
    }
}

/// The text of chunk `c` of a document given by its lines.
pub open spec fn chunk_text(lines: Seq<Seq<char>>, n: nat, headers: bool, c: nat) -> Seq<char> {
    chunk_prefix(lines, headers) + render_lines(chunk_lines(data_lines(lines, headers), n, c))
}

/// The texts of all chunks of a document, in order.
pub open spec fn split_chunks(contents: Seq<char>, n: nat, headers: bool) -> Seq<Seq<char>> {
    let lines = split_lines(contents);
    Seq::new(
        chunk_count(data_lines(lines, headers).len(), n),
        |c: int| chunk_text(lines, n, headers, c as nat),
    )
}

/// The chunk count is the number of multiples of `n` below `d`: chunk `c`
/// exists exactly when its first line does.
pub proof fn lemma_chunk_count_bounds(d: nat, n: nat, c: nat)
    requires
        n > 0,
    ensures
        c < chunk_count(d, n) <==> c * n < d,
{
    let k = chunk_count(d, n);
    assert(k * n >= d && k * n < d + n) by (nonlinear_arith)
        requires
            n > 0,
            k == (d + n - 1) / (n as int),
    ;
    if c < k {
        assert(c * n < d) by (nonlinear_arith)
            requires
                c + 1 <= k,
                k * n < d + n,
                n > 0,
        ;
    } else {
        assert(c * n >= d) by (nonlinear_arith)
            requires
                c >= k,
                k * n >= d,
                n > 0,
        ;
    }
}

/// The chunk count is `d / n` rounded up: the least number of chunks of `n`
/// lines that hold `d` lines.
pub proof fn lemma_chunk_count_is_ceiling(d: nat, n: nat)
    requires
        n > 0,
    ensures
        chunk_count(d, n) * n >= d,
        chunk_count(d, n) * n < d + n,
        d == 0 <==> chunk_count(d, n) == 0,
{
    let k = chunk_count(d, n);
    assert(k * n >= d && k * n < d + n) by (nonlinear_arith)
        requires
            n > 0,
            k == (d + n - 1) / (n as int),
    ;
    lemma_chunk_count_bounds(d, n, 0);
    assert(0 * n == 0) by (nonlinear_arith);
}

/// The data lines of the first `k` chunks, one chunk after another.
pub open spec fn first_chunks_lines(data: Seq<Seq<char>>, n: nat, k: nat) -> Seq<Seq<char>>
    decreases k,
{
    if k == 0 {
        Seq::<Seq<char>>::empty()
    } else {
        first_chunks_lines(data, n, (k - 1) as nat) + chunk_lines(data, n, (k - 1) as nat)
    }
}

/// The texts one after another.
pub open spec fn concat_texts(parts: Seq<Seq<char>>) -> Seq<char>
    decreases parts.len(),
{
    if parts.len() == 0 {
        Seq::<char>::empty()
    } else {
        concat_texts(parts.drop_last()) + parts.last()
    }
}

/// Every chunk holds at least one and at most `n` data lines.
pub proof fn lemma_chunk_sizes(data: Seq<Seq<char>>, n: nat, c: nat)
    requires
        n > 0,
        c < chunk_count(data.len(), n),
    ensures
        1 <= chunk_lines(data, n, c).len() <= n,
        c + 1 < chunk_count(data.len(), n) ==> chunk_lines(data, n, c).len() == n,
{
    lemma_chunk_count_bounds(data.len(), n, c);
    lemma_chunk_count_bounds(data.len(), n, c + 1);
    assert((c + 1) * n == c * n + n) by (nonlinear_arith);
}

/// The first `k` chunks hold the first lines of the data, each once and in
/// order: `k * n` of them, or all if there are fewer.
pub proof fn lemma_first_chunks_lines(data: Seq<Seq<char>>, n: nat, k: nat)
    requires
        n > 0,
        k <= chunk_count(data.len(), n),
    ensures
        first_chunks_lines(data, n, k) == data.take(
            if k * n < data.len() {
                (k * n) as int
            } else {
                data.len() as int
            },
        ),
    decreases k,
{
    if k == 0 {
        assert(0 * n == 0) by (nonlinear_arith);
        assert(first_chunks_lines(data, n, k) =~= data.take(0));
    } else {
        let c = (k - 1) as nat;
        lemma_first_chunks_lines(data, n, c);
        lemma_chunk_count_bounds(data.len(), n, c);
        assert((c + 1) * n == c * n + n) by (nonlinear_arith);
        assert(first_chunks_lines(data, n, k) =~= data.take(chunk_end(data.len(), n, c) as int));
    }
}

/// Cutting into chunks loses, repeats and reorders nothing: the data lines
/// of all chunks, one chunk after another, are the data lines.
pub proof fn lemma_chunks_partition_data(data: Seq<Seq<char>>, n: nat)
    requires
        n > 0,
    ensures
        first_chunks_lines(data, n, chunk_count(data.len(), n)) == data,
{
    let k = chunk_count(data.len(), n);
    lemma_first_chunks_lines(data, n, k);
    lemma_chunk_count_is_ceiling(data.len(), n);
    assert(data.take(data.len() as int) =~= data);
}

/// Rendering two runs of lines one after the other renders their
/// concatenation.
pub proof fn lemma_render_lines_concat(a: Seq<Seq<char>>, b: Seq<Seq<char>>)
    ensures
        render_lines(a + b) == render_lines(a) + render_lines(b),
    decreases b.len(),
{
    if b.len() == 0 {
        assert(a + b =~= a);
        assert(render_lines(a) + render_lines(b) =~= render_lines(a));
    } else {
        lemma_render_lines_concat(a, b.drop_last());
        assert((a + b).drop_last() =~= a + b.drop_last());
        assert((a + b).last() == b.last());
        assert(render_lines(a + b) =~= render_lines(a) + render_lines(b));
    }
}

/// Without headers, the texts of the first `k` chunks, one after another,
/// are the rendering of the lines that those chunks hold.
pub proof fn lemma_first_chunk_texts(contents: Seq<char>, n: nat, k: nat)
    requires
        n > 0,
        k <= chunk_count(split_lines(contents).len(), n),
    ensures
        concat_texts(split_chunks(contents, n, false).take(k as int)) == render_lines(
            first_chunks_lines(split_lines(contents), n, k),
        ),
    decreases k,
{
    let lines = split_lines(contents);
    let texts = split_chunks(contents, n, false);
    if k > 0 {
        let c = (k - 1) as nat;
        lemma_first_chunk_texts(contents, n, c);
        lemma_render_lines_concat(first_chunks_lines(lines, n, c), chunk_lines(lines, n, c));
        assert(texts.take(k as int).drop_last() =~= texts.take(c as int));
        assert(texts.take(k as int).last() =~= render_lines(chunk_lines(lines, n, c)));
    }
}

/// The lines, each with a carriage return at its end.
pub open spec fn with_carriage_returns(lines: Seq<Seq<char>>) -> Seq<Seq<char>> {
    Seq::new(lines.len(), |i: int| lines[i].push('\r'))
}

/// Rendered lines read back: cut at its newlines, the rendering gives every
/// line again, in order, with the carriage return that was written after it,
/// and then one empty line.
pub proof fn lemma_render_lines_reads_back(lines: Seq<Seq<char>>)
    requires
        free_of_newlines(lines),
    ensures
        split_lines(render_lines(lines)) == with_carriage_returns(lines).push(
            Seq::<char>::empty(),
        ),
    decreases lines.len(),
{
    if lines.len() == 0 {
        assert(split_lines(render_lines(lines)) =~= with_carriage_returns(lines).push(
            Seq::<char>::empty(),
        ));
    } else {
        let shorter = lines.drop_last();
        let line = lines.last().push('\r');
        let head = render_lines(shorter);
        lemma_render_lines_reads_back(shorter);
        assert forall|i: int| 0 <= i < line.len() implies line[i] != '\n' by {
            if i < lines.last().len() {
                assert(lines.last().contains(lines.last()[i]));
            }
        }
        assert(!line.contains('\n'));
        lemma_split_lines_append(head, line);
        let text = render_lines(lines);
        assert(text =~= (head + line).push('\n'));
        assert(text.drop_last() =~= head + line);
        assert(Seq::<char>::empty() + line =~= line);
        assert(split_lines(head + line) =~= with_carriage_returns(lines));
        assert(split_lines(text) =~= with_carriage_returns(lines).push(Seq::<char>::empty()));
    }
}

/// Without headers, a document of `D` lines gives `D / n` chunks, rounded
/// up, and the chunks written one after another are the whole document with
/// every line ended by a line break: each line once, in its place. Cut at
/// the newlines, what was written gives the document's lines back, each
/// with its carriage return, and one empty line after the last.
pub proof fn lemma_split_keeps_every_line(contents: Seq<char>, n: nat)
    requires
        n > 0,
    ensures
        split_chunks(contents, n, false).len() == chunk_count(split_lines(contents).len(), n),
        concat_texts(split_chunks(contents, n, false)) == render_lines(split_lines(contents)),
        split_lines(concat_texts(split_chunks(contents, n, false))) == with_carriage_returns(
            split_lines(contents),
        ).push(Seq::<char>::empty()),
{
    let lines = split_lines(contents);
    let texts = split_chunks(contents, n, false);
    let k = chunk_count(lines.len(), n);
    lemma_first_chunk_texts(contents, n, k);
    lemma_chunks_partition_data(lines, n);
    assert(texts.take(k as int) =~= texts);
    lemma_join_undoes_split(contents);
    lemma_render_lines_reads_back(lines);
}

/// With headers, every chunk starts with the document's first line and a
/// line break.
pub proof fn lemma_chunks_start_with_header(contents: Seq<char>, n: nat, c: int)
    requires
        0 <= c < split_chunks(contents, n, true).len(),
    ensures
        (split_lines(contents)[0] + line_break()).is_prefix_of(
            split_chunks(contents, n, true)[c],
        ),
{
    let head = split_lines(contents)[0] + line_break();
    let text = split_chunks(contents, n, true)[c];
    assert(head =~= text.subrange(0, head.len() as int));
}

/// With headers, a document that is its header alone gives no chunk at all.
pub proof fn lemma_header_only_gives_no_chunks(contents: Seq<char>, n: nat)
    requires
        n > 0,
        !contents.contains('\n'),
    ensures
        split_chunks(contents, n, true).len() == 0,
{
    lemma_single_line(contents);
    lemma_chunk_count_is_ceiling(0, n);
}

} // verus!
