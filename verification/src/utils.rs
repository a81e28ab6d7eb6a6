use vstd::prelude::*;
use vstd::string::StringExecFns;
use crate::chunks::{
    chunk_count, chunk_end, chunk_lines, chunk_prefix, chunk_text, data_lines,
    lemma_chunk_count_bounds, line_break, render_lines, split_chunks,
};
use crate::error::{Error, ErrorKind};
use crate::iter::FileChunkIterator;
use crate::lines::{lemma_join_undoes_split, lines_of, split_lines, texts};
use crate::names::{file_name, output_files, OutputFile};

verus! {

/// Appends to `chunk` the lines `from..to` of the data, each with its line
/// break. The data lines are the elements of `lines` from `offset` on.
fn append_lines(chunk: &mut String, lines: &Vec<String>, offset: usize, from: usize, to: usize)
    requires
        offset <= lines@.len(),
        from <= to <= lines@.len() - offset,
    ensures
        final(chunk)@ == old(chunk)@ + render_lines(
            texts(lines@).skip(offset as int).subrange(from as int, to as int),
        ),
{
    let ghost data = texts(lines@).skip(offset as int);
    let ghost before = chunk@;
    let total: usize = lines.len();
    let mut i: usize = from;
    proof {
        assert(chunk@ =~= before + render_lines(data.subrange(from as int, i as int)));
    }
    while i < to
        invariant
            total == lines@.len(),
            offset <= total,
            from <= i <= to <= total - offset,
            data == texts(lines@).skip(offset as int),
            chunk@ == before + render_lines(data.subrange(from as int, i as int)),
        decreases to - i,
    {
        proof {
            reveal_strlit("\r\n");
            let grown = data.subrange(from as int, i + 1);
            assert(grown.drop_last() =~= data.subrange(from as int, i as int));
            assert(grown.last() == lines@[i + offset]@);
            assert("\r\n"@ =~= line_break());
        }
        chunk.append(lines[i + offset].as_str());
        chunk.append("\r\n");
        proof {
            assert(chunk@ =~= before + render_lines(data.subrange(from as int, i + 1)));
        }
        i += 1;
    }
}

/// Splits a document into chunks of at most `chunk_size` data lines.
///
/// The document is cut at its newline characters. With `headers`, the first
/// line is kept apart and written at the top of every chunk. Every line
/// written ends in a carriage return and a newline. A chunk size of zero is
/// refused; any other input gives the chunks, all of them computed, with the
/// read position at the first.
pub fn split(contents: &str, chunk_size: usize, headers: bool) -> (r: Result<
    FileChunkIterator,
    Error,
>)
    ensures
        r is Err <==> chunk_size == 0,
        r is Err ==> r->Err_0.kind == ErrorKind::Validation && r->Err_0.msg@
            == "the number of lines per file must be at least 1"@,
        r is Ok ==> r->Ok_0.position() == 0 && r->Ok_0.chunks() == split_chunks(
            contents@,
            chunk_size as nat,
            headers,
        ),
{
    if chunk_size == 0 {
        return Err(
            Error::with_kind(
                ErrorKind::Validation,
                "the number of lines per file must be at least 1",
            ),
        );
    }
    let lines = lines_of(contents);
    proof {
        lemma_join_undoes_split(contents@);
    }
    let offset: usize = if headers {
        1
    } else {
        0
    };
    let len: usize = lines.len() - offset;
    let ghost all = split_lines(contents@);
    let ghost data = data_lines(all, headers);
    let ghost n = chunk_size as nat;
    let mut chunks: Vec<String> = Vec::new();
    let mut start: usize = 0;
    proof {
        assert(0 * n == 0) by (nonlinear_arith);
        lemma_chunk_count_bounds(data.len(), n, 0);
    }
    while start < len
        invariant
            texts(lines@) == all,
            data == data_lines(all, headers),
            data == all.skip(offset as int),
            all.len() >= 1,
            lines@.len() == len + offset,
            data.len() == len,
            offset == if headers { 1usize } else { 0usize },
            n == chunk_size,
            n > 0,
            start <= len,
            start < len ==> start == chunks@.len() * n,
            start == len ==> chunks@.len() == chunk_count(data.len(), n),
            chunks@.len() <= chunk_count(data.len(), n),
            forall|c: int|
                0 <= c < chunks@.len() ==> #[trigger] chunks@[c]@ == chunk_text(
                    all,
                    n,
                    headers,
                    c as nat,
                ),
        decreases len - start,
    {
        let ghost c = chunks@.len();
        let end: usize = if len - start < chunk_size {
            len
        } else {
            start + chunk_size
        };
        proof {
            assert((c + 1) * n == c * n + n) by (nonlinear_arith);
            assert(end == chunk_end(data.len(), n, c));
            lemma_chunk_count_bounds(data.len(), n, c);
            lemma_chunk_count_bounds(data.len(), n, c + 1);
        }
        let mut chunk = String::new();
        if headers {
            proof {
                reveal_strlit("\r\n");
                assert("\r\n"@ =~= line_break());
            }
            chunk.append(lines[0].as_str());
            chunk.append("\r\n");
        }
        proof {
            assert(chunk@ =~= chunk_prefix(all, headers));
        }
        append_lines(&mut chunk, &lines, offset, start, end);
        proof {
            assert(data.subrange(start as int, end as int) == chunk_lines(data, n, c));
            assert(chunk@ == chunk_text(all, n, headers, c));
        }
        chunks.push(chunk);
        start = end;
    }
    proof {
        assert(texts(chunks@) =~= split_chunks(contents@, n, headers));
    }
    Ok(FileChunkIterator::new(chunks))
}

/// Splits a document and names the file for each chunk: chunk `i` goes to
/// the file with index `i`.
pub fn split_files(
    contents: &str,
    chunk_size: usize,
    headers: bool,
    file_name_base: &str,
    ext: &str,
) -> (r: Result<Vec<OutputFile>, Error>)
    ensures
        r is Err <==> chunk_size == 0,
        r is Err ==> r->Err_0.kind == ErrorKind::Validation && r->Err_0.msg@
            == "the number of lines per file must be at least 1"@,
        r is Ok ==> r->Ok_0@.len() == split_chunks(contents@, chunk_size as nat, headers).len(),
        r is Ok ==> forall|i: int|
            0 <= i < r->Ok_0@.len() ==> {
                &&& (#[trigger] r->Ok_0@[i]).name@ == file_name(file_name_base@, i as nat, ext@)
                &&& r->Ok_0@[i].text@ == split_chunks(contents@, chunk_size as nat, headers)[i]
            },
{
    match split(contents, chunk_size, headers) {
        Ok(chunks) => {
            proof {
                assert(chunks.remaining() =~= chunks.chunks());
            }
            Ok(output_files(chunks, file_name_base, ext))
        },
        Err(e) => Err(e),
    }
}

/// How an attempt to create the output directory ended.
#[derive(Debug, Clone, Copy, PartialEq, Eq, Structural)]
pub enum CreateOutcome {
    /// The directory now exists and is empty.
    Created,
    /// Something already stands at that path.
    AlreadyExists,
    /// The attempt failed for another reason.
    Failed,
}

/// What to do after an attempt to create the output directory.
#[derive(Debug, Clone, Copy, PartialEq, Eq, Structural)]
pub enum DirAction {
    /// The directory is ready.
    Done,
    /// Remove what stands at the path, with all it holds, and try again.
    ClearAndRetry,
    /// Give up and report the failure of the last attempt.
    Fail,
}

/// The number of times an existing directory is cleared before giving up.
pub const MAX_DIR_RETRIES: usize = 1;

/// The step that follows an attempt, given how many times the path has been
/// cleared already.
pub open spec fn dir_action(outcome: CreateOutcome, retries: usize) -> DirAction {
    match outcome {
        CreateOutcome::Created => DirAction::Done,
        CreateOutcome::AlreadyExists => if retries < MAX_DIR_RETRIES {
            DirAction::ClearAndRetry
        } else {
            DirAction::Fail
        },
        CreateOutcome::Failed => DirAction::Fail,
    }
}

/// Decides the step that follows an attempt to create the output directory.
///
/// An existing directory is cleared and the creation tried once more; a
/// second collision, or any other failure, ends the run.
pub fn create_split_dir_step(outcome: CreateOutcome, retries: usize) -> (action: DirAction)
    ensures
        action == dir_action(outcome, retries),
        action == DirAction::ClearAndRetry ==> retries < MAX_DIR_RETRIES,
        action == DirAction::Done <==> outcome == CreateOutcome::Created,
{
    match outcome {
        CreateOutcome::Created => DirAction::Done,
        CreateOutcome::AlreadyExists => if retries < MAX_DIR_RETRIES {
            DirAction::ClearAndRetry
        } else {
            DirAction::Fail
        },
        CreateOutcome::Failed => DirAction::Fail,
    }
}

} // verus!
