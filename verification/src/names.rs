use vstd::prelude::*;
use vstd::string::StringExecFns;
use crate::iter::FileChunkIterator;
use crate::lines::push_char;

verus! {

/// The character for a decimal digit.
pub open spec fn digit_char(d: nat) -> char
    recommends
        d < 10,
{
    if d == 0 {
        '0'
    } else if d == 1 {
        '1'
    } else if d == 2 {
        '2'
    } else if d == 3 {
        '3'
    } else if d == 4 {
        '4'
    } else if d == 5 {
        '5'
    } else if d == 6 {
        '6'
    } else if d == 7 {
        '7'
    } else if d == 8 {
        '8'
    } else {
        '9'
    }
}

/// A number in decimal, without sign or leading zeros; zero is `0`.
pub open spec fn decimal(n: nat) -> Seq<char>
    decreases n,
{
    if n < 10 {
        seq![digit_char(n)]
    } else {
        decimal(n / 10).push(digit_char(n % 10))
    }
}

/// The name of the output file with the given index:
/// the base name, a hyphen, the index in decimal, a dot, the extension.
pub open spec fn file_name(base: Seq<char>, index: nat, ext: Seq<char>) -> Seq<char> {
    base + seq!['-'] + decimal(index) + seq!['.'] + ext
}

/// The digit that a digit character stands for.
pub open spec fn digit_value(c: char) -> nat {
    if c == '1' {
        1
    } else if c == '2' {
        2
    } else if c == '3' {
        3
    } else if c == '4' {
        4
    } else if c == '5' {
        5
    } else if c == '6' {
        6
    } else if c == '7' {
        7
    } else if c == '8' {
        8
    } else if c == '9' {
        9
    } else {
        0
    }
}

/// The number that a run of digit characters stands for.
pub open spec fn decimal_value(s: Seq<char>) -> nat
    decreases s.len(),
{
    if s.len() == 0 {
        0
    } else {
        10 * decimal_value(s.drop_last()) + digit_value(s.last())
    }
}

/// Reading a number's decimal form gives the number back.
pub proof fn lemma_decimal_value(n: nat)
    ensures
        decimal_value(decimal(n)) == n,
    decreases n,
{
    if n < 10 {
        let s = decimal(n);
        assert(s.drop_last() =~= Seq::<char>::empty());
        assert(decimal_value(s.drop_last()) == 0);
    } else {
        lemma_decimal_value(n / 10);
        let s = decimal(n);
        assert(s.drop_last() =~= decimal(n / 10));
        assert(s.last() == digit_char(n % 10));
    }
}

/// Two indices never share a file name.
pub proof fn lemma_file_names_distinct(base: Seq<char>, ext: Seq<char>, i: nat, j: nat)
    requires
        file_name(base, i, ext) == file_name(base, j, ext),
    ensures
        i == j,
{
    let a = file_name(base, i, ext);
    let b = file_name(base, j, ext);
    let from: int = base.len() as int + 1;
    assert(a.len() == base.len() + 2 + decimal(i).len() + ext.len());
    assert(b.len() == base.len() + 2 + decimal(j).len() + ext.len());
    assert(decimal(i) =~= a.subrange(from, from + decimal(i).len()));
    assert(decimal(j) =~= b.subrange(from, from + decimal(j).len()));
    lemma_decimal_value(i);
    lemma_decimal_value(j);
}

fn digit_of(d: usize) -> (c: char)
    requires
        d < 10,
    ensures
        c == digit_char(d as nat),
{
    if d == 0 {
        '0'
    } else if d == 1 {
        '1'
    } else if d == 2 {
        '2'
    } else if d == 3 {
        '3'
    } else if d == 4 {
        '4'
    } else if d == 5 {
        '5'
    } else if d == 6 {
        '6'
    } else if d == 7 {
        '7'
    } else if d == 8 {
        '8'
    } else {
        '9'
    }
}

/// Appends a number in decimal to a string.
pub fn push_decimal(s: &mut String, n: usize)
    ensures
        final(s)@ == old(s)@ + decimal(n as nat),
    decreases n,
{
    if n >= 10 {
        push_decimal(s, n / 10);
    }
    push_char(s, digit_of(n % 10));
    proof {
        assert(s@ =~= old(s)@ + decimal(n as nat));
    }
}

/// The name of the output file that holds chunk `number`.
pub fn split_file_name(file_name_base: &str, number: usize, ext: &str) -> (name: String)
    ensures
        name@ == file_name(file_name_base@, number as nat, ext@),
{
    let mut name = String::from_str(file_name_base);
    push_char(&mut name, '-');
    push_decimal(&mut name, number);
    push_char(&mut name, '.');
    name.append(ext);
    proof {
        assert(name@ =~= file_name(file_name_base@, number as nat, ext@));
    }
    name
}

/// One file to write: its name inside the output directory, and its text.
#[derive(Debug)]
pub struct OutputFile {
    pub name: String,
    pub text: String,
}

/// The files to write for the chunks still to come, in order.
///
/// The first of them gets index 0 and each next one the next index, so the
/// indices in the names run from 0 without a gap.
pub fn output_files(chunks: FileChunkIterator, file_name_base: &str, ext: &str) -> (files: Vec<
    OutputFile,
>)
    ensures
        files@.len() == chunks.remaining().len(),
        forall|i: int|
            0 <= i < files@.len() ==> {
                &&& (#[trigger] files@[i]).name@ == file_name(file_name_base@, i as nat, ext@)
                &&& files@[i].text@ == chunks.remaining()[i]
            },
{
    let mut it = chunks;
    let count: usize = it.remaining_len();
    let ghost first = chunks.position();
    let mut files: Vec<OutputFile> = Vec::new();
    let mut index: usize = 0;
    while index < count
        invariant
            index <= count,
            count == chunks.remaining().len(),
            first == chunks.position(),
            first + count == chunks.chunks().len(),
            it.chunks() == chunks.chunks(),
            it.position() == first + index,
            files@.len() == index,
            forall|i: int|
                0 <= i < files@.len() ==> {
                    &&& (#[trigger] files@[i]).name@ == file_name(
                        file_name_base@,
                        i as nat,
                        ext@,
                    )
                    &&& files@[i].text@ == chunks.remaining()[i]
                },
        decreases count - index,
    {
        match it.next() {
            Some(text) => {
                let name = split_file_name(file_name_base, index, ext);
                files.push(OutputFile { name, text });
            },
            None => {},
        }
        index += 1;
    }
    files
}

} // verus!
