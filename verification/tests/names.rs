use file_split::error::ErrorKind;
use file_split::iter::FileChunkIterator;
use file_split::names::{output_files, push_decimal, split_file_name};
use file_split::utils::{split, split_files};

#[test]
fn file_name_has_base_index_and_extension() {
    assert_eq!(split_file_name("data-split", 0, "csv"), "data-split-0.csv");
    assert_eq!(split_file_name("data-split", 7, "csv"), "data-split-7.csv");
    assert_eq!(split_file_name("out", 10, "txt"), "out-10.txt");
    assert_eq!(split_file_name("out", 1203, "txt"), "out-1203.txt");
    assert_eq!(split_file_name("", 5, ""), "-5.");
}

#[test]
fn decimal_agrees_with_std() {
    for n in [0usize, 1, 9, 10, 11, 99, 100, 101, 12345, 1_000_000, usize::MAX - 1, usize::MAX] {
        let mut s = String::from("n=");
        push_decimal(&mut s, n);
        assert_eq!(s, format!("n={}", n));
    }
}

#[test]
fn output_files_are_numbered_from_zero_without_gaps() {
    let chunks: Vec<String> = (0..12).map(|i| format!("chunk {}", i)).collect();
    let files = output_files(FileChunkIterator::new(chunks), "part", "log");
    assert_eq!(files.len(), 12);
    for (i, file) in files.iter().enumerate() {
        assert_eq!(file.name, format!("part-{}.log", i));
        assert_eq!(file.text, format!("chunk {}", i));
    }
}

#[test]
fn output_files_number_what_is_left_from_zero() {
    let mut it = FileChunkIterator::new(vec![String::from("a"), String::from("b"), String::from("c")]);
    assert_eq!(it.next(), Some(String::from("a")));
    let files = output_files(it, "x", "y");
    assert_eq!(files.len(), 2);
    assert_eq!(files[0].name, "x-0.y");
    assert_eq!(files[0].text, "b");
    assert_eq!(files[1].name, "x-1.y");
    assert_eq!(files[1].text, "c");
}

#[test]
fn output_files_of_nothing_is_empty() {
    assert!(output_files(FileChunkIterator::new(Vec::new()), "x", "y").is_empty());
    assert!(output_files(split("h", 1, true).unwrap(), "x", "y").is_empty());
}

#[test]
fn split_files_pairs_names_and_chunks() {
    let files = split_files("h\n1\n2\n3\n", 2, true, "t-split", "csv").unwrap();
    assert_eq!(files.len(), 2);
    assert_eq!(files[0].name, "t-split-0.csv");
    assert_eq!(files[0].text, "h\r\n1\r\n2\r\n");
    assert_eq!(files[1].name, "t-split-1.csv");
    assert_eq!(files[1].text, "h\r\n3\r\n\r\n");
}

#[test]
fn split_files_is_the_same_on_every_run() {
    let first = split_files("a\nb\nc", 2, false, "n", "txt").unwrap();
    let second = split_files("a\nb\nc", 2, false, "n", "txt").unwrap();
    assert_eq!(first.len(), second.len());
    for (a, b) in first.iter().zip(second.iter()) {
        assert_eq!(a.name, b.name);
        assert_eq!(a.text, b.text);
    }
}

#[test]
fn split_files_rejects_chunk_size_zero() {
    let err = split_files("a\nb", 0, false, "n", "txt").unwrap_err();
    assert_eq!(err.kind, ErrorKind::Validation);
    assert_eq!(err.msg, "the number of lines per file must be at least 1");
}
