use dragonfly_client::error::ErrorKind;
use dragonfly_client::storage::content::Content;

#[test]
fn a_piece_written_is_the_piece_read() {
    let mut content = Content::new();
    let w = content.write_piece("t1", 0, b"AAAA").unwrap();
    assert_eq!(w.length, 4);
    assert_eq!(
        w.hash,
        "63c1dd951ffedf6f7fd968ad4efa39b8ed584f162f46e715114ee184f8de9201"
    );
    assert_eq!(content.read_piece("t1", 0, 4).unwrap(), b"AAAA".to_vec());
}

#[test]
fn pieces_can_be_written_in_any_order() {
    let mut content = Content::new();
    content.write_piece("t1", 8, b"CC").unwrap();
    content.write_piece("t1", 0, b"AAAA").unwrap();
    content.write_piece("t1", 4, b"BBBB").unwrap();
    assert_eq!(content.read_piece("t1", 0, 10).unwrap(), b"AAAABBBBCC".to_vec());
    assert_eq!(content.read_piece("t1", 4, 4).unwrap(), b"BBBB".to_vec());
    assert_eq!(content.read_piece("t1", 8, 2).unwrap(), b"CC".to_vec());
}

#[test]
fn a_gap_before_a_write_reads_as_zero() {
    let mut content = Content::new();
    content.write_piece("t1", 3, b"Z").unwrap();
    assert_eq!(content.read_piece("t1", 0, 4).unwrap(), vec![0, 0, 0, b'Z']);
}

#[test]
fn a_later_write_replaces_the_bytes_at_its_offset() {
    let mut content = Content::new();
    content.write_piece("t1", 0, b"abcdef").unwrap();
    content.write_piece("t1", 2, b"XY").unwrap();
    assert_eq!(content.read_piece("t1", 0, 6).unwrap(), b"abXYef".to_vec());
}

#[test]
fn an_empty_write_creates_the_file() {
    let mut content = Content::new();
    let w = content.write_piece("t1", 0, b"").unwrap();
    assert_eq!(w.length, 0);
    assert_eq!(content.read_piece("t1", 0, 0).unwrap(), Vec::<u8>::new());
}

#[test]
fn files_of_different_tasks_are_apart() {
    let mut content = Content::new();
    content.write_piece("t1", 0, b"one").unwrap();
    content.write_piece("t2", 0, b"two").unwrap();
    content.write_piece("t1", 3, b"!").unwrap();
    assert_eq!(content.read_piece("t1", 0, 4).unwrap(), b"one!".to_vec());
    assert_eq!(content.read_piece("t2", 0, 3).unwrap(), b"two".to_vec());
}

#[test]
fn reading_beyond_the_end_fails() {
    let mut content = Content::new();
    content.write_piece("t1", 0, b"abc").unwrap();
    assert_eq!(
        content.read_piece("t1", 1, 3).unwrap_err().kind(),
        ErrorKind::InvalidParameter
    );
    assert_eq!(
        content.read_piece("t1", 4, 0).unwrap_err().kind(),
        ErrorKind::InvalidParameter
    );
    assert_eq!(
        content.read_piece("t1", u64::MAX, 2).unwrap_err().kind(),
        ErrorKind::InvalidParameter
    );
}

#[test]
fn reading_a_task_without_a_file_fails() {
    let content = Content::new();
    assert_eq!(
        content.read_piece("nope", 0, 0).unwrap_err().kind(),
        ErrorKind::TaskNotFound
    );
}

#[test]
fn delete_task_removes_the_file_of_that_task_only() {
    let mut content = Content::new();
    content.write_piece("t1", 0, b"one").unwrap();
    content.write_piece("t2", 0, b"two").unwrap();
    content.delete_task("t1").unwrap();
    content.delete_task("t1").unwrap();
    assert_eq!(
        content.read_piece("t1", 0, 1).unwrap_err().kind(),
        ErrorKind::TaskNotFound
    );
    assert_eq!(content.read_piece("t2", 0, 3).unwrap(), b"two".to_vec());
}
