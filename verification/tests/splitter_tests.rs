use splitfile::source::new_buf;
use splitfile::splitter::{LineAction, SplitError, Splitter};

#[test]
fn actions_for_twenty_five_lines_in_tens() {
    let mut s = Splitter::new(10, false);
    let mut actions: Vec<LineAction> = Vec::new();
    for _ in 0..25 {
        actions.push(s.on_line());
    }
    for i in 0..10 {
        assert_eq!(actions[i], LineAction::Write);
    }
    assert_eq!(actions[10], LineAction::RotateThenWrite { next_chunk: 1 });
    for i in 11..20 {
        assert_eq!(actions[i], LineAction::Write);
    }
    assert_eq!(actions[20], LineAction::RotateThenWrite { next_chunk: 2 });
    for i in 21..25 {
        assert_eq!(actions[i], LineAction::Write);
    }
    assert_eq!(s.chunk_count(), 3);
}

#[test]
fn skip_first_discards_only_the_first_line() {
    let mut s = Splitter::new(10, true);
    let mut actions: Vec<LineAction> = Vec::new();
    for _ in 0..21 {
        actions.push(s.on_line());
    }
    assert_eq!(actions[0], LineAction::Discard);
    for i in 1..11 {
        assert_eq!(actions[i], LineAction::Write);
    }
    assert_eq!(actions[11], LineAction::RotateThenWrite { next_chunk: 1 });
    for i in 12..21 {
        assert_eq!(actions[i], LineAction::Write);
    }
    // twenty post-skip lines fill chunks 0 and 1 exactly; no third file is begun
    assert_eq!(s.chunk_count(), 2);
}

#[test]
fn no_input_lines_still_one_chunk() {
    let s = Splitter::new(10, false);
    assert_eq!(s.chunk_count(), 1);
}

#[test]
fn rotation_is_lazy_on_exact_multiple() {
    let mut s = Splitter::new(2, false);
    for _ in 0..4 {
        s.on_line();
    }
    assert_eq!(s.chunk_count(), 2);
    // the next line opens the third chunk
    assert_eq!(s.on_line(), LineAction::RotateThenWrite { next_chunk: 2 });
    assert_eq!(s.chunk_count(), 3);
}

#[test]
fn error_kinds_are_distinct_and_described() {
    let kinds = [
        SplitError::OpenFailed,
        SplitError::ReadFailed,
        SplitError::ChunkCreateFailed,
        SplitError::WriteFailed,
        SplitError::FlushFailed,
    ];
    for (i, a) in kinds.iter().enumerate() {
        for (j, b) in kinds.iter().enumerate() {
            assert_eq!(i == j, a == b);
        }
    }
    assert_eq!(SplitError::OpenFailed.describe(), "could not open the input file");
    assert_eq!(SplitError::ReadFailed.describe(), "could not read a line from the input");
    assert_eq!(SplitError::ChunkCreateFailed.describe(), "could not create an output chunk");
    assert_eq!(SplitError::WriteFailed.describe(), "could not write to the current chunk");
    assert_eq!(SplitError::FlushFailed.describe(), "could not flush a finished chunk");
}

#[test]
fn fresh_buffer_is_empty() {
    let b = new_buf();
    assert_eq!(b.as_str(), "");
    assert_eq!(b.len(), 0);
}
