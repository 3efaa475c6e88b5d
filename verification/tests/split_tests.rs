use splitfile::split::split_lines;

fn lines(n: usize) -> Vec<String> {
    let mut v: Vec<String> = Vec::new();
    for i in 0..n {
        v.push(format!("line{}\n", i));
    }
    v
}

fn concat(chunks: &Vec<Vec<String>>) -> Vec<String> {
    let mut all: Vec<String> = Vec::new();
    for c in chunks {
        for l in c {
            all.push(l.clone());
        }
    }
    all
}

#[test]
fn twenty_five_lines_in_tens() {
    let input = lines(25);
    let chunks = split_lines(&input, 10, false);
    assert_eq!(chunks.len(), 3);
    assert_eq!(chunks[0].len(), 10);
    assert_eq!(chunks[1].len(), 10);
    assert_eq!(chunks[2].len(), 5);
    assert_eq!(concat(&chunks), input);
}

#[test]
fn twenty_one_lines_skip_first() {
    let input = lines(21);
    let chunks = split_lines(&input, 10, true);
    assert_eq!(chunks.len(), 2);
    assert_eq!(chunks[0].len(), 10);
    assert_eq!(chunks[1].len(), 10);
    assert_eq!(concat(&chunks), input[1..].to_vec());
    for c in &chunks {
        for l in c {
            assert_ne!(l, "line0\n");
        }
    }
}

#[test]
fn empty_input_gives_one_empty_chunk() {
    let input: Vec<String> = Vec::new();
    let chunks = split_lines(&input, 10, false);
    assert_eq!(chunks.len(), 1);
    assert_eq!(chunks[0].len(), 0);
}

#[test]
fn skip_of_single_line_gives_one_empty_chunk() {
    let input = lines(1);
    let chunks = split_lines(&input, 10, true);
    assert_eq!(chunks.len(), 1);
    assert_eq!(chunks[0].len(), 0);
}

#[test]
fn exact_multiple_leaves_no_empty_chunk() {
    let input = lines(20);
    let chunks = split_lines(&input, 10, false);
    assert_eq!(chunks.len(), 2);
    assert_eq!(chunks[0].len(), 10);
    assert_eq!(chunks[1].len(), 10);
    assert_eq!(concat(&chunks), input);
}

#[test]
fn one_line_per_chunk() {
    let input = lines(4);
    let chunks = split_lines(&input, 1, false);
    assert_eq!(chunks.len(), 4);
    for (i, c) in chunks.iter().enumerate() {
        assert_eq!(c.len(), 1);
        assert_eq!(c[0], format!("line{}\n", i));
    }
}

#[test]
fn partition_keeps_order_without_loss_or_duplication() {
    let input = lines(7);
    let chunks = split_lines(&input, 3, false);
    assert_eq!(chunks.len(), 3);
    assert_eq!(chunks[0].len(), 3);
    assert_eq!(chunks[1].len(), 3);
    assert_eq!(chunks[2].len(), 1);
    assert_eq!(concat(&chunks), input);
}

#[test]
fn rerun_is_identical() {
    let input = lines(13);
    let first = split_lines(&input, 5, true);
    let second = split_lines(&input, 5, true);
    assert_eq!(first, second);
}

#[test]
fn final_line_without_terminator_is_kept() {
    let mut input = lines(2);
    input.push(String::from("last line without newline"));
    let chunks = split_lines(&input, 2, false);
    assert_eq!(chunks.len(), 2);
    assert_eq!(chunks[1][0], "last line without newline");
    assert_eq!(concat(&chunks), input);
}
