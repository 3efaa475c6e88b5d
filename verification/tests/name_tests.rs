use splitfile::name::new_filename;

#[test]
fn extension_gets_index_before_it() {
    assert_eq!(new_filename(&String::from("data.csv"), 3), "data_3.csv");
}

#[test]
fn no_extension_gets_index_appended() {
    assert_eq!(new_filename(&String::from("data"), 3), "data_3");
}

#[test]
fn split_on_final_dot_only() {
    assert_eq!(new_filename(&String::from("a.b.csv"), 0), "a.b_0.csv");
}

#[test]
fn chunk_zero_named() {
    assert_eq!(new_filename(&String::from("data.csv"), 0), "data_0.csv");
}

#[test]
fn directory_prefix_kept() {
    assert_eq!(new_filename(&String::from("tests/test.csv"), 1), "tests/test_1.csv");
}

#[test]
fn dot_in_directory_does_not_count_as_extension() {
    assert_eq!(new_filename(&String::from("dir.d/file"), 2), "dir.d/file_2");
}

#[test]
fn leading_dot_is_the_separator() {
    assert_eq!(new_filename(&String::from(".bashrc"), 3), "_3.bashrc");
}

#[test]
fn multi_digit_index() {
    assert_eq!(new_filename(&String::from("x.y"), 1000), "x_1000.y");
    assert_eq!(new_filename(&String::from("x.y"), 4294967295), "x_4294967295.y");
}

#[test]
fn empty_name_still_gets_index() {
    assert_eq!(new_filename(&String::from(""), 7), "_7");
}
