use k2p_matrix::text::{get_output_file_path, split_lines, to_single_lines, to_sv, Separator};

#[test]
fn separator_texts() {
    assert_eq!(Separator::Comma.to_string(), ",");
    assert_eq!(Separator::Semicolon.to_string(), ";");
    assert_eq!(Separator::Tab.to_string(), "\t");
}

#[test]
fn split_lines_strips_carriage_returns() {
    let lines = split_lines("a\r\nb\nc");
    assert_eq!(lines, vec!["a".to_string(), "b".to_string(), "c".to_string()]);
    let empty: Vec<String> = Vec::new();
    assert_eq!(split_lines(""), empty);
    assert_eq!(split_lines("x\n"), vec!["x".to_string()]);
}

#[test]
fn to_single_lines_folds_fragments() {
    let file = String::from(">h1\nAC\nGT\n>h2\nAA");
    let folded = to_single_lines(file);
    assert_eq!(
        folded,
        vec![
            ">h1".to_string(),
            "ACGT".to_string(),
            ">h2".to_string(),
            "AA".to_string(),
        ]
    );
}

#[test]
fn output_path_replaces_extension() {
    assert_eq!(get_output_file_path(&String::from("dir/file.fa")), "dir/file.csv");
    assert_eq!(get_output_file_path(&String::from("file.fasta")), "file.csv");
    assert_eq!(get_output_file_path(&String::from("file")), "file.csv");
    assert_eq!(get_output_file_path(&String::from("a/b/c.x.y")), "a/b/c.x.csv");
}

#[test]
fn to_sv_renders_header_labels_and_rows() {
    let cells = vec![
        vec!["0".to_string()],
        vec!["1.00".to_string(), "/".to_string()],
    ];
    let species = vec!["a".to_string(), "b".to_string(), "c".to_string()];
    let groups = vec![0usize, 0, 1];
    let out = to_sv(&cells, &species, &groups, Separator::Semicolon, 2);
    assert_eq!(out, ";a-b;c\na-b;0\nc;1.00;/");
}
