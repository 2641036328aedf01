use cargo_cache::tables::{format_2_row_table, format_table, two_row_table, TableLine};

#[test]
fn empty() {
    let v = vec![Vec::new()];
    let t = format_table(&v, 0);
    let output = String::from("\n");
    assert_eq!(t, output);
}

#[test]
fn one_cell() {
    let v = vec![vec!["hello".into()]];
    let t = format_table(&v, 0);
    let output = String::from("hello\n");
    assert_eq!(t, output);
}

#[test]
fn one_row() {
    let v = vec![vec![
        "hello".into(),
        "a".into(),
        "shrt".into(),
        "very long perhaps a few words".into(),
    ]];
    let t = format_table(&v, 0);
    let output = String::from("hello a shrt very long perhaps a few words\n");
    assert_eq!(t, output);
}

#[test]
fn one_column() {
    let v = vec![
        vec!["hello".into()],
        vec!["a".into()],
        vec!["shrt".into()],
        vec!["very long perhaps a few words".into()],
    ];
    let t = format_table(&v, 0);
    let output = String::from("hello\na\nshrt\nvery long perhaps a few words\n");
    assert_eq!(t, output);
}

#[test]
fn matrix() {
    let v = vec![
        vec![
            String::from("wasdwasdwasd"),
            String::from("word"),
            String::from("word"),
        ],
        vec![
            String::from("oh"),
            String::from("why"),
            String::from("this"),
        ],
        vec![
            String::from("AAAAAA"),
            String::new(),
            String::from("I don't get it"),
        ],
    ];
    let t = format_table(&v, 0);
    let output = String::from(
        "wasdwasdwasd word word\noh           why  this\nAAAAAA            I don\'t get it\n",
    );
    assert_eq!(t, output);
}

#[test]
fn format_table_with_padding() {
    let v = vec![vec![String::from("ab"), String::from("c")], vec![String::from("d"), String::from("ef")]];
    let t = format_table(&v, 2);
    assert_eq!(t, "ab   c\nd    ef\n");
}

#[test]
fn table_line_widens_byte_unit() {
    let l = TableLine::new(1, "left", "12 B");
    assert_eq!(l.indent_front, 1);
    assert_eq!(l.left_column, "left");
    assert_eq!(l.right_column, "12  B");
    let m = TableLine::new(0, "x", "1.20 KB");
    assert_eq!(m.right_column, "1.20 KB");
}

#[test]
fn two_row_table_heading_and_alignment() {
    let lines = vec![
        TableLine::new(0, "Heading:\n", ""),
        TableLine::new(0, "Total: ", "10 B"),
        TableLine::new(1, "longer left column: ", "1.00 KB"),
        TableLine::new(2, "x: ", "5 B"),
    ];
    let t = two_row_table(2, lines, false);
    let expected = "Heading:\nTotal:                      10  B\n  longer left column:     1.00 KB\n    x:                       5  B\n";
    assert_eq!(t, expected);
}

#[test]
fn format_2_row_table_aligns_all() {
    let lines = vec![TableLine::new(0, "a", "1"), TableLine::new(0, "bbb", "22")];
    let t = format_2_row_table(1, lines);
    assert_eq!(t, "a    1\nbbb 22\n");
}
