use aush::structured::{object_columns, table_of_objects};
use aush::table::{Value, TableRenderer};

fn s(x: &str) -> String {
    x.to_string()
}

fn objects() -> Vec<Vec<(String, Value)>> {
    vec![
        vec![(s("name"), Value::String(s("a.txt"))), (s("size"), Value::Int(10))],
        vec![(s("size"), Value::Int(3)), (s("kind"), Value::String(s("dir")))],
        vec![(s("name"), Value::String(s("b"))), (s("ok"), Value::Bool(true))],
    ]
}

#[test]
fn columns_in_first_seen_order_each_once() {
    assert_eq!(object_columns(&objects()), vec![s("name"), s("size"), s("kind"), s("ok")]);
    assert_eq!(object_columns(&[]), Vec::<String>::new());
    assert_eq!(object_columns(&[vec![], vec![]]), Vec::<String>::new());
}

#[test]
fn objects_as_tab_separated_lines() {
    let t = table_of_objects(objects());
    assert_eq!(
        t.to_tsv(),
        "name\tsize\tkind\tok\na.txt\t10\t\t\n\t3\tdir\t\nb\t\t\ttrue\n"
    );
}

#[test]
fn objects_as_a_rendered_table() {
    let t = table_of_objects(vec![
        vec![(s("a"), Value::Int(1))],
        vec![(s("b"), Value::String(s("xy")))],
    ]);
    let out = TableRenderer::new().with_colors(false).render(&t);
    let lines: Vec<&str> = out.lines().collect();
    assert!(lines.len() >= 4);
    assert!(lines[0].contains('a') && lines[0].contains('b'));
    assert!(lines.iter().any(|l| l.contains("xy")));
}
