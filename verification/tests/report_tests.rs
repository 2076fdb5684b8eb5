use pleco::report::dec_string;
use pleco::report::format_file_types;
use pleco::report::order_file_types;
use pleco::report::render_report;
use pleco::report::take_top;

fn pair(label: &str, count: usize) -> (String, usize) {
    (label.to_string(), count)
}

#[test]
fn test_order_file_types() {
    let file_types = vec![pair("txt", 5), pair("rs", 10), pair("py", 7)];

    let ordered_file_types = order_file_types(file_types);

    assert_eq!(
        ordered_file_types,
        vec![pair("rs", 10), pair("py", 7), pair("txt", 5),]
    );
}

#[test]
fn test_order_file_types_keeps_ties_stable() {
    let file_types = vec![
        pair("rs", 10),
        pair("py", 7),
        pair("txt", 5),
        pair("md", 3),
        pair("json", 1),
        pair("yaml", 1),
    ];

    let once = order_file_types(file_types.clone());
    let twice = order_file_types(file_types.clone());
    assert_eq!(once, twice);

    let top = take_top(&once, 5);
    assert_eq!(top.len(), 5);
    assert_eq!(top[0], pair("rs", 10));
    assert_eq!(top[1], pair("py", 7));
    assert_eq!(top[2], pair("txt", 5));
    assert_eq!(top[3], pair("md", 3));
    assert!(top[4] == pair("json", 1) || top[4] == pair("yaml", 1));
}

#[test]
fn test_take_top_short_input() {
    let file_types = vec![pair("rs", 2), pair("txt", 1)];
    let top = take_top(&file_types, 5);
    assert_eq!(top, file_types);
}

#[test]
fn test_dec_string() {
    assert_eq!(dec_string(0), "0".to_string());
    assert_eq!(dec_string(7), "7".to_string());
    assert_eq!(dec_string(10), "10".to_string());
    assert_eq!(dec_string(1234), "1234".to_string());
}

#[test]
fn test_format_file_types() {
    assert_eq!(
        format_file_types(vec![pair("rs", 10), pair("txt", 5)]),
        "rs\t10\ntxt\t5".to_string()
    );
    assert_eq!(format_file_types(Vec::new()), "".to_string());
    assert_eq!(format_file_types(vec![pair("x", 0)]), "x\t0".to_string());
}

#[test]
fn test_render_report_aligns_columns() {
    let rendered = render_report(vec![pair("rs", 10), pair("py", 7)]);
    assert_eq!(rendered, "rs  10\npy  7".to_string());
}

#[test]
fn test_render_report_pads_to_widest_label() {
    let rendered = render_report(vec![pair("json", 3), pair("rs", 12)]);
    assert_eq!(rendered, "json  3\nrs    12".to_string());
}
