use zscore_calc::text::{chars_of, csv_fields, keep_parsed};

fn read_all(text: &str) -> Vec<f64> {
    keep_parsed(csv_fields(text).iter().map(|field| field.parse::<f64>().ok()).collect())
}

#[test]
fn fields_of_commas_and_line_breaks() {
    assert_eq!(csv_fields("1, 2,\n3"), vec!["1", "2", "", "3"]);
}

#[test]
fn series_of_commas_and_line_breaks() {
    assert_eq!(read_all("1, 2,\n3"), vec![1.0, 2.0, 3.0]);
}

#[test]
fn empty_text_is_one_empty_field() {
    assert_eq!(csv_fields(""), vec![""]);
    assert_eq!(read_all(""), Vec::<f64>::new());
}

#[test]
fn line_break_separates_like_a_comma() {
    assert_eq!(csv_fields("1\n2\n3"), vec!["1", "2", "3"]);
    assert_eq!(csv_fields("a\nb,c"), vec!["a", "b", "c"]);
}

#[test]
fn white_space_is_dropped_inside_fields() {
    assert_eq!(csv_fields(" 1 2 ,\t3\r\n 4"), vec!["12", "3", "4"]);
    assert_eq!(csv_fields("1\u{a0}0,\u{3000}7\u{2003}"), vec!["10", "7"]);
    assert_eq!(read_all("1 2, 3 . 5"), vec![12.0, 3.5]);
}

#[test]
fn other_characters_stay() {
    assert_eq!(csv_fields("a_b;c,-1.5e3,é"), vec!["a_b;c", "-1.5e3", "é"]);
}

#[test]
fn separators_at_the_ends_leave_empty_fields() {
    assert_eq!(csv_fields(",1,"), vec!["", "1", ""]);
    assert_eq!(csv_fields(",,"), vec!["", "", ""]);
    assert_eq!(csv_fields("\n"), vec!["", ""]);
}

#[test]
fn one_field_more_than_separators() {
    for text in ["", "1", "1,2", "1\n2,3\n", " , \n , ", "x,y\n\nz"] {
        let separators = text.chars().filter(|c| *c == ',' || *c == '\n').count();
        assert_eq!(csv_fields(text).len(), separators + 1);
    }
}

#[test]
fn fields_joined_give_the_cleaned_text() {
    let text = "3.5, 4\n x ,,9 \n";
    let fields = csv_fields(text);
    assert_eq!(fields.join(","), "3.5,4,x,,9,");
    assert!(fields.iter().all(|field| !field.contains(',')));
}

#[test]
fn unreadable_fields_are_passed_over() {
    assert_eq!(read_all("1,abc,2,,3x,4"), vec![1.0, 2.0, 4.0]);
    assert_eq!(read_all("abc,def\nghi"), Vec::<f64>::new());
}

#[test]
fn series_is_never_longer_than_the_fields() {
    for text in ["", "1,2,3", "1,,x,2", "a\nb\nc", "1e5,-2.5,.5,5.,+7"] {
        let fields = csv_fields(text);
        assert!(read_all(text).len() <= fields.len());
    }
    assert_eq!(read_all("1e5,-2.5,.5,5.,+7"), vec![100000.0, -2.5, 0.5, 5.0, 7.0]);
}

#[test]
fn special_values_are_read_as_numbers() {
    let series = read_all("inf,-inf,NaN,1");
    assert_eq!(series.len(), 4);
    assert_eq!(series[0], f64::INFINITY);
    assert_eq!(series[1], f64::NEG_INFINITY);
    assert!(series[2].is_nan());
    assert_eq!(series[3], 1.0);
}

#[test]
fn keep_parsed_keeps_order() {
    assert_eq!(keep_parsed(vec![Some(3), None, Some(1), Some(2), None]), vec![3, 1, 2]);
    assert_eq!(keep_parsed(vec![None::<u8>, None]), Vec::<u8>::new());
    assert_eq!(keep_parsed(Vec::<Option<u8>>::new()), Vec::<u8>::new());
    assert_eq!(keep_parsed(vec![Some("a"), Some("b")]), vec!["a", "b"]);
}

#[test]
fn chars_of_gives_each_character() {
    assert_eq!(chars_of("a,é\n"), vec!['a', ',', 'é', '\n']);
    assert_eq!(chars_of(""), Vec::<char>::new());
}
