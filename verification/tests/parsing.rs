use record_tokenizer::data::{Entry, Options, Value};
use record_tokenizer::parsing::{parse_records, parse_string};

fn num(input: u32) -> Value {
    Value::Number(format!("{}", input))
}

fn chars(s: &str) -> Vec<char> {
    s.chars().collect()
}

fn records(output: &Entry) -> &[Entry] {
    output.from_list().unwrap()
}

fn record_fields(record: &Entry) -> &[Entry] {
    let inner = record.from_record().unwrap();
    assert_eq!(inner.len(), 1);
    inner[0].from_list().unwrap()
}

fn field_values(field: &Entry) -> &[Entry] {
    let inner = field.from_field().unwrap();
    assert_eq!(inner.len(), 1);
    inner[0].from_list().unwrap()
}

fn records_with_n_fields(output: &Entry, n: usize) -> Vec<&Entry> {
    records(output)
        .iter()
        .filter(|r| record_fields(r).len() == n)
        .collect()
}

fn assert_value(entry: &Entry, expected: &Value) {
    assert_eq!(entry, &Entry::Value(expected.clone()));
}

#[test]
fn parse_records_should_parse_multi_line_records_with_space() {
    let input = chars("1 2\n3 4\n\n\n5 6\n7 8");
    let options = Options::default()
        .multi_line_records()
        .field_dividers(&['\n'])
        .preserve_spacing(true);
    let output = parse_records(&input, &options).unwrap();

    let filled_records = records_with_n_fields(&output, 2);

    assert_eq!(filled_records.len(), 2);

    // Filled record 1
    let lines = record_fields(filled_records[0]);

    let values = field_values(&lines[0]);

    assert_eq!(values.len(), 3);
    assert_value(&values[0], &num(1));
    assert_value(&values[1], &Value::Space(' '));
    assert_value(&values[2], &num(2));

    let values = field_values(&lines[1]);

    assert_eq!(values.len(), 3);
    assert_value(&values[0], &num(3));
    assert_value(&values[1], &Value::Space(' '));
    assert_value(&values[2], &num(4));

    // Filled record 2
    let lines = record_fields(filled_records[1]);

    let values = field_values(&lines[0]);

    assert_eq!(values.len(), 3);
    assert_value(&values[0], &num(5));
    assert_value(&values[1], &Value::Space(' '));
    assert_value(&values[2], &num(6));

    let values = field_values(&lines[1]);

    assert_eq!(values.len(), 3);
    assert_value(&values[0], &num(7));
    assert_value(&values[1], &Value::Space(' '));
    assert_value(&values[2], &num(8));

    // Empty Record
    let empty_records = records_with_n_fields(&output, 0);
    assert_eq!(empty_records.len(), 1);
}

#[test]
fn parse_records_should_parse_multi_line_records_with_multi_blank_lines() {
    let input = chars("1 2\n3 4\n\n\n5 6\n7 8");
    let options = Options::default().multi_line_records().field_dividers(&['\n']);
    let output = parse_records(&input, &options).unwrap();

    let filled_records = records_with_n_fields(&output, 2);

    assert_eq!(filled_records.len(), 2);

    // Filled record 1
    let lines = record_fields(filled_records[0]);

    let values = field_values(&lines[0]);

    assert_eq!(values.len(), 2);
    assert_value(&values[0], &num(1));
    assert_value(&values[1], &num(2));

    let values = field_values(&lines[1]);

    assert_eq!(values.len(), 2);
    assert_value(&values[0], &num(3));
    assert_value(&values[1], &num(4));

    // Filled record 2
    let lines = record_fields(filled_records[1]);

    let values = field_values(&lines[0]);

    assert_eq!(values.len(), 2);
    assert_value(&values[0], &num(5));
    assert_value(&values[1], &num(6));

    let values = field_values(&lines[1]);

    assert_eq!(values.len(), 2);
    assert_value(&values[0], &num(7));
    assert_value(&values[1], &num(8));

    // Empty Record
    let empty_records = records_with_n_fields(&output, 0);
    assert_eq!(empty_records.len(), 1);
}

#[test]
fn parse_records_should_parse_multi_line_records_without_final_blank_line() {
    let input = chars("1 2\n3 4\n\n5 6\n7 8");
    let options = Options::default().multi_line_records().field_dividers(&['\n']);
    let output = parse_records(&input, &options).unwrap();

    let filled_records = records_with_n_fields(&output, 2);

    assert_eq!(filled_records.len(), 2);

    // Filled record 1
    let lines = record_fields(filled_records[0]);

    let values = field_values(&lines[0]);

    assert_eq!(values.len(), 2);
    assert_value(&values[0], &num(1));
    assert_value(&values[1], &num(2));

    let values = field_values(&lines[1]);

    assert_eq!(values.len(), 2);
    assert_value(&values[0], &num(3));
    assert_value(&values[1], &num(4));

    // Filled record 2
    let lines = record_fields(filled_records[1]);

    let values = field_values(&lines[0]);

    assert_eq!(values.len(), 2);
    assert_value(&values[0], &num(5));
    assert_value(&values[1], &num(6));

    let values = field_values(&lines[1]);

    assert_eq!(values.len(), 2);
    assert_value(&values[0], &num(7));
    assert_value(&values[1], &num(8));

    // Empty Record
    let empty_records = records_with_n_fields(&output, 0);
    assert_eq!(empty_records.len(), 0);
}

#[test]
fn parse_records_should_parse_multi_line_records() {
    let input = chars("1 2\n3 4\n\n5 6\n7 8\n\n");
    let options = Options::default().multi_line_records().field_dividers(&['\n']);
    let output = parse_records(&input, &options).unwrap();

    let filled_records = records_with_n_fields(&output, 2);

    assert_eq!(filled_records.len(), 2);

    // Filled record 1
    let lines = record_fields(filled_records[0]);

    let values = field_values(&lines[0]);

    assert_eq!(values.len(), 2);
    assert_value(&values[0], &num(1));
    assert_value(&values[1], &num(2));

    let values = field_values(&lines[1]);

    assert_eq!(values.len(), 2);
    assert_value(&values[0], &num(3));
    assert_value(&values[1], &num(4));

    // Filled record 2
    let lines = record_fields(filled_records[1]);

    let values = field_values(&lines[0]);

    assert_eq!(values.len(), 2);
    assert_value(&values[0], &num(5));
    assert_value(&values[1], &num(6));

    let values = field_values(&lines[1]);

    assert_eq!(values.len(), 2);
    assert_value(&values[0], &num(7));
    assert_value(&values[1], &num(8));

    // Empty Record
    let empty_records = records_with_n_fields(&output, 0);
    assert_eq!(empty_records.len(), 0);
}

#[test]
fn parse_records_should_parse_single_line_records() {
    let input = chars("1,2,3\n4,5,6");
    let options = Options::default().single_line_records();
    let output = parse_records(&input, &options).unwrap();

    let three_field_records = records_with_n_fields(&output, 3);

    assert_eq!(three_field_records.len(), 2);

    let fields = record_fields(three_field_records[0]);
    assert_eq!(field_values(&fields[0]), &[Entry::Value(num(1))]);
    assert_eq!(field_values(&fields[1]), &[Entry::Value(num(2))]);
    assert_eq!(field_values(&fields[2]), &[Entry::Value(num(3))]);

    let fields = record_fields(three_field_records[1]);
    assert_eq!(field_values(&fields[0]), &[Entry::Value(num(4))]);
    assert_eq!(field_values(&fields[1]), &[Entry::Value(num(5))]);
    assert_eq!(field_values(&fields[2]), &[Entry::Value(num(6))]);

    // Empty Record
    let empty_records = records_with_n_fields(&output, 0);
    assert_eq!(empty_records.len(), 0);
}

#[test]
fn parse_records_should_parse_single_line_records_with_blank_lines() {
    let input = chars("1,2,3\n\n4,5,6");
    let options = Options::default().single_line_records();
    let output = parse_records(&input, &options).unwrap();

    let three_field_records = records_with_n_fields(&output, 3);

    assert_eq!(three_field_records.len(), 2);

    let fields = record_fields(three_field_records[0]);
    assert_eq!(field_values(&fields[0]), &[Entry::Value(num(1))]);
    assert_eq!(field_values(&fields[1]), &[Entry::Value(num(2))]);
    assert_eq!(field_values(&fields[2]), &[Entry::Value(num(3))]);

    let fields = record_fields(three_field_records[1]);
    assert_eq!(field_values(&fields[0]), &[Entry::Value(num(4))]);
    assert_eq!(field_values(&fields[1]), &[Entry::Value(num(5))]);
    assert_eq!(field_values(&fields[2]), &[Entry::Value(num(6))]);

    // Empty Record
    let empty_records = records_with_n_fields(&output, 0);
    assert_eq!(empty_records.len(), 1);
}

#[test]
fn parse_string_should_parse_string() {
    let input = chars("'string another'");
    let (output, _) = parse_string(&input, 0, None, &['\'']).unwrap();
    assert_eq!(output, Entry::Value(Value::String("string another".into())));
}

#[test]
fn parse_string_should_escape() {
    let input = chars("'string \\\\ \\' another'");
    let (output, _) = parse_string(&input, 0, Some('\\'), &['\'']).unwrap();
    assert_eq!(output, Entry::Value(Value::String("string \\ ' another".into())));
}

#[test]
fn parse_should_should_drop_escape_for_other() {
    let input = chars("'string \\x another'");
    let (output, _) = parse_string(&input, 0, Some('\\'), &['\'']).unwrap();
    assert_eq!(output, Entry::Value(Value::String("string \\x another".into())));
}
