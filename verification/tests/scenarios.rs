use record_tokenizer::data::{Entry, Options, Value};
use record_tokenizer::parsing::parse_records;

fn chars(s: &str) -> Vec<char> {
    s.chars().collect()
}

fn records(output: &Entry) -> &[Entry] {
    output.from_list().unwrap()
}

fn record_fields(record: &Entry) -> &[Entry] {
    let inner = record.from_record().unwrap();
    assert_eq!(inner.len(), 1);
    inner[0].from_list().unwrap()
}

fn field_values(field: &Entry) -> &[Entry] {
    let inner = field.from_field().unwrap();
    assert_eq!(inner.len(), 1);
    inner[0].from_list().unwrap()
}

fn single_value(output: &Entry) -> &Value {
    let rs = records(output);
    assert_eq!(rs.len(), 1);
    let fs = record_fields(&rs[0]);
    assert_eq!(fs.len(), 1);
    let vs = field_values(&fs[0]);
    assert_eq!(vs.len(), 1);
    vs[0].from_value().unwrap()
}

#[test]
fn escaped_escape_resolves_to_one_escape() {
    let input = chars("'a\\\\b'");
    let options = Options::default().allow_strings_with_escape(&['\''], '\\');
    let output = parse_records(&input, &options).unwrap();
    assert_eq!(single_value(&output), &Value::String("a\\b".into()));
}

#[test]
fn meaningless_escape_is_preserved_verbatim() {
    let input = chars("'a\\xb'");
    let options = Options::default().allow_strings_with_escape(&['\''], '\\');
    let output = parse_records(&input, &options).unwrap();
    assert_eq!(single_value(&output), &Value::String("a\\xb".into()));
}

#[test]
fn escaped_quote_resolves_to_quote() {
    let input = chars("'a\\'b'");
    let options = Options::default().allow_strings_with_escape(&['\''], '\\');
    let output = parse_records(&input, &options).unwrap();
    assert_eq!(single_value(&output), &Value::String("a'b".into()));
}

#[test]
fn unterminated_string_fails_whole_scan() {
    let input = chars("'abc");
    let output = parse_records(&input, &Options::default());
    assert_eq!(output, Err("String encountered end of input".to_string()));
}

#[test]
fn plain_input_gives_one_record_one_field_of_runs() {
    let input = chars("12ab_c!34");
    let output = parse_records(&input, &Options::default()).unwrap();
    let rs = records(&output);
    assert_eq!(rs.len(), 1);
    let fs = record_fields(&rs[0]);
    assert_eq!(fs.len(), 1);
    let vs = field_values(&fs[0]);
    assert_eq!(
        vs,
        &[
            Entry::Value(Value::Number("12".into())),
            Entry::Value(Value::Symbol("ab_c".into())),
            Entry::Value(Value::Punct('!')),
            Entry::Value(Value::Number("34".into())),
        ]
    );
}

#[test]
fn value_text_round_trips_up_to_dividers() {
    let input = "1 a,b!\nc2";
    let options = Options::default().disallow_strings().preserve_spacing(true);
    let output = parse_records(&chars(input), &options).unwrap();
    let mut rebuilt = String::new();
    for record in records(&output) {
        for field in record_fields(record) {
            for value in field_values(field) {
                match value.from_value().unwrap() {
                    Value::String(s) => rebuilt.push_str(s),
                    Value::Symbol(s) => rebuilt.push_str(s),
                    Value::Number(s) => rebuilt.push_str(s),
                    Value::Space(c) => rebuilt.push(*c),
                    Value::Punct(c) => rebuilt.push(*c),
                }
            }
        }
    }
    let kept: String = input.chars().filter(|c| *c != ',' && *c != '\n').collect();
    assert_eq!(rebuilt, kept);
}

#[test]
fn repeated_scans_are_structurally_equal() {
    let input = chars("1,2,'a b'\n\nx_9 !");
    let options = Options::default();
    let first = parse_records(&input, &options).unwrap();
    let second = parse_records(&input, &options).unwrap();
    assert_eq!(first, second);
}

#[test]
fn adjacent_dividers_give_an_empty_field() {
    let input = chars("1,,2");
    let output = parse_records(&input, &Options::default()).unwrap();
    let rs = records(&output);
    assert_eq!(rs.len(), 1);
    let fs = record_fields(&rs[0]);
    assert_eq!(fs.len(), 3);
    assert_eq!(field_values(&fs[1]).len(), 0);
}

#[test]
fn empty_input_gives_no_records() {
    let input: Vec<char> = Vec::new();
    let output = parse_records(&input, &Options::default()).unwrap();
    assert_eq!(records(&output).len(), 0);
}

#[test]
fn disallowed_quotes_fall_through_to_punct() {
    let input = chars("'a");
    let options = Options::default().disallow_strings();
    let output = parse_records(&input, &options).unwrap();
    let rs = records(&output);
    let vs = field_values(&record_fields(&rs[0])[0]);
    assert_eq!(
        vs,
        &[
            Entry::Value(Value::Punct('\'')),
            Entry::Value(Value::Symbol("a".into())),
        ]
    );
}

#[test]
fn either_quote_character_closes_a_string() {
    let input = chars("'a\"");
    let output = parse_records(&input, &Options::default()).unwrap();
    assert_eq!(single_value(&output), &Value::String("a".into()));
}

#[test]
fn mismatched_entry_kind_gives_an_error() {
    let input = chars("1");
    let output = parse_records(&input, &Options::default()).unwrap();
    assert_eq!(
        output.from_record(),
        Err("Expected Entry::Record but found: Entry::List".to_string())
    );
    let rs = records(&output);
    assert_eq!(
        rs[0].from_value(),
        Err("Expected Entry::Value but found: Entry::Record".to_string())
    );
    assert_eq!(
        rs[0].from_field(),
        Err("Expected Entry::Field but found: Entry::Record".to_string())
    );
    assert_eq!(
        rs[0].from_list(),
        Err("Expected Entry::List but found: Entry::Record".to_string())
    );
}

#[test]
fn custom_endline_character_closes_records() {
    let input = chars("1;2");
    let options = Options::default().endline(';');
    let output = parse_records(&input, &options).unwrap();
    let rs = records(&output);
    assert_eq!(rs.len(), 2);
    assert_eq!(
        field_values(&record_fields(&rs[0])[0]),
        &[Entry::Value(Value::Number("1".into()))]
    );
    assert_eq!(
        field_values(&record_fields(&rs[1])[0]),
        &[Entry::Value(Value::Number("2".into()))]
    );
}

#[test]
fn whitespace_is_discarded_by_default() {
    let input = chars("1 2");
    let output = parse_records(&input, &Options::default()).unwrap();
    let vs = field_values(&record_fields(&records(&output)[0])[0]);
    assert_eq!(
        vs,
        &[
            Entry::Value(Value::Number("1".into())),
            Entry::Value(Value::Number("2".into())),
        ]
    );
}
