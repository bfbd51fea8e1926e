use vsm_generator::content::front_matter::{
    extract_variables, get_element, get_element_bool, get_element_date, get_element_number,
    get_element_string, get_element_string_vec, reads_as_number, VariableValue,
};
use vsm_generator::content::{ContentResult, ErrorKind};

fn parse(text: &str) -> (Result<VariableValue, ErrorKind>, Vec<ErrorKind>) {
    let mut result = ContentResult::new();
    let value = VariableValue::from_str(text.as_bytes(), &mut result).map_err(|e| e.kind);
    assert!(result.errors().is_empty());
    (value, result.warnings().iter().map(|w| w.kind).collect())
}

fn text_of(value: &VariableValue) -> String {
    match value {
        VariableValue::String(s) => format!("String({})", String::from_utf8_lossy(s)),
        VariableValue::Bool(b) => format!("Bool({b})"),
        VariableValue::Number(n) => format!("Number({})", String::from_utf8_lossy(n)),
        VariableValue::Date(d) => format!("Date({d})"),
        VariableValue::Array(items) => {
            let parts: Vec<String> = items.iter().map(text_of).collect();
            format!("Array[{}]", parts.join(";"))
        }
    }
}

fn parsed(text: &str) -> String {
    text_of(&parse(text).0.unwrap())
}

#[test]
fn value_of_each_kind() {
    assert_eq!(parsed("\"hello world\""), "String(hello world)");
    assert_eq!(parsed("true"), "Bool(true)");
    assert_eq!(parsed("false"), "Bool(false)");
    assert_eq!(parsed("2.5"), "Number(2.5)");
    assert_eq!(parsed("[\"a\", \"b\"]"), "Array[String(a);String(b)]");
    assert_eq!(parsed("2024-03-01T12:30:00Z"), "Date(1709296200000000000)");
}

#[test]
fn value_is_trimmed() {
    assert_eq!(parsed("  \"  padded  \"  "), "String(padded)");
    assert_eq!(parsed("\ttrue\r"), "Bool(true)");
    assert_eq!(parsed(" 7 "), "Number(7)");
    assert_eq!(parsed(" [ 1 , true ] "), "Array[Number(1);Bool(true)]");
}

#[test]
fn date_takes_the_relaxed_forms() {
    let expected = "Date(1355314332000000000)";
    assert_eq!(parsed("2012-12-12T12:12:12Z"), expected);
    assert_eq!(parsed("2012-12-12 12:12:12Z"), expected);
    assert_eq!(parsed("2012-12-12 12:12:12+0000"), expected);
    assert_eq!(parsed("2012-12-12 13:12:12+01:00"), expected);
    assert_eq!(parsed("1969-12-31T23:59:59.5Z"), "Date(-500000000)");
}

#[test]
fn what_is_no_value_is_an_error() {
    assert_eq!(parse("yesterday").0.unwrap_err(), ErrorKind::InvalidTimestamp);
    assert_eq!(parse("").0.unwrap_err(), ErrorKind::InvalidTimestamp);
    assert_eq!(parse("True").0.unwrap_err(), ErrorKind::InvalidTimestamp);
    assert_eq!(parse("[]").0.unwrap_err(), ErrorKind::InvalidTimestamp);
    assert_eq!(parse("[1, nope]").0.unwrap_err(), ErrorKind::InvalidTimestamp);
    let mut result = ContentResult::new();
    let error = VariableValue::from_str(b" 12 o'clock ", &mut result).unwrap_err();
    assert_eq!(error.detail, b"12 o'clock".to_vec());
}

#[test]
fn unterminated_values_only_warn() {
    let (value, warnings) = parse("\"open string");
    assert_eq!(text_of(&value.unwrap()), "String(open strin)");
    assert_eq!(warnings, vec![ErrorKind::UnterminatedString]);
    let (value, warnings) = parse("[1, 22");
    assert_eq!(text_of(&value.unwrap()), "Array[Number(1);Number(2)]");
    assert_eq!(warnings, vec![ErrorKind::UnterminatedArray]);
    assert_eq!(parse("[1, 2").0.unwrap_err(), ErrorKind::InvalidTimestamp);
}

#[test]
fn single_bracket_and_single_quote() {
    let (value, warnings) = parse("\"");
    assert_eq!(text_of(&value.unwrap()), "String()");
    assert!(warnings.is_empty());
    assert_eq!(parse("[").0.unwrap_err(), ErrorKind::InvalidTimestamp);
}

#[test]
fn array_items_are_cut_at_every_comma() {
    let (value, warnings) = parse("[\"a, b\"]");
    assert_eq!(value.unwrap_err(), ErrorKind::InvalidTimestamp);
    assert_eq!(warnings, vec![ErrorKind::UnterminatedString]);
    assert_eq!(parsed("[\"a\",\"b\",true,1e3]"), "Array[String(a);String(b);Bool(true);Number(1e3)]");
    assert_eq!(parse("[1,]").0.unwrap_err(), ErrorKind::InvalidTimestamp);
    let (value, warnings) = parse("[\"x\", \"open]");
    assert_eq!(text_of(&value.unwrap()), "Array[String(x);String(ope)]");
    assert_eq!(warnings, vec![ErrorKind::UnterminatedString]);
}

#[test]
fn numbers_are_what_reads_as_a_float() {
    let samples = [
        "0", "1", "-1", "+1", "007", "1.", ".5", "1.5", "-.5", "+1.e3", "1e5", "1E5", "1e+5",
        "1e-5", "1.5e10", "inf", "-inf", "+inf", "INF", "Infinity", "infinity", "-INFINITY",
        "nan", "NaN", "+nan", "-nan", "", ".", "+", "-", "e5", "1e", "1e+", "1.5.2", "1 ", " 1",
        "1_000", "0x10", "1f", "in", "infinit", "infinityy", "nane", "--1", "+-1", "1e5.5",
        ".e5", "1..", "١٢٣", "1,5", "12:30", "2024-01-01", "1e5e5", "e", "E", ".E1", "5.e", "i",
        "n", "+.", "-.e1", "+e1", "1E-", "1E-0", "000.000", "9999999999999999999999999",
    ];
    for sample in samples {
        let expected = sample.parse::<f64>().is_ok();
        assert_eq!(reads_as_number(sample.as_bytes()), expected, "{:?}", sample);
    }
}

#[test]
fn front_matter_is_taken_off_the_file() {
    let mut file = b"---\ntitle: \"Hello\"\ndraft: false\n\nnot a pair\ntags: [\"a\", \"b\"]\n---\n# Body\n".to_vec();
    let mut result = ContentResult::new();
    let entries = extract_variables(&mut file, &mut result).unwrap();
    assert_eq!(String::from_utf8(file).unwrap(), "\n# Body\n");
    assert_eq!(entries.len(), 3);
    assert_eq!(entries[0].0, b"title".to_vec());
    assert_eq!(text_of(&entries[0].1), "String(Hello)");
    assert_eq!(entries[1].0, b"draft".to_vec());
    assert_eq!(text_of(&entries[2].1), "Array[String(a);String(b)]");
    assert!(result.warnings().is_empty());
}

#[test]
fn file_without_front_matter_stays_as_it_is() {
    for text in ["# Just a body\n", "--- only one delimiter\n", ""] {
        let mut file = text.as_bytes().to_vec();
        let mut result = ContentResult::new();
        let entries = extract_variables(&mut file, &mut result).unwrap();
        assert!(entries.is_empty());
        assert_eq!(file, text.as_bytes().to_vec());
    }
}

#[test]
fn front_matter_value_is_cut_at_the_first_colon() {
    let mut file = b"intro\n---\r\n  when : 2012-12-12T12:12:12Z\r\nurl: \"https://e.example\"\r\n---\r\nrest".to_vec();
    let mut result = ContentResult::new();
    let entries = extract_variables(&mut file, &mut result).unwrap();
    assert_eq!(String::from_utf8(file).unwrap(), "intro\n\r\nrest");
    assert_eq!(entries[0].0, b"when".to_vec());
    assert_eq!(text_of(&entries[0].1), "Date(1355314332000000000)");
    assert_eq!(text_of(&entries[1].1), "String(https://e.example)");
}

#[test]
fn front_matter_in_error_fails_and_keeps_the_file() {
    let text = "---\ntitle: \"ok\ndate: someday\nlater: true\n---\nbody";
    let mut file = text.as_bytes().to_vec();
    let mut result = ContentResult::new();
    let error = extract_variables(&mut file, &mut result).unwrap_err();
    assert_eq!(error.kind, ErrorKind::InvalidTimestamp);
    assert_eq!(error.detail, b"someday".to_vec());
    assert_eq!(file, text.as_bytes().to_vec());
    assert_eq!(result.warnings().len(), 1);
    assert_eq!(result.warnings()[0].kind, ErrorKind::UnterminatedString);
    assert!(result.errors().is_empty());
}

fn entries() -> Vec<(Vec<u8>, VariableValue)> {
    let mut file = b"---\ntitle: \"T\"\ncount: 3\nwhen: 1970-01-01T00:00:01Z\nflag: true\ntags: [\"x\", \"y\"]\nmixed: [\"x\", 1]\ntitle: \"Later\"\n---\n".to_vec();
    extract_variables(&mut file, &mut ContentResult::new()).unwrap()
}

#[test]
fn fields_are_read_by_type() {
    let entries = entries();
    assert_eq!(get_element_string(b"title", &entries).unwrap(), b"Later".to_vec());
    assert_eq!(get_element_number(b"count", &entries).unwrap(), b"3".to_vec());
    assert_eq!(get_element_date(b"when", &entries).unwrap(), 1_000_000_000);
    assert_eq!(get_element_bool(b"flag", &entries).unwrap(), true);
    assert_eq!(
        get_element_string_vec(b"tags", &entries).unwrap(),
        vec![b"x".to_vec(), b"y".to_vec()]
    );
    assert_eq!(text_of(get_element(b"flag", &entries).unwrap()), "Bool(true)");
}

#[test]
fn missing_and_mistyped_fields_are_errors() {
    let entries = entries();
    let error = get_element(b"absent", &entries).unwrap_err();
    assert_eq!(error.kind, ErrorKind::MissingField);
    assert_eq!(error.detail, b"absent".to_vec());
    assert_eq!(get_element_string(b"absent", &entries).unwrap_err().kind, ErrorKind::MissingField);
    assert_eq!(get_element_string(b"count", &entries).unwrap_err().kind, ErrorKind::WrongFieldType);
    assert_eq!(get_element_number(b"title", &entries).unwrap_err().kind, ErrorKind::WrongFieldType);
    assert_eq!(get_element_date(b"flag", &entries).unwrap_err().kind, ErrorKind::WrongFieldType);
    assert_eq!(get_element_bool(b"when", &entries).unwrap_err().kind, ErrorKind::WrongFieldType);
    assert_eq!(
        get_element_string_vec(b"mixed", &entries).unwrap_err().kind,
        ErrorKind::WrongFieldType
    );
    assert_eq!(
        get_element_string_vec(b"title", &entries).unwrap_err().kind,
        ErrorKind::WrongFieldType
    );
}
