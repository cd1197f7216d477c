use sweep_ingest::options::Options;
use sweep_ingest::source::IngestError;
use sweep_ingest::wave::{dependent_name, settings_segment, wave, wave_rows};

fn texts(items: &[&str]) -> Vec<String> {
    items.iter().map(|s| s.to_string()).collect()
}

fn number(cell: &str) -> f32 {
    cell.parse::<f32>().unwrap_or(0.0)
}

#[test]
fn wave_builds_axis_and_setting_columns() {
    let header = texts(&["V(x) Y", "I(y) (gain=1K)"]);
    let rows = vec![texts(&["0.0", "0.001"])];
    let mut options = Options::new();
    let df = wave_rows(&header, &rows, &mut options).unwrap();
    assert_eq!(df.header.len(), 3);
    assert_eq!(df.header[0], "x");
    assert_eq!(df.header[1], options.retrieve("y".to_string()));
    assert_eq!(df.header[1], "I(y)");
    assert_eq!(df.header[2], "gain");
    assert_eq!(df.dims[0], texts(&["0.0"]));
    assert_eq!(df.dims[1], texts(&["0.001"]));
    assert_eq!(df.dims[2], texts(&["1e3"]));
    assert_eq!(number(&df.dims[0][0]), 0.0);
    assert_eq!(number(&df.dims[1][0]), 0.001);
    assert_eq!(number(&df.dims[2][0]), 1000.0);
}

#[test]
fn wave_reports_x_and_the_dependent_name_as_axes() {
    let header = texts(&["/out (gain=1) X", "/out (gain=1) Y"]);
    let mut options = Options::new();
    wave_rows(&header, &Vec::new(), &mut options).unwrap();
    assert_eq!(options.retrieve("x".to_string()), "x");
    assert_eq!(options.retrieve("y".to_string()), "/out");
}

#[test]
fn wave_reads_pairs_of_fields_under_their_settings() {
    let header = texts(&[
        "/out (gain=1K,temp=27) X",
        "/out (gain=1K,temp=27) Y",
        "/out (gain=2K,temp=27) X",
        "/out (gain=2K,temp=27) Y",
    ]);
    let rows = vec![texts(&["0", "1m", "0", "2m"]), texts(&["1", "3m", "1", "4m"])];
    let mut options = Options::new();
    let df = wave_rows(&header, &rows, &mut options).unwrap();
    assert_eq!(df.header, texts(&["x", "/out", "gain", "temp"]));
    assert_eq!(df.dims[0], texts(&["0", "0", "1", "1"]));
    assert_eq!(df.dims[1], texts(&["1e-3", "2e-3", "3e-3", "4e-3"]));
    assert_eq!(df.dims[2], texts(&["1e3", "2e3", "1e3", "2e3"]));
    assert_eq!(df.dims[3], texts(&["27", "27", "27", "27"]));
}

#[test]
fn wave_gives_each_value_to_the_column_of_its_key() {
    let header = texts(&["a (p=1,q=2) X", "a (p=1,q=2) Y", "a (q=3,p=4) X", "a (q=3,p=4) Y"]);
    let rows = vec![texts(&["0", "10", "0", "20"])];
    let mut options = Options::new();
    let df = wave_rows(&header, &rows, &mut options).unwrap();
    assert_eq!(df.header, texts(&["x", "a", "p", "q"]));
    assert_eq!(df.dims[2], texts(&["1", "4"]));
    assert_eq!(df.dims[3], texts(&["2", "3"]));
}

#[test]
fn wave_without_rows_gives_empty_columns() {
    let header = texts(&["V(x) Y", "I(y) (gain=1K)"]);
    let mut options = Options::new();
    let df = wave_rows(&header, &Vec::new(), &mut options).unwrap();
    assert_eq!(df.header, texts(&["x", "I(y)", "gain"]));
    assert!(df.dims.iter().all(|column| column.is_empty()));
}

#[test]
fn wave_with_a_dependent_variable_called_x_holds_one_axis_column() {
    let header = texts(&["x (k=1) X", "x (k=1) Y"]);
    let rows = vec![texts(&["1", "2"])];
    let mut options = Options::new();
    let df = wave_rows(&header, &rows, &mut options).unwrap();
    assert_eq!(df.header, texts(&["x", "k"]));
    assert_eq!(df.dims[0], texts(&["1", "2"]));
    assert_eq!(df.dims[1], texts(&["1"]));
    assert_eq!(options.retrieve("y".to_string()), "x");
}

#[test]
fn wave_needs_two_labels() {
    let mut options = Options::new();
    assert!(matches!(
        wave_rows(&Vec::new(), &Vec::new(), &mut options),
        Err(IngestError::MissingField)
    ));
    assert!(matches!(
        wave_rows(&texts(&["V(x) Y"]), &Vec::new(), &mut options),
        Err(IngestError::MissingField)
    ));
    assert_eq!(options.retrieve("x".to_string()), "None");
    assert_eq!(options.retrieve("y".to_string()), "None");
}

#[test]
fn wave_needs_a_space_in_the_first_two_labels() {
    let mut options = Options::new();
    let header = texts(&["V(x)Y", "I(y) (gain=1K)"]);
    assert!(matches!(
        wave_rows(&header, &Vec::new(), &mut options),
        Err(IngestError::MissingDelimiter)
    ));
    let header = texts(&["V(x) Y", "I(y)(gain=1K)"]);
    assert!(matches!(
        wave_rows(&header, &Vec::new(), &mut options),
        Err(IngestError::MissingDelimiter)
    ));
    assert_eq!(options.retrieve("x".to_string()), "None");
}

#[test]
fn wave_refuses_a_label_without_parentheses() {
    let mut options = Options::new();
    let header = texts(&["time Y", "out gain=1K"]);
    assert!(matches!(
        wave_rows(&header, &Vec::new(), &mut options),
        Err(IngestError::MissingDelimiter)
    ));
    let header = texts(&["time Y", "out (gain=1K"]);
    assert!(matches!(
        wave_rows(&header, &Vec::new(), &mut options),
        Err(IngestError::MissingDelimiter)
    ));
    let header = texts(&["time Y", "out gain=1K)"]);
    assert!(matches!(
        wave_rows(&header, &Vec::new(), &mut options),
        Err(IngestError::MissingDelimiter)
    ));
}

#[test]
fn wave_refuses_a_setting_without_equals_sign() {
    let mut options = Options::new();
    let header = texts(&["time Y", "out (gain)"]);
    assert!(matches!(
        wave_rows(&header, &Vec::new(), &mut options),
        Err(IngestError::MissingDelimiter)
    ));
    let header = texts(&["time Y", "out ()"]);
    assert!(matches!(
        wave_rows(&header, &Vec::new(), &mut options),
        Err(IngestError::MissingDelimiter)
    ));
    let header = texts(&["time Y", "out (a=1,)"]);
    assert!(matches!(
        wave_rows(&header, &Vec::new(), &mut options),
        Err(IngestError::MissingDelimiter)
    ));
}

#[test]
fn wave_keeps_the_axes_when_a_later_label_fails() {
    let mut options = Options::new();
    let header = texts(&["time Y", "out (gain)"]);
    assert!(wave_rows(&header, &Vec::new(), &mut options).is_err());
    assert_eq!(options.retrieve("x".to_string()), "x");
    assert_eq!(options.retrieve("y".to_string()), "out");
}

#[test]
fn wave_refuses_a_pair_without_settings() {
    let header = texts(&["V(x) Y", "I(y) (gain=1K)"]);
    let rows = vec![texts(&["0", "1", "2", "3"])];
    let mut options = Options::new();
    assert!(matches!(
        wave_rows(&header, &rows, &mut options),
        Err(IngestError::FieldCountMismatch)
    ));
}

#[test]
fn wave_takes_a_lone_even_field() {
    let header = texts(&["V(x) Y", "I(y) (gain=1K)"]);
    let rows = vec![texts(&["0", "1", "2"])];
    let mut options = Options::new();
    let df = wave_rows(&header, &rows, &mut options).unwrap();
    assert_eq!(df.dims[0], texts(&["0", "2"]));
    assert_eq!(df.dims[1], texts(&["1"]));
    assert_eq!(df.dims[2], texts(&["1e3"]));
}

#[test]
fn dependent_name_is_the_leading_token_of_the_second_label() {
    assert_eq!(dependent_name(&texts(&["a b", "c d e"])).unwrap(), "c");
    assert_eq!(dependent_name(&texts(&["a b", " d"])).unwrap(), "");
    assert!(matches!(dependent_name(&texts(&["a b"])), Err(IngestError::MissingField)));
    assert!(matches!(dependent_name(&texts(&["ab", "c d"])), Err(IngestError::MissingDelimiter)));
    assert!(matches!(dependent_name(&texts(&["a b", "cd"])), Err(IngestError::MissingDelimiter)));
}

#[test]
fn settings_segment_is_the_last_parenthesised_part() {
    assert_eq!(settings_segment("I(y) (gain=1K)"), Some("gain=1K".to_string()));
    assert_eq!(settings_segment("/out (a=1,b=2) X"), Some("a=1,b=2".to_string()));
    assert_eq!(settings_segment("f(a=1)(b=2) tail)"), Some("b=2".to_string()));
    assert_eq!(settings_segment("()"), Some(String::new()));
    assert_eq!(settings_segment("a)b(c"), None);
    assert_eq!(settings_segment("abc"), None);
    assert_eq!(settings_segment(""), None);
}

#[test]
fn wave_reads_delimited_text() {
    let data = b"V(x) Y,I(y) (gain=1K)\n0.0,0.001\n1.0,0.002\n";
    let mut options = Options::new();
    let df = wave(data, &mut options).unwrap();
    assert_eq!(df.header, texts(&["x", "I(y)", "gain"]));
    assert_eq!(df.dims[0], texts(&["0.0", "1.0"]));
    assert_eq!(df.dims[1], texts(&["0.001", "0.002"]));
    assert_eq!(df.dims[2], texts(&["1e3", "1e3"]));
    assert_eq!(options.retrieve("y".to_string()), "I(y)");
}

#[test]
fn wave_reads_quoted_labels_with_several_settings() {
    let data = b"\"n (a=1,b=2) X\",\"n (a=1,b=2) Y\"\n5,6\n";
    let mut options = Options::new();
    let df = wave(data, &mut options).unwrap();
    assert_eq!(df.header, texts(&["x", "n", "a", "b"]));
    assert_eq!(df.dims, vec![texts(&["5"]), texts(&["6"]), texts(&["1"]), texts(&["2"])]);
}

#[test]
fn wave_reports_a_source_error_and_leaves_the_settings() {
    let data = b"V(x) Y,I(y) (gain=1K)\n0.0\n";
    let mut options = Options::new();
    assert!(matches!(wave(data, &mut options), Err(IngestError::Source(_))));
    assert_eq!(options.retrieve("x".to_string()), "None");
}
