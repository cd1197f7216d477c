use sweep_ingest::export::{export, export_rows};
use sweep_ingest::options::Options;
use sweep_ingest::raw::{raw, raw_rows};
use sweep_ingest::source::ExportError;
use sweep_ingest::table::DataFrame;

fn texts(items: &[&str]) -> Vec<String> {
    items.iter().map(|s| s.to_string()).collect()
}

fn number(cell: &str) -> f32 {
    cell.parse::<f32>().unwrap_or(0.0)
}

#[test]
fn export_rows_lays_names_first_then_rows() {
    let df = DataFrame {
        header: texts(&["a", "b", "c"]),
        dims: vec![texts(&["1", "2"]), texts(&["3", "4"]), texts(&["5", "6"])],
    };
    let records = export_rows(&df).unwrap();
    assert_eq!(
        records,
        vec![texts(&["a", "b", "c"]), texts(&["1", "3", "5"]), texts(&["2", "4", "6"])]
    );
}

#[test]
fn export_rows_of_empty_columns_is_the_names_alone() {
    let df = DataFrame { header: texts(&["a", "b"]), dims: vec![Vec::new(), Vec::new()] };
    assert_eq!(export_rows(&df).unwrap(), vec![texts(&["a", "b"])]);
}

#[test]
fn export_refuses_a_table_without_columns() {
    let df = DataFrame::new();
    assert!(matches!(export_rows(&df), Err(ExportError::NoColumns)));
    assert!(matches!(export(DataFrame::new()), Err(ExportError::NoColumns)));
}

#[test]
fn export_refuses_columns_of_unequal_length() {
    let df = DataFrame {
        header: texts(&["a", "b"]),
        dims: vec![texts(&["1", "2"]), texts(&["3"])],
    };
    assert!(matches!(export_rows(&df), Err(ExportError::Ragged)));
    let df = DataFrame {
        header: texts(&["a", "b"]),
        dims: vec![texts(&["1"]), texts(&["3", "4"])],
    };
    assert!(matches!(export(df), Err(ExportError::Ragged)));
}

#[test]
fn export_refuses_names_without_columns() {
    let df = DataFrame { header: texts(&["a", "b"]), dims: vec![texts(&["1"])] };
    assert!(matches!(export_rows(&df), Err(ExportError::Ragged)));
    let df = DataFrame { header: Vec::new(), dims: vec![texts(&["1"])] };
    assert!(matches!(export_rows(&df), Err(ExportError::Ragged)));
}

#[test]
fn export_writes_delimited_text() {
    let df = DataFrame {
        header: texts(&["a", "b"]),
        dims: vec![texts(&["1", "2"]), texts(&["3", "4"])],
    };
    assert_eq!(export(df).unwrap(), b"a,b\n1,3\n2,4\n".to_vec());
}

#[test]
fn export_quotes_a_field_that_holds_a_comma() {
    let df = DataFrame { header: texts(&["a,b", "c"]), dims: vec![texts(&["1"]), texts(&["x\"y"])] };
    assert_eq!(export(df).unwrap(), b"\"a,b\",c\n1,\"x\"\"y\"\n".to_vec());
}

#[test]
fn raw_then_export_keeps_header_and_values() {
    let header = texts(&["t", "v", "i"]);
    let rows = vec![texts(&["0", "1.5K", "2m"]), texts(&["1", "-2.5", "abc"])];
    let mut options = Options::new();
    let df = raw_rows(&header, &rows, &mut options).unwrap();
    let records = export_rows(&df).unwrap();
    assert_eq!(records.len(), 3);
    assert_eq!(records[0], header);
    assert_eq!(records[1], texts(&["0", "1.5e3", "2e-3"]));
    assert_eq!(records[2], texts(&["1", "-2.5", "abc"]));
    let values: Vec<Vec<f32>> =
        records[1..].iter().map(|r| r.iter().map(|c| number(c)).collect()).collect();
    assert_eq!(values, vec![vec![0.0, 1500.0, 0.002], vec![1.0, -2.5, 0.0]]);
}

#[test]
fn raw_then_export_of_one_column_keeps_it() {
    let header = texts(&["v"]);
    let rows = vec![texts(&["1K"]), texts(&["5x"])];
    let mut options = Options::new();
    let df = raw_rows(&header, &rows, &mut options).unwrap();
    let records = export_rows(&df).unwrap();
    assert_eq!(records, vec![texts(&["v"]), texts(&["1e3"]), texts(&["5e1"])]);
}

#[test]
fn raw_then_export_without_columns_is_refused() {
    let mut options = Options::new();
    let df = raw_rows(&Vec::new(), &Vec::new(), &mut options).unwrap();
    assert!(matches!(export_rows(&df), Err(ExportError::NoColumns)));
}

#[test]
fn raw_then_export_of_plain_numbers_gives_the_text_back() {
    let data = b"t,v\n0,1.5\n1,2.5\n";
    let mut options = Options::new();
    let df = raw(data, &mut options).unwrap();
    assert_eq!(export(df).unwrap(), data.to_vec());
}
