use sweep_ingest::ingest::{ingest, select, Layout};
use sweep_ingest::options::Options;
use sweep_ingest::source::IngestError;

fn texts(items: &[&str]) -> Vec<String> {
    items.iter().map(|s| s.to_string()).collect()
}

#[test]
fn select_knows_the_three_layouts() {
    assert_eq!(select("wave"), Layout::Wave);
    assert_eq!(select("summary"), Layout::Summary);
    assert_eq!(select("raw"), Layout::Raw);
}

#[test]
fn select_takes_any_other_selector_as_raw() {
    assert_eq!(select(""), Layout::Raw);
    assert_eq!(select("Wave"), Layout::Raw);
    assert_eq!(select("wave "), Layout::Raw);
    assert_eq!(select("csv"), Layout::Raw);
}

#[test]
fn ingest_reads_the_same_text_under_each_layout() {
    let data = b"V(x) Y,I(y) (gain=1K)\n0.0,0.001\n";
    let mut options = Options::new();
    let df = ingest("wave", data, &mut options).unwrap();
    assert_eq!(df.header, texts(&["x", "I(y)", "gain"]));
    let mut options = Options::new();
    let df = ingest("raw", data, &mut options).unwrap();
    assert_eq!(df.header, texts(&["V(x) Y", "I(y) (gain=1K)"]));
    assert_eq!(df.dims, vec![texts(&["0.0"]), texts(&["0.001"])]);
    let mut options = Options::new();
    let df = ingest("other", data, &mut options).unwrap();
    assert_eq!(df.header, texts(&["V(x) Y", "I(y) (gain=1K)"]));
    let mut options = Options::new();
    assert!(matches!(ingest("summary", data, &mut options), Err(IngestError::MissingField)));
}
