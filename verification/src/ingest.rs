//! Ingestion of one source: the caller names a layout, and the parser of that layout turns
//! the bytes of the source into a table.
use crate::options::Options;
use crate::raw::{raw, raw_ensures};
use crate::source::IngestError;
use crate::summary::{summary, summary_ensures};
use crate::table::DataFrame;
use crate::text::same;
use crate::wave::{wave, wave_ensures};
use vstd::prelude::*;

verus! {

/// The layouts that a source can have.
#[derive(Clone, Copy, Debug, PartialEq, Eq, Structural)]
pub enum Layout {
    Wave,
    Summary,
    Raw,
}

/// The layout that a selector names. Any selector but `wave` and `summary` names the raw
/// layout.
pub open spec fn layout_of(dtype: Seq<char>) -> Layout {
    if dtype == "wave"@ {
        Layout::Wave
    } else if dtype == "summary"@ {
        Layout::Summary
    } else {
        Layout::Raw
    }
}

/// What an ingestion under a layout gives: what the parser of that layout gives.
pub open spec fn ingest_ensures(
    layout: Layout,
    data: Seq<u8>,
    before: Map<Seq<char>, Seq<char>>,
    res: Result<DataFrame, IngestError>,
    after: Map<Seq<char>, Seq<char>>,
) -> bool {
    match layout {
        Layout::Wave => wave_ensures(data, before, res, after),
        Layout::Summary => summary_ensures(data, before, res, after),
        Layout::Raw => raw_ensures(data, before, res, after),
    }
}

/// Finds the layout that a selector names.
pub fn select(dtype: &str) -> (layout: Layout)
    ensures
        layout == layout_of(dtype@),
{
    if same(dtype, "wave") {
        Layout::Wave
    } else if same(dtype, "summary") {
        Layout::Summary
    } else {
        Layout::Raw
    }
}

/// Reads a source of the layout that the selector names.
pub fn ingest(dtype: &str, data: &[u8], options: &mut Options) -> (res: Result<
    DataFrame,
    IngestError,
>)
    ensures
        ingest_ensures(layout_of(dtype@), data@, old(options)@, res, final(options)@),
{
    match select(dtype) {
        Layout::Wave => wave(data, options),
        Layout::Summary => summary(data, options),
        Layout::Raw => raw(data, options),
    }
}

} // verus!
