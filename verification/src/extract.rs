//! Walking the parsed documentation tree: find each schema-definition
//! section, read its heading and its property-table rows, and fold them into
//! the schema map. The tree queries go through the `scraper` crate behind one
//! trusted extraction step; everything after it is verified.
//!
//! The extractor trusts the one known documentation layout: a missing
//! heading or cell is a structural failure, reported as `None` so that the
//! caller can abort, and no partial schema map is ever produced.

use crate::schema::PropertyRow;
use crate::schema::SchemaMap;
use crate::schema::SchemaSection;
use crate::schema::lemma_schema_map_names_unique;
use crate::schema::names_unique;
use crate::schema::parse_sections;
use crate::schema::schema_map_of_sections;
use scraper::Selector;
use vstd::prelude::*;

verus! {

#[verifier::external_type_specification]
#[verifier::external_body]
pub struct ExHtml(scraper::Html);

/// Whether the document conforms to the known layout: every schema section
/// after the definitions heading has a heading of its own, and every row of
/// its property table has a name cell and a type cell.
pub uninterp spec fn doc_conforms(d: scraper::Html) -> bool;

/// The schema sections a conforming document holds: for each section, its
/// heading text and its rows' (name cell text, type cell text) pairs, in the
/// order extraction yields them.
pub uninterp spec fn doc_sections(d: scraper::Html) -> Seq<
    (Seq<char>, Seq<(Seq<char>, Seq<char>)>),
>;

/// Relies on scraper::Selector::parse, scraper::Html::select,
/// scraper::ElementRef::select and scraper::ElementRef::text: select each
/// schema-definition section, its first heading, and its rows' first-cell
/// emphasized text and second-cell text. Extraction is a pure function of
/// the parsed document, named by `doc_conforms` and `doc_sections`: it
/// succeeds exactly on conforming documents, and a missing heading or cell
/// yields `None`, never a partial list.
#[verifier::external_body]
fn extract_sections(document: &scraper::Html) -> (r: Option<Vec<SchemaSection>>)
    ensures
        ((r is Some) <==> doc_conforms(*document)),
        (r matches Some(v) ==> v.deep_view() == doc_sections(*document)),
{
    let s0 = Selector::parse("#_definitions + .sectionbody > .sect2").ok()?;
    let s1 = Selector::parse("h3").ok()?;
    let s2 = Selector::parse("table > tbody > tr").ok()?;
    let s3 = Selector::parse("td:first-child strong").ok()?;
    let s4 = Selector::parse("td:first-child + td").ok()?;
    document.select(&s0).map(|s| Some(SchemaSection {
        name: s.select(&s1).next()?.text().collect(),
        rows: s.select(&s2).map(|r| Some(PropertyRow {
            name: r.select(&s3).next()?.text().collect(),
            raw_type: r.select(&s4).next()?.text().collect(),
        })).collect::<Option<_>>()?,
    })).collect()
}

/// Walk the parsed documentation page: each schema-definition section after
/// the definitions heading becomes one schema, named by the section's
/// heading, with one property per table row. Success comes exactly on
/// conforming documents, and the returned map is the fold of the document's
/// sections, so its names are unique and a duplicate collapses to the
/// last-seen value. `None` reports a structural failure — a section without
/// a heading, or a row without its name or type cell — and in that case no
/// partial result is produced.
pub fn parse_schemas(document: &scraper::Html) -> (r: Option<SchemaMap>)
    ensures
        ((r is Some) <==> doc_conforms(*document)),
        (r matches Some(m) ==> m@ == schema_map_of_sections(doc_sections(*document))),
        (r matches Some(m) ==> names_unique(m@)),
{
    match extract_sections(document) {
        Some(sections) => {
            let m = parse_sections(&sections);
            proof {
                lemma_schema_map_names_unique(sections.deep_view());
            }
            Some(m)
        },
        None => None,
    }
}

} // verus!
