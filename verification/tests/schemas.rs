use keycloak_openapi_transformer::parse_schema;
use keycloak_openapi_transformer::parse_schemas;
use keycloak_openapi_transformer::types::IntegerFormat;
use keycloak_openapi_transformer::types::NumberFormat;
use keycloak_openapi_transformer::types::SchemaType;
use keycloak_openapi_transformer::PropertyRow;
use keycloak_openapi_transformer::Schema;
use keycloak_openapi_transformer::SchemaMap;
use scraper::Html;

/// Build a documentation page in the generator's fixed layout: a definitions
/// heading, then one block per schema with its title and its property table.
fn document(sections: &[(&str, &[(&str, &str)])]) -> Html {
    let mut html =
        String::from("<html><body><h2 id=\"_definitions\">Definitions</h2><div class=\"sectionbody\">");
    for (name, rows) in sections {
        html.push_str("<div class=\"sect2\"><h3>");
        html.push_str(name);
        html.push_str("</h3><table><tbody>");
        for (property, raw_type) in rows.iter() {
            html.push_str("<tr><td><strong>");
            html.push_str(property);
            html.push_str("</strong></td><td>");
            html.push_str(raw_type);
            html.push_str("</td></tr>");
        }
        html.push_str("</tbody></table></div>");
    }
    html.push_str("</div></body></html>");
    Html::parse_document(&html)
}

fn parsed(sections: &[(&str, &[(&str, &str)])]) -> SchemaMap {
    parse_schemas(&document(sections)).expect("structurally valid document")
}

fn text(values: &[&str]) -> SchemaType {
    SchemaType::Text {
        enumeration: values.iter().map(|v| v.to_string()).collect(),
    }
}

fn assert_property(map: &SchemaMap, schema: &str, name: &str, expected: SchemaType) {
    let schema = map.get(schema).expect("schema should be present");
    assert_eq!(schema.get(name), Some(&expected));
}

#[test]
fn parses_string_only_schema_as_expected() {
    let map = parsed(&[("AccessToken-CertConf", &[("x5t#S256", "optional string")])]);
    assert_eq!(map.len(), 1);
    assert_property(&map, "AccessToken-CertConf", "x5t#S256", text(&[]));
}

#[test]
fn parses_int32_only_schema_as_expected() {
    let map = parsed(&[(
        "ClientInitialAccessCreatePresentation",
        &[("count", "integer(int32)"), ("expiration", "integer(int32)")],
    )]);
    let int32 = || SchemaType::Integer {
        format: IntegerFormat::Int32,
    };
    assert_property(&map, "ClientInitialAccessCreatePresentation", "count", int32());
    assert_property(&map, "ClientInitialAccessCreatePresentation", "expiration", int32());
}

#[test]
fn parses_schema_with_bool_as_expected() {
    let map = parsed(&[(
        "SynchronizationResult",
        &[("ignored", "boolean"), ("status", "optional string")],
    )]);
    assert_property(&map, "SynchronizationResult", "ignored", SchemaType::Boolean);
    assert_property(&map, "SynchronizationResult", "status", text(&[]));
}

#[test]
fn parses_schema_with_float_as_expected() {
    let map = parsed(&[(
        "MultivaluedHashMap",
        &[("loadFactor", "number(float)"), ("threshold", "integer(int32)")],
    )]);
    assert_property(&map, "MultivaluedHashMap", "loadFactor", SchemaType::Number {
            format: NumberFormat::Float
        });
}

#[test]
fn parses_schema_with_int64_as_expected() {
    let map = parsed(&[("MemoryInfoRepresentation", &[("free", "integer(int64)")])]);
    assert_property(&map, "MemoryInfoRepresentation", "free", SchemaType::Integer {
            format: IntegerFormat::Int64
        });
}

#[test]
fn parses_schema_only_map_as_expected() {
    let map = parsed(&[("SpiInfoRepresentation", &[("providers", "Map")])]);
    assert_property(&map, "SpiInfoRepresentation", "providers", SchemaType::Object);
}

#[test]
fn parses_schema_with_enum_as_expected() {
    let map = parsed(&[(
        "PolicyRepresentation",
        &[
            ("decisionStrategy", "enum (AFFIRMATIVE, UNANIMOUS, CONSENSUS)"),
            ("name", "optional string"),
        ],
    )]);
    assert_property(&map, "PolicyRepresentation", "decisionStrategy", text(&["AFFIRMATIVE", "UNANIMOUS", "CONSENSUS"]));
}

#[test]
fn parses_schema_with_object_as_expected() {
    let map = parsed(&[(
        "ConfigPropertyRepresentation",
        &[("defaultValue", "Object"), ("options", "&lt; string &gt; array")],
    )]);
    assert_property(&map, "ConfigPropertyRepresentation", "defaultValue", SchemaType::Object);
    assert_property(&map, "ConfigPropertyRepresentation", "options", SchemaType::Array {
            items: Box::new(text(&[]))
        });
}

#[test]
fn end_to_end_policy_enum_scenario() {
    let map = parsed(&[(
        "PolicyRepresentation",
        &[("logic", "enum (POSITIVE, NEGATIVE)")],
    )]);
    assert_property(&map, "PolicyRepresentation", "logic", text(&["POSITIVE", "NEGATIVE"]));
}

#[test]
fn missing_heading_is_a_structural_failure() {
    // One section carries no heading node at all: extraction must report the
    // failure instead of producing a degraded or partial schema map.
    let html = "<html><body><h2 id=\"_definitions\">Definitions</h2>\
                <div class=\"sectionbody\">\
                <div class=\"sect2\"><h3>Good</h3><table><tbody>\
                <tr><td><strong>a</strong></td><td>boolean</td></tr>\
                </tbody></table></div>\
                <div class=\"sect2\"><table><tbody>\
                <tr><td><strong>b</strong></td><td>boolean</td></tr>\
                </tbody></table></div>\
                </div></body></html>";
    assert!(parse_schemas(&Html::parse_document(html)).is_none());
}

#[test]
fn missing_name_cell_is_a_structural_failure() {
    let html = "<html><body><h2 id=\"_definitions\">Definitions</h2>\
                <div class=\"sectionbody\">\
                <div class=\"sect2\"><h3>Bad</h3><table><tbody>\
                <tr><td>unnamed</td><td>boolean</td></tr>\
                </tbody></table></div>\
                </div></body></html>";
    assert!(parse_schemas(&Html::parse_document(html)).is_none());
}

#[test]
fn missing_type_cell_is_a_structural_failure() {
    let html = "<html><body><h2 id=\"_definitions\">Definitions</h2>\
                <div class=\"sectionbody\">\
                <div class=\"sect2\"><h3>Bad</h3><table><tbody>\
                <tr><td><strong>a</strong></td></tr>\
                </tbody></table></div>\
                </div></body></html>";
    assert!(parse_schemas(&Html::parse_document(html)).is_none());
}

#[test]
fn document_without_definitions_heading_yields_empty_map() {
    let html = "<html><body><p>nothing here</p></body></html>";
    let map = parse_schemas(&Html::parse_document(html)).expect("no structural failure");
    assert_eq!(map.len(), 0);
}

#[test]
fn sections_keep_document_order() {
    let map = parsed(&[
        ("Beta", &[("b", "boolean")]),
        ("Alpha", &[("a", "boolean")]),
    ]);
    assert_eq!(map.len(), 2);
    assert_eq!(map.entries[0].0, "Beta");
    assert_eq!(map.entries[1].0, "Alpha");
}

#[test]
fn duplicate_section_name_collapses_to_last_seen() {
    let map = parsed(&[
        ("Dup", &[("first", "boolean")]),
        ("Other", &[("x", "Map")]),
        ("Dup", &[("second", "integer(int32)")]),
    ]);
    assert_eq!(map.len(), 2);
    // The duplicate keeps its first position but takes the last-seen schema.
    assert_eq!(map.entries[0].0, "Dup");
    let dup = map.get("Dup").expect("present");
    assert_eq!(dup.len(), 1);
    assert!(dup.get("first").is_none());
    assert_property(&map, "Dup", "second", SchemaType::Integer {
            format: IntegerFormat::Int32
        });
}

#[test]
fn duplicate_property_name_collapses_to_last_seen() {
    let rows = vec![
        PropertyRow {
            name: "p".to_string(),
            raw_type: "boolean".to_string(),
        },
        PropertyRow {
            name: "q".to_string(),
            raw_type: "Map".to_string(),
        },
        PropertyRow {
            name: "p".to_string(),
            raw_type: "integer(int64)".to_string(),
        },
    ];
    let schema: Schema = parse_schema(&rows);
    assert_eq!(schema.len(), 2);
    // The duplicate keeps its first position but takes the last-seen type.
    assert_eq!(schema.properties[0].0, "p");
    assert_eq!(
        schema.properties[0].1,
        SchemaType::Integer {
            format: IntegerFormat::Int64
        }
    );
    assert_eq!(schema.properties[1].0, "q");
}

#[test]
fn row_order_is_document_order() {
    let map = parsed(&[(
        "Ordered",
        &[("z", "boolean"), ("a", "Map"), ("m", "integer(int32)")],
    )]);
    let schema = map.get("Ordered").expect("present");
    assert_eq!(schema.properties[0].0, "z");
    assert_eq!(schema.properties[1].0, "a");
    assert_eq!(schema.properties[2].0, "m");
}

#[test]
fn text_extraction_feeds_the_resolver_verbatim() {
    // The enum values come out of the document text exactly as written; if
    // extraction altered the cell text, the split would differ.
    let map = parsed(&[("E", &[("v", "enum (A B, C  D)")])]);
    assert_property(&map, "E", "v", text(&["A B", "C  D"]));
}
