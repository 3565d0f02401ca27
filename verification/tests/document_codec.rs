use apicore::codec::{from_json, load_document, save_document};
use apicore::document::{Api, AppData, Collection, DocumentError, Header, Parameter,
    upsert_request_in_document};
use apicore::paths::{get_file_path, get_file_read};

fn bytes(s: &str) -> Vec<u8> {
    s.as_bytes().to_vec()
}

fn sample_api(id: &str, name: &str) -> Api {
    Api {
        id: bytes(id),
        name: bytes(name),
        method: bytes("GET"),
        url: bytes("https://example.test/one"),
        headers: vec![Header { key: bytes("Accept"), value: bytes("application/json") }],
        parameters: vec![Parameter {
            parameter_type: bytes("query"),
            key: bytes("page"),
            value: bytes("1"),
        }],
        body: bytes(""),
    }
}

fn sample_document() -> AppData {
    AppData {
        collections: vec![Collection {
            id: bytes("c1"),
            name: bytes("first"),
            apis: vec![sample_api("a1", "one"), sample_api("a2", "two")],
        }],
        apis: vec![sample_api("t1", "top")],
    }
}

#[test]
fn empty_document_renders_and_parses() {
    let d = AppData { collections: vec![], apis: vec![] };
    let out = save_document(&d);
    assert_eq!(out, bytes("{\"collections\":[],\"apis\":[]}"));
    let back = from_json(&out).expect("the empty document must parse");
    assert_eq!(back.collections.len(), 0);
    assert_eq!(back.apis.len(), 0);
}

#[test]
fn save_load_save_is_byte_identical() {
    let d = sample_document();
    let first = save_document(&d);
    let loaded = load_document(Some(&first)).expect("a saved document must load");
    let second = save_document(&loaded);
    assert_eq!(first, second);
    // and a further cycle stays stable
    let loaded2 = load_document(Some(&second)).expect("a saved document must load");
    assert_eq!(save_document(&loaded2), second);
}

#[test]
fn round_trip_preserves_every_field() {
    let d = sample_document();
    let back = from_json(&save_document(&d)).expect("a rendered document must parse");
    assert_eq!(back.collections.len(), 1);
    let c = &back.collections[0];
    assert_eq!(c.id, bytes("c1"));
    assert_eq!(c.name, bytes("first"));
    assert_eq!(c.apis.len(), 2);
    assert_eq!(c.apis[0].id, bytes("a1"));
    assert_eq!(c.apis[1].name, bytes("two"));
    assert_eq!(c.apis[0].headers[0].value, bytes("application/json"));
    assert_eq!(c.apis[0].parameters[0].parameter_type, bytes("query"));
    assert_eq!(back.apis.len(), 1);
    assert_eq!(back.apis[0].id, bytes("t1"));
}

#[test]
fn strings_with_quotes_and_backslashes_round_trip() {
    let mut d = sample_document();
    d.apis[0].name = bytes("a \"quoted\" name with \\ and \\\" inside");
    d.apis[0].body = bytes("{\"k\":\"v\"}");
    let out = save_document(&d);
    let back = from_json(&out).expect("escaped strings must parse");
    assert_eq!(back.apis[0].name, d.apis[0].name);
    assert_eq!(back.apis[0].body, d.apis[0].body);
    assert_eq!(save_document(&back), out);
}

#[test]
fn missing_file_loads_as_empty_document() {
    let d = load_document(None).expect("a missing file is not an error");
    assert_eq!(d.collections.len(), 0);
    assert_eq!(d.apis.len(), 0);
}

#[test]
fn malformed_bytes_fail_to_load() {
    assert!(matches!(
        load_document(Some(&bytes("not a document"))),
        Err(DocumentError::Malformed)
    ));
    assert!(matches!(
        load_document(Some(&bytes("{\"collections\":[]}"))),
        Err(DocumentError::Malformed)
    ));
    // trailing garbage is rejected too
    assert!(matches!(
        load_document(Some(&bytes("{\"collections\":[],\"apis\":[]}x"))),
        Err(DocumentError::Malformed)
    ));
}

#[test]
fn upsert_updates_only_the_matching_nested_entry() {
    let mut d = sample_document();
    let mut replacement = sample_api("a2", "two renamed");
    replacement.url = bytes("https://example.test/changed");
    let r = upsert_request_in_document(&mut d, replacement);
    assert_eq!(r, Ok(()));
    // only the matching entry changed
    assert_eq!(d.collections[0].apis[1].name, bytes("two renamed"));
    assert_eq!(d.collections[0].apis[1].url, bytes("https://example.test/changed"));
    // siblings, the collection's name, and the top-level list are untouched
    assert_eq!(d.collections[0].apis[0].name, bytes("one"));
    assert_eq!(d.collections[0].name, bytes("first"));
    assert_eq!(d.apis[0].name, bytes("top"));
}

#[test]
fn upsert_prefers_collections_over_top_level() {
    let mut d = sample_document();
    // the same id exists in the collection and at top level: the
    // collection entry wins
    d.apis.push(sample_api("a1", "top shadow"));
    let r = upsert_request_in_document(&mut d, sample_api("a1", "updated"));
    assert_eq!(r, Ok(()));
    assert_eq!(d.collections[0].apis[0].name, bytes("updated"));
    assert_eq!(d.apis[1].name, bytes("top shadow"));
}

#[test]
fn upsert_falls_back_to_top_level_list() {
    let mut d = sample_document();
    let r = upsert_request_in_document(&mut d, sample_api("t1", "top updated"));
    assert_eq!(r, Ok(()));
    assert_eq!(d.apis[0].name, bytes("top updated"));
    assert_eq!(d.collections[0].apis.len(), 2);
}

#[test]
fn upsert_with_absent_id_fails_and_leaves_document_unmodified() {
    let mut d = sample_document();
    let before = save_document(&d);
    let r = upsert_request_in_document(&mut d, sample_api("nope", "missing"));
    assert_eq!(r, Err(DocumentError::NotFound));
    assert_eq!(save_document(&d), before);
}

#[test]
fn persisted_file_location_is_fixed() {
    assert_eq!(get_file_path(), "dist");
    assert_eq!(get_file_read(), "dist/api.json");
}
