use rsst::cli::get_collection;
use rsst::metadata::{parse, Collection, Metadata};
use rsst::util::Error;

fn meta(title: &str, checksum: &str) -> Metadata {
    Metadata {
        title: String::from(title),
        checksum: String::from(checksum),
    }
}

#[test]
fn metadata_parse_example() {
    let c = parse(
        r#"
        {
            "metadata": {
                "simple": {
                    "title": "hello, world",
                    "checksum": "42"
                }
            }
        }
        "#,
    )
    .unwrap();
    assert_eq!(
        c.get("simple"),
        Some(&Metadata {
            title: String::from("hello, world"),
            checksum: String::from("42")
        })
    );
}

#[test]
fn corrupt_store_yields_empty_collection() {
    let direct = parse("not valid json{{{");
    assert!(matches!(direct, Err(Error::ParseFailed)));
    let c = get_collection(parse("not valid json{{{")).unwrap();
    assert_eq!(c.len(), 0);
}

#[test]
fn missing_store_yields_empty_collection() {
    let c = get_collection(Err(Error::NotFound)).unwrap();
    assert_eq!(c.len(), 0);
}

#[test]
fn fatal_store_errors_propagate() {
    assert!(matches!(
        get_collection(Err(Error::DumpFailed)),
        Err(Error::DumpFailed)
    ));
    assert!(matches!(
        get_collection(Err(Error::NotSupported)),
        Err(Error::NotSupported)
    ));
}

#[test]
fn put_writes_exact_document() {
    let mut c = Collection::new();
    c.insert(String::from("simple"), meta("hello, world", "42"));
    let s = c.put().unwrap();
    assert_eq!(
        s,
        "{\"metadata\":{\"simple\":{\"title\":\"hello, world\",\"checksum\":\"42\"}}}"
    );
}

#[test]
fn empty_collection_round_trips() {
    let s = Collection::new().put().unwrap();
    assert_eq!(s, "{\"metadata\":{}}");
    let c = parse(&s).unwrap();
    assert_eq!(c.len(), 0);
}

#[test]
fn round_trip_preserves_entries_and_order() {
    let mut c = Collection::new();
    c.insert(String::from("b"), meta("he said \"hi\"", "42"));
    c.insert(String::from("a"), meta("back\\slash\nand\ttab", "caf\u{e9} \u{1F600}"));
    c.insert(String::from("ctrl"), meta("low\u{1}byte", ""));
    let s = c.put().unwrap();
    let back = parse(&s).unwrap();
    assert_eq!(back.len(), 3);
    assert_eq!(back.get("b").unwrap(), &meta("he said \"hi\"", "42"));
    assert_eq!(
        back.get("a").unwrap(),
        &meta("back\\slash\nand\ttab", "caf\u{e9} \u{1F600}")
    );
    assert_eq!(back.get("ctrl").unwrap(), &meta("low\u{1}byte", ""));
    // Parsing back and serializing again reproduces the document, order
    // included.
    assert_eq!(back.put().unwrap(), s);
}

#[test]
fn parse_accepts_whitespace_and_either_key_order() {
    let c = parse(
        " {\n\t\"metadata\" : { \"k\" : { \"checksum\" : \"c1\" , \"title\" : \"t1\" } } } \n",
    )
    .unwrap();
    assert_eq!(c.get("k").unwrap(), &meta("t1", "c1"));
}

#[test]
fn parse_decodes_escapes() {
    let c = parse(
        "{\"metadata\":{\"k\":{\"title\":\"\\u0041\\n\\t\\\"\\\\\\/\\b\\f\\r\",\"checksum\":\"\\uD83D\\uDE00\"}}}",
    )
    .unwrap();
    let m = c.get("k").unwrap();
    assert_eq!(m.title, "A\n\t\"\\/\u{8}\u{c}\r");
    assert_eq!(m.checksum, "\u{1F600}");
}

#[test]
fn duplicate_alias_keeps_the_later_entry() {
    let c = parse(
        "{\"metadata\":{\"a\":{\"title\":\"t1\",\"checksum\":\"c1\"},\"a\":{\"title\":\"t2\",\"checksum\":\"c2\"}}}",
    )
    .unwrap();
    assert_eq!(c.len(), 1);
    assert_eq!(c.get("a").unwrap(), &meta("t2", "c2"));
}

#[test]
fn parse_rejects_malformed_documents() {
    let bad = [
        "",
        "   ",
        "{}",
        "{\"metadata\":{}",
        "{\"metadata\":{}}x",
        "{\"meta\":{}}",
        "[]",
        "{\"metadata\":{\"k\":{\"title\":\"t\"}}}",
        "{\"metadata\":{\"k\":{\"title\":\"t\",\"extra\":\"e\"}}}",
        "{\"metadata\":{\"k\":{\"title\":\"t\",\"checksum\":1}}}",
        "{\"metadata\":{\"k\":{\"title\":\"t\",\"checksum\":\"c\",}}}",
        "{\"metadata\":{\"k\":{\"title\":\"\u{1}\",\"checksum\":\"c\"}}}",
        "{\"metadata\":{\"k\":{\"title\":\"\\uD800\",\"checksum\":\"c\"}}}",
        "{\"metadata\":{\"k\":{\"title\":\"\\x\",\"checksum\":\"c\"}}}",
        "{\"metadata\":{\"k\":{\"title\":\"unterminated,\"checksum\":\"c\"}}}",
    ];
    for s in bad {
        assert!(matches!(parse(s), Err(Error::ParseFailed)), "{}", s);
    }
}

#[test]
fn put_output_is_valid_json() {
    let mut c = Collection::new();
    c.insert(String::from("k"), meta("he said \"hi\"\n", "\u{1F600}"));
    let s = c.put().unwrap();
    let v: serde_json::Value = serde_json::from_str(&s).unwrap();
    assert_eq!(
        v["metadata"]["k"]["title"],
        serde_json::Value::String(String::from("he said \"hi\"\n"))
    );
    assert_eq!(
        v["metadata"]["k"]["checksum"],
        serde_json::Value::String(String::from("\u{1F600}"))
    );
}

#[test]
fn parse_reads_documents_serde_json_writes() {
    let mut inner = serde_json::Map::new();
    let mut entry = serde_json::Map::new();
    entry.insert(
        String::from("title"),
        serde_json::Value::String(String::from("a \"quoted\" title")),
    );
    entry.insert(
        String::from("checksum"),
        serde_json::Value::String(String::from("42")),
    );
    inner.insert(String::from("k"), serde_json::Value::Object(entry));
    let mut outer = serde_json::Map::new();
    outer.insert(String::from("metadata"), serde_json::Value::Object(inner));
    let doc = serde_json::to_string(&serde_json::Value::Object(outer)).unwrap();
    let c = parse(&doc).unwrap();
    assert_eq!(c.get("k").unwrap(), &meta("a \"quoted\" title", "42"));
}
