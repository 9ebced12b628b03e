use ingest::coerce::{
    bool_true, int_or_bool_i32, parse_bool, parse_opt_u32, parse_u32, recipes_aspects, u32_100,
    CoerceError, StringMapOrArray, StringOrI32, StringOrStringArray, StringOrStruct,
};
use ingest::config::{
    CompiledGlob, Config, ConfigError, ResolvedSourceFormat, ResolvedSourceGlob, SourceFileConfig,
    SourceFormat, SourceGlob,
};
use ingest::data::{decode_xt_entry, encode_xt_entry, DataError, ElementsXTriggers, RecipesMutations};
use ingest::files::{has_root, strip_root, DirTree};
use ingest::json::{parse_json, JsonValue, ParseError};
use ingest::reader::{lookup_encoding, sniff_bom, Bom, ReadError, Reader};

fn chars(s: &str) -> Vec<char> {
    s.chars().collect()
}

fn parse(s: &str, allow: bool) -> Result<JsonValue, ParseError> {
    parse_json(&chars(s), allow)
}

fn obj(fields: Vec<(&str, JsonValue)>) -> JsonValue {
    JsonValue::Obj(fields.into_iter().map(|(k, v)| (k.to_string(), v)).collect())
}

fn s(v: &str) -> JsonValue {
    JsonValue::Str(v.to_string())
}

fn minimal_source(root: &str) -> SourceFileConfig {
    SourceFileConfig {
        root: root.to_string(),
        follow_links: None,
        max_depth: None,
        glob: None,
        format: None,
        files: None,
        exclude: None,
    }
}

fn baseline_format() -> ResolvedSourceFormat {
    ResolvedSourceFormat { autodetect: true, encoding: None, allow_trailing_comma: true }
}

// --- parser ---

#[test]
fn parses_scalars() {
    assert_eq!(parse("null", false), Ok(JsonValue::Null));
    assert_eq!(parse(" true ", false), Ok(JsonValue::Bool(true)));
    assert_eq!(parse("false", false), Ok(JsonValue::Bool(false)));
    assert_eq!(parse("42", false), Ok(JsonValue::Int(42)));
    assert_eq!(parse("-7", false), Ok(JsonValue::Int(-7)));
    assert_eq!(parse("\"hi\"", false), Ok(s("hi")));
}

#[test]
fn parses_number_edges() {
    assert_eq!(parse("0", false), Ok(JsonValue::Int(0)));
    assert_eq!(parse("-0", false), Ok(JsonValue::Int(0)));
    assert_eq!(
        parse("9223372036854775807", false),
        Ok(JsonValue::Int(i64::MAX))
    );
    assert_eq!(
        parse("-9223372036854775808", false),
        Ok(JsonValue::Int(i64::MIN))
    );
    // One past the widest integer keeps its lexeme instead of overflowing.
    assert_eq!(
        parse("9223372036854775808", false),
        Ok(JsonValue::Num("9223372036854775808".to_string()))
    );
    assert_eq!(parse("1.5", false), Ok(JsonValue::Num("1.5".to_string())));
    assert_eq!(parse("1e3", false), Ok(JsonValue::Num("1e3".to_string())));
    assert_eq!(
        parse("-2.5E-1", false),
        Ok(JsonValue::Num("-2.5E-1".to_string()))
    );
    assert_eq!(parse("01", false), Err(ParseError::TrailingData));
    assert_eq!(parse("1.", false), Err(ParseError::Syntax));
    assert_eq!(parse("--1", false), Err(ParseError::Syntax));
}

#[test]
fn parses_strings_and_escapes() {
    assert_eq!(parse("\"a\\nb\"", false), Ok(s("a\nb")));
    assert_eq!(parse("\"q\\\"q\"", false), Ok(s("q\"q")));
    assert_eq!(parse("\"\\u0041\"", false), Ok(s("A")));
    assert_eq!(parse("\"\\uD83D\\uDE00\"", false), Ok(s("\u{1F600}")));
    assert_eq!(parse("\"\\uD83D\"", false), Err(ParseError::Syntax));
    assert_eq!(parse("\"unterminated", false), Err(ParseError::Syntax));
}

#[test]
fn parses_collections() {
    assert_eq!(
        parse("[1, 2]", false),
        Ok(JsonValue::Arr(vec![JsonValue::Int(1), JsonValue::Int(2)]))
    );
    assert_eq!(parse("[]", false), Ok(JsonValue::Arr(vec![])));
    assert_eq!(parse("{}", false), Ok(obj(vec![])));
    assert_eq!(
        parse("{\"a\": 1}", false),
        Ok(obj(vec![("a", JsonValue::Int(1))]))
    );
    assert_eq!(
        parse("{\"a\": {\"b\": [true]}}", false),
        Ok(obj(vec![("a", obj(vec![("b", JsonValue::Arr(vec![JsonValue::Bool(true)]))]))]))
    );
}

#[test]
fn trailing_comma_tolerance() {
    assert_eq!(
        parse("{\"a\":1,}", true),
        Ok(obj(vec![("a", JsonValue::Int(1))]))
    );
    assert_eq!(parse("{\"a\":1,}", false), Err(ParseError::Syntax));
    assert_eq!(
        parse("[1,2,]", true),
        Ok(JsonValue::Arr(vec![JsonValue::Int(1), JsonValue::Int(2)]))
    );
    assert_eq!(parse("[1,2,]", false), Err(ParseError::Syntax));
    assert_eq!(parse("[,]", true), Err(ParseError::Syntax));
    assert_eq!(parse("[1,,2]", true), Err(ParseError::Syntax));
}

#[test]
fn trailing_data_is_its_own_error() {
    assert_eq!(parse("{} {}", false), Err(ParseError::TrailingData));
    assert_eq!(parse("1 2", true), Err(ParseError::TrailingData));
    assert_eq!(parse("  ", false), Err(ParseError::Syntax));
}

#[test]
fn serializer_writes_canonical_text() {
    let v = parse("{ \"a\" : [ 1 , \"x\\n\" , null ] , \"n\" : 1.25 }", false).unwrap();
    assert_eq!(v.to_text(), "{\"a\":[1,\"x\\n\",null],\"n\":1.25}");
    assert_eq!(JsonValue::Int(-12).to_text(), "-12");
    assert_eq!(JsonValue::Int(0).to_text(), "0");
    assert_eq!(s("\u{8}\u{1f}").to_text(), "\"\\b\\u001f\"");
}

// --- coercion primitives ---

#[test]
fn defaults_are_fixed() {
    assert!(bool_true());
    assert_eq!(u32_100(), 100);
}

#[test]
fn bool_like_accepts_three_shapes() {
    assert_eq!(parse_bool(&JsonValue::Bool(true)), Ok(true));
    assert_eq!(parse_bool(&s("true")), Ok(true));
    assert_eq!(parse_bool(&s("false")), Ok(false));
    assert_eq!(parse_bool(&JsonValue::Null), Ok(false));
    assert_eq!(parse_bool(&s("maybe")), Err(CoerceError::Unparsable));
    assert_eq!(parse_bool(&JsonValue::Int(1)), Err(CoerceError::WrongShape));
}

#[test]
fn int_or_bool_coerces_to_zero_or_one() {
    assert_eq!(int_or_bool_i32(&JsonValue::Int(5)), Ok(5));
    assert_eq!(int_or_bool_i32(&JsonValue::Int(-5)), Ok(-5));
    assert_eq!(int_or_bool_i32(&JsonValue::Bool(true)), Ok(1));
    assert_eq!(int_or_bool_i32(&JsonValue::Bool(false)), Ok(0));
    assert_eq!(
        int_or_bool_i32(&JsonValue::Int(0x8000_0000)),
        Err(CoerceError::OutOfRange)
    );
    assert_eq!(int_or_bool_i32(&s("1")), Err(CoerceError::WrongShape));
}

#[test]
fn parsed_number_u32() {
    assert_eq!(parse_u32(&JsonValue::Int(7)), Ok(7));
    assert_eq!(parse_u32(&s("12")), Ok(12));
    assert_eq!(parse_u32(&s("+12")), Ok(12));
    assert_eq!(parse_u32(&s("007")), Ok(7));
    assert_eq!(parse_u32(&s("4294967295")), Ok(u32::MAX));
    assert_eq!(parse_u32(&s("4294967296")), Err(CoerceError::Unparsable));
    assert_eq!(parse_u32(&s("-1")), Err(CoerceError::Unparsable));
    assert_eq!(parse_u32(&s("")), Err(CoerceError::Unparsable));
    assert_eq!(parse_u32(&s("abc")), Err(CoerceError::Unparsable));
    assert_eq!(
        parse_u32(&JsonValue::Int(0x1_0000_0000)),
        Err(CoerceError::OutOfRange)
    );
    assert_eq!(parse_u32(&JsonValue::Int(-1)), Err(CoerceError::WrongShape));
    assert_eq!(parse_opt_u32(&JsonValue::Null), Ok(None));
    assert_eq!(parse_opt_u32(&JsonValue::Int(3)), Ok(Some(3)));
}

#[test]
fn string_or_i32_keeps_which_was_given() {
    assert_eq!(StringOrI32::decode(&s("lantern")), Ok(StringOrI32::Str("lantern".to_string())));
    assert_eq!(StringOrI32::decode(&JsonValue::Int(-3)), Ok(StringOrI32::I32(-3)));
    assert_eq!(
        StringOrI32::decode(&JsonValue::Int(0x8000_0000)),
        Err(CoerceError::OutOfRange)
    );
    assert_eq!(
        StringOrI32::decode(&JsonValue::Bool(true)),
        Err(CoerceError::WrongShape)
    );
    assert_eq!(StringOrI32::Str("x".to_string()).to_json(), s("x"));
    assert_eq!(StringOrI32::I32(9).to_json(), JsonValue::Int(9));
}

#[test]
fn string_or_string_array_decodes_both_shapes() {
    assert_eq!(
        StringOrStringArray::decode(&s("one")),
        Ok(StringOrStringArray::Str("one".to_string()))
    );
    let arr = JsonValue::Arr(vec![s("a"), s("b")]);
    assert_eq!(
        StringOrStringArray::decode(&arr),
        Ok(StringOrStringArray::Arr(vec!["a".to_string(), "b".to_string()]))
    );
    let bad = JsonValue::Arr(vec![s("a"), JsonValue::Int(1)]);
    assert_eq!(StringOrStringArray::decode(&bad), Err(CoerceError::WrongShape));
    assert_eq!(
        StringOrStringArray::Arr(vec!["a".to_string()]).to_json(),
        JsonValue::Arr(vec![s("a")])
    );
}

#[test]
fn recipes_aspects_coerces_booleans_in_maps() {
    let v = obj(vec![("edge", JsonValue::Int(2)), ("grail", JsonValue::Bool(true))]);
    let pairs = recipes_aspects(&v).unwrap().unwrap();
    assert_eq!(pairs, vec![("edge".to_string(), 2), ("grail".to_string(), 1)]);
    assert_eq!(recipes_aspects(&JsonValue::Null), Ok(None));
    assert_eq!(
        recipes_aspects(&obj(vec![("x", s("no"))])),
        Err(CoerceError::WrongShape)
    );
    assert_eq!(recipes_aspects(&s("x")), Err(CoerceError::WrongShape));
}

// --- config resolution ---

#[test]
fn minimal_spec_resolves_to_defaults() {
    let config = Config { source: Some(vec![minimal_source("/")]) };
    let resolved = config.resolve().unwrap();
    assert_eq!(resolved.source.len(), 1);
    let src = &resolved.source[0];
    assert!(!src.follow_links);
    assert_eq!(src.max_depth, usize::MAX);
    match &src.glob {
        ResolvedSourceGlob::Glob(g) => assert_eq!(g.pattern().as_str(), "*/*.json"),
        ResolvedSourceGlob::Disabled => panic!("default glob must be enabled"),
    }
    assert_eq!(src.format, baseline_format());
    assert!(src.files.is_empty());
    assert!(src.exclude.is_empty());
}

#[test]
fn no_sources_resolve_to_none() {
    let resolved = Config { source: None }.resolve().unwrap();
    assert!(resolved.source.is_empty());
}

#[test]
fn root_is_canonicalized() {
    let config = Config { source: Some(vec![minimal_source(".")]) };
    let resolved = config.resolve().unwrap();
    assert!(resolved.source[0].root.starts_with('/'));
}

#[test]
fn missing_root_is_invalid() {
    let mut src = minimal_source("/definitely/not/a/real/path/here");
    src.glob = Some(SourceGlob::Enable(true));
    let e = Config { source: Some(vec![src]) }.resolve().unwrap_err();
    assert_eq!(
        e,
        ConfigError::InvalidRoot("/definitely/not/a/real/path/here".to_string())
    );
}

#[test]
fn malformed_glob_is_invalid() {
    let mut src = minimal_source("/");
    src.glob = Some(SourceGlob::Glob("a{b".to_string()));
    match (Config { source: Some(vec![src]) }).resolve() {
        Err(ConfigError::InvalidGlob(p, _)) => assert_eq!(p, "a{b"),
        other => panic!("expected an invalid glob, got {:?}", other),
    }
}

#[test]
fn overlong_glob_pattern_is_invalid() {
    // A pattern may parse and still be refused: beyond the length bound the
    // resolver never hands it to the compiler, whose own failure on huge
    // compiled forms is an abort rather than an error.
    let long = "a".repeat(5000);
    let mut src = minimal_source("/");
    src.glob = Some(SourceGlob::Glob(long.clone()));
    match (Config { source: Some(vec![src]) }).resolve() {
        Err(ConfigError::InvalidGlob(p, _)) => assert_eq!(p, long),
        other => panic!("expected an invalid glob, got {:?}", other),
    }
    assert!(matches!(
        ResolvedSourceGlob::decode(&s(&long)),
        Err(ConfigError::InvalidGlob(_, _))
    ));
    // At the bound itself the pattern still compiles.
    let at_bound = "a".repeat(4096);
    let mut src2 = minimal_source("/");
    src2.glob = Some(SourceGlob::Glob(at_bound));
    assert!((Config { source: Some(vec![src2]) }).resolve().is_ok());
}

#[test]
fn unknown_encoding_is_invalid() {
    let mut src = minimal_source("/");
    src.format = Some(SourceFormat {
        autodetect: None,
        encoding: Some("martian-5".to_string()),
        allow_trailing_comma: None,
    });
    let e = (Config { source: Some(vec![src]) }).resolve().unwrap_err();
    assert_eq!(e, ConfigError::InvalidEncoding("martian-5".to_string()));
}

#[test]
fn encoding_labels_resolve_to_canonical_names() {
    assert_eq!(lookup_encoding("utf-8"), Some("UTF-8".to_string()));
    assert_eq!(lookup_encoding("latin1"), Some("windows-1252".to_string()));
    assert_eq!(lookup_encoding("no-such-charset"), None);
    let resolved = SourceFormat::resolve(Some(SourceFormat {
        autodetect: Some(false),
        encoding: Some("utf-8".to_string()),
        allow_trailing_comma: Some(false),
    }))
    .unwrap();
    assert_eq!(resolved.encoding, Some("UTF-8".to_string()));
    assert!(!resolved.autodetect);
    assert!(!resolved.allow_trailing_comma);
}

#[test]
fn glob_key_accepts_string_or_switch() {
    assert!(matches!(
        SourceGlob::decode(&s("*.json")),
        Ok(SourceGlob::Glob(p)) if p == "*.json"
    ));
    assert!(matches!(
        SourceGlob::decode(&JsonValue::Bool(false)),
        Ok(SourceGlob::Enable(false))
    ));
    assert!(matches!(
        SourceGlob::decode(&JsonValue::Int(1)),
        Err(CoerceError::WrongShape)
    ));
}

#[test]
fn resolved_glob_serializes_to_pattern_or_false() {
    let g = CompiledGlob::compile("*.json").unwrap();
    assert_eq!(ResolvedSourceGlob::Glob(g).to_json(), s("*.json"));
    assert_eq!(ResolvedSourceGlob::Disabled.to_json(), JsonValue::Bool(false));
    assert!(matches!(
        ResolvedSourceGlob::decode(&s("*.json")),
        Ok(ResolvedSourceGlob::Glob(_))
    ));
    assert!(matches!(
        ResolvedSourceGlob::decode(&JsonValue::Bool(false)),
        Ok(ResolvedSourceGlob::Disabled)
    ));
    assert!(matches!(
        ResolvedSourceGlob::decode(&JsonValue::Bool(true)),
        Err(ConfigError::InvalidGlob(_, _))
    ));
}

#[test]
fn resolved_config_serializes_back() {
    let mut src = minimal_source("/");
    src.glob = Some(SourceGlob::Enable(false));
    src.exclude = Some(vec!["skip".to_string()]);
    let resolved = (Config { source: Some(vec![src]) }).resolve().unwrap();
    let text = resolved.to_json().to_text();
    assert_eq!(
        text,
        "{\"source\":[{\"root\":\"/\",\"follow_links\":false,\"max_depth\":18446744073709551615,\"glob\":false,\"format\":{\"autodetect\":true,\"encoding\":null,\"allow_trailing_comma\":true},\"files\":{},\"exclude\":[\"skip\"]}]}"
    );
}

// --- glob matching ---

#[test]
fn default_pattern_matches_one_level_down() {
    let g = CompiledGlob::compile("*/*.json").unwrap();
    assert!(g.is_match("a/b.json"));
    assert!(!g.is_match("b.json"));
    assert!(!g.is_match("a/b/c.json"));
    assert!(!g.is_match("a/b.JSON"));
}

// --- walker ---

fn dir(entries: Vec<(&str, DirTree)>) -> DirTree {
    DirTree::Dir(entries.into_iter().map(|(n, t)| (n.to_string(), t)).collect())
}

fn resolved_for_walk(glob: ResolvedSourceGlob, exclude: Vec<&str>) -> ingest::config::ResolvedSourceFileConfig {
    ingest::config::ResolvedSourceFileConfig {
        root: "/data".to_string(),
        follow_links: false,
        max_depth: usize::MAX,
        glob,
        format: baseline_format(),
        files: vec![],
        exclude: exclude.into_iter().map(|e| e.to_string()).collect(),
    }
}

#[test]
fn excluding_a_directory_prunes_its_subtree() {
    let tree = dir(vec![("x", dir(vec![("y", dir(vec![("z.json", DirTree::File)]))]))]);
    let pruned = resolved_for_walk(ResolvedSourceGlob::Disabled, vec!["x/y"]);
    assert!(pruned.source_files(&tree).is_empty());
    let kept = resolved_for_walk(ResolvedSourceGlob::Disabled, vec![]);
    let files = kept.source_files(&tree);
    assert_eq!(files.len(), 1);
    assert_eq!(files[0].relative_path, "x/y/z.json");
    assert_eq!(files[0].absolute_path, "/data/x/y/z.json");
}

#[test]
fn per_file_override_takes_precedence() {
    let mut cfg = resolved_for_walk(ResolvedSourceGlob::Disabled, vec![]);
    cfg.format = ResolvedSourceFormat {
        autodetect: false,
        encoding: None,
        allow_trailing_comma: true,
    };
    cfg.files = vec![(
        "a.json".to_string(),
        ResolvedSourceFormat { autodetect: true, encoding: None, allow_trailing_comma: true },
    )];
    let tree = dir(vec![("a.json", DirTree::File), ("b.json", DirTree::File)]);
    let files = cfg.source_files(&tree);
    assert_eq!(files.len(), 2);
    assert!(files[0].format.autodetect, "the override must win for a.json");
    assert!(!files[1].format.autodetect, "the default must hold for b.json");
}

#[test]
fn depth_bound_limits_the_walk() {
    let tree = dir(vec![
        ("top.json", DirTree::File),
        ("sub", dir(vec![("deep.json", DirTree::File)])),
    ]);
    let mut cfg = resolved_for_walk(ResolvedSourceGlob::Disabled, vec![]);
    cfg.max_depth = 1;
    let files = cfg.source_files(&tree);
    assert_eq!(files.len(), 1);
    assert_eq!(files[0].relative_path, "top.json");
}

#[test]
fn end_to_end_discovery_scenario() {
    let src = SourceFileConfig {
        root: "/".to_string(),
        follow_links: None,
        max_depth: None,
        glob: Some(SourceGlob::Glob("*.json".to_string())),
        format: None,
        files: None,
        exclude: Some(vec!["skip.json".to_string()]),
    };
    let resolved = Config { source: Some(vec![src]) }.resolve().unwrap();
    let tree = dir(vec![
        ("a.json", DirTree::File),
        ("skip.json", DirTree::File),
        ("sub", dir(vec![("b.json", DirTree::File)])),
    ]);
    let files = resolved.source[0].source_files(&tree);
    assert_eq!(files.len(), 1);
    assert_eq!(files[0].relative_path, "a.json");
}

#[test]
fn strip_root_drops_the_prefix() {
    assert!(has_root("/data", "/data/a/b.json"));
    assert!(!has_root("/data", "/data"));
    assert!(!has_root("/data", "/datum/a"));
    assert_eq!(strip_root("/data", "/data/a/b.json"), "a/b.json");
}

// --- format reader ---

#[test]
fn default_reader_reads_like_a_new_one() {
    let mut reader: Reader = Default::default();
    let v = reader
        .deserialize_from(b"[true]", &baseline_format())
        .unwrap();
    assert_eq!(v, JsonValue::Arr(vec![JsonValue::Bool(true)]));
}

#[test]
fn reads_plain_utf8() {
    let mut reader = Reader::new();
    let v = reader
        .deserialize_from(b"{\"k\": \"v\"}", &baseline_format())
        .unwrap();
    assert_eq!(v, obj(vec![("k", s("v"))]));
}

#[test]
fn sniffs_byte_order_marks() {
    assert_eq!(sniff_bom(&[0xef, 0xbb, 0xbf, b'{']), Some(Bom::Utf8));
    assert_eq!(sniff_bom(&[0xff, 0xfe]), Some(Bom::Utf16Le));
    assert_eq!(sniff_bom(&[0xfe, 0xff]), Some(Bom::Utf16Be));
    assert_eq!(sniff_bom(b"{}"), None);
}

#[test]
fn bom_is_stripped_even_with_explicit_encoding() {
    let mut bytes = vec![0xef, 0xbb, 0xbf];
    bytes.extend_from_slice(b"{\"k\":\"v\"}");
    let policy = ResolvedSourceFormat {
        autodetect: false,
        encoding: Some("UTF-8".to_string()),
        allow_trailing_comma: true,
    };
    let mut reader = Reader::new();
    let v = reader.deserialize_from(&bytes, &policy).unwrap();
    // No string value may carry the mark.
    assert_eq!(v, obj(vec![("k", s("v"))]));
}

#[test]
fn bom_autodetection_decodes_utf16() {
    // "{}" in UTF-16LE behind its mark.
    let bytes = [0xff, 0xfe, b'{', 0x00, b'}', 0x00];
    let mut reader = Reader::new();
    let v = reader.deserialize_from(&bytes, &baseline_format()).unwrap();
    assert_eq!(v, obj(vec![]));
}

#[test]
fn reader_reports_trailing_comma_per_policy() {
    let mut tolerant = baseline_format();
    let mut reader = Reader::new();
    assert!(reader.deserialize_from(b"{\"a\":1,}", &tolerant).is_ok());
    tolerant.allow_trailing_comma = false;
    assert_eq!(
        reader.deserialize_from(b"{\"a\":1,}", &tolerant),
        Err(ReadError::Syntax)
    );
    assert_eq!(
        reader.deserialize_from(b"{} junk", &baseline_format()),
        Err(ReadError::TrailingData)
    );
}

#[test]
fn explicit_single_byte_encoding_decodes_high_bytes() {
    // {"k":"\u{e9}"} in windows-1252: the high byte must come back as the
    // accented character, not as the byte value.
    let bytes = [
        b'{', b'"', b'k', b'"', b':', b'"', 0xe9, b'"', b'}',
    ];
    let policy = ResolvedSourceFormat {
        autodetect: false,
        encoding: Some("windows-1252".to_string()),
        allow_trailing_comma: true,
    };
    let mut reader = Reader::new();
    let v = reader.deserialize_from(&bytes, &policy).unwrap();
    assert_eq!(v, obj(vec![("k", s("\u{e9}"))]));
}

#[test]
fn reader_reports_an_unknown_encoding() {
    // The resolver never produces such a policy, but the reader still pins
    // down what happens when one is built by hand.
    let policy = ResolvedSourceFormat {
        autodetect: false,
        encoding: Some("made-up-charset".to_string()),
        allow_trailing_comma: true,
    };
    let mut reader = Reader::new();
    assert_eq!(
        reader.deserialize_from(b"{}", &policy),
        Err(ReadError::UnknownEncoding("made-up-charset".to_string()))
    );
}

// --- the xtriggers record and its three-shape table entry ---

#[test]
fn xtriggers_record_fills_defaults() {
    let v = obj(vec![("id", s("dread"))]);
    let x = ElementsXTriggers::decode(&v).unwrap();
    assert_eq!(x.id, "dread");
    assert!(!x.additive);
    assert_eq!(x.chance, u32_100());
    assert_eq!(x.level, None);
    assert_eq!(x.morpheffect, None);
}

#[test]
fn xtriggers_record_rejects_bad_objects() {
    assert_eq!(
        ElementsXTriggers::decode(&obj(vec![("chance", JsonValue::Int(50))])),
        Err(DataError::MissingField)
    );
    assert_eq!(
        ElementsXTriggers::decode(&obj(vec![("id", s("x")), ("surprise", s("y"))])),
        Err(DataError::UnknownField)
    );
    assert_eq!(
        ElementsXTriggers::decode(&obj(vec![("id", s("x")), ("id", s("y"))])),
        Err(DataError::DuplicateField)
    );
    assert_eq!(
        ElementsXTriggers::decode(&obj(vec![("id", s("x")), ("chance", s("often"))])),
        Err(DataError::BadValue(CoerceError::WrongShape))
    );
}

#[test]
fn xt_entry_round_trips_each_of_its_three_shapes() {
    // A bare string stays a bare string.
    let v1 = parse("\"x\"", false).unwrap();
    let e1 = decode_xt_entry(&v1).unwrap();
    assert!(matches!(e1, StringMapOrArray::Str(_)));
    assert_eq!(encode_xt_entry(&e1).to_text(), "\"x\"");

    // A single object stays a single object.
    let v2 = parse("{\"id\":\"x\"}", false).unwrap();
    let e2 = decode_xt_entry(&v2).unwrap();
    assert!(matches!(e2, StringMapOrArray::One(StringOrStruct::Struct(_))));
    assert_eq!(
        encode_xt_entry(&e2).to_text(),
        "{\"additive\":false,\"chance\":100,\"id\":\"x\",\"level\":null,\"morpheffect\":null}"
    );

    // An array stays an array.
    let v3 = parse("[\"x\",\"y\"]", false).unwrap();
    let e3 = decode_xt_entry(&v3).unwrap();
    assert!(matches!(e3, StringMapOrArray::Arr(ref vs) if vs.len() == 2));
    assert_eq!(encode_xt_entry(&e3).to_text(), "[\"x\",\"y\"]");
}

#[test]
fn mutations_record_uses_the_coercions() {
    let v = obj(vec![
        ("additive", s("true")),
        ("filter", s("lantern")),
        ("level", JsonValue::Int(2)),
        ("mutate", s("dread")),
    ]);
    let m = RecipesMutations::decode(&v).unwrap();
    assert!(m.additive, "the string spelling of a boolean must coerce");
    assert_eq!(m.filter, "lantern");
    assert_eq!(m.level, StringOrI32::I32(2));
    assert_eq!(m.mutate, "dread");

    let v2 = obj(vec![
        ("filter", s("f")),
        ("level", s("^")),
        ("mutate", s("m")),
    ]);
    let m2 = RecipesMutations::decode(&v2).unwrap();
    assert!(!m2.additive, "absent additive defaults to false");
    assert_eq!(m2.level, StringOrI32::Str("^".to_string()));

    let bad = obj(vec![
        ("additive", s("maybe")),
        ("filter", s("f")),
        ("level", JsonValue::Int(1)),
        ("mutate", s("m")),
    ]);
    assert_eq!(
        RecipesMutations::decode(&bad),
        Err(DataError::BadValue(CoerceError::Unparsable))
    );
    assert_eq!(
        RecipesMutations::decode(&obj(vec![("filter", s("f"))])),
        Err(DataError::MissingField)
    );
}

#[test]
fn xt_entry_rejects_other_shapes() {
    assert_eq!(
        decode_xt_entry(&JsonValue::Int(3)),
        Err(DataError::BadValue(CoerceError::WrongShape))
    );
    let bad = JsonValue::Arr(vec![s("ok"), JsonValue::Int(3)]);
    assert_eq!(
        decode_xt_entry(&bad),
        Err(DataError::BadValue(CoerceError::WrongShape))
    );
}
