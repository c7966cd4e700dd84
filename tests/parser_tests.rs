use nix_diff::{parse_derivation_bytes, parse_derivation_string, Expected};

#[test]
fn test_parse_simple_derivation() {
    let drv = r#"Derive([("out","/nix/store/abc-test","","")],[],[],"/bin/bash","/nix/store/xyz-builder",["-c","echo hello"],[("name","test"),("out","/nix/store/abc-test")])"#;
    let result = parse_derivation_string(drv).unwrap();
    assert_eq!(result.outputs.len(), 1);
    assert_eq!(result.platform, b"/bin/bash");
    assert_eq!(result.args, vec![b"-c".to_vec(), b"echo hello".to_vec()]);
}

#[test]
fn sample_parses_field_by_field() {
    let drv = r#"Derive([("out","/store/abc-test","","")],[],[],"/bin/bash","/store/xyz-builder",["-c","echo hello"],[("name","test"),("out","/store/abc-test")])"#;
    let d = parse_derivation_string(drv).unwrap();
    assert_eq!(d.outputs.len(), 1);
    assert_eq!(d.outputs[0].0, b"out".to_vec());
    assert_eq!(d.outputs[0].1.path, b"/store/abc-test".to_vec());
    assert_eq!(d.outputs[0].1.hash_algorithm, None);
    assert_eq!(d.outputs[0].1.hash, None);
    assert!(d.input_derivations.is_empty());
    assert!(d.input_sources.is_empty());
    assert_eq!(d.platform, b"/bin/bash".to_vec());
    assert_eq!(d.builder, b"/store/xyz-builder".to_vec());
    assert_eq!(d.args, vec![b"-c".to_vec(), b"echo hello".to_vec()]);
    assert_eq!(
        d.env,
        vec![
            (b"name".to_vec(), b"test".to_vec()),
            (b"out".to_vec(), b"/store/abc-test".to_vec())
        ]
    );
}

#[test]
fn fixed_output_keeps_both_hash_fields() {
    let drv = r#"Derive([("out","/s/p","sha256","abc")],[],[],"x","y",[],[])"#;
    let d = parse_derivation_string(drv).unwrap();
    assert_eq!(d.outputs[0].1.hash_algorithm, Some(b"sha256".to_vec()));
    assert_eq!(d.outputs[0].1.hash, Some(b"abc".to_vec()));
}

#[test]
fn absent_optional_string_is_none() {
    let drv = r#"Derive([("out","/s/p",,)],[],[],"x","y",[],[])"#;
    let d = parse_derivation_string(drv).unwrap();
    assert_eq!(d.outputs[0].1.hash_algorithm, None);
    assert_eq!(d.outputs[0].1.hash, None);
}

#[test]
fn escapes_decode_to_their_bytes() {
    let drv = "Derive([],[],[],\"a\\nb\\tc\\\\d\\\"e\\rf\\qg\",\"y\",[],[])";
    let d = parse_derivation_string(drv).unwrap();
    assert_eq!(d.platform, b"a\nb\tc\\d\"e\rfqg".to_vec());
}

#[test]
fn string_without_escapes_is_verbatim() {
    let drv = "Derive([],[],[],\"plain / text-42\",\"y\",[],[])";
    let d = parse_derivation_string(drv).unwrap();
    assert_eq!(d.platform, b"plain / text-42".to_vec());
}

#[test]
fn non_utf8_bytes_survive_parsing() {
    let mut input = b"Derive([],[],[],\"".to_vec();
    input.extend_from_slice(&[0xff, 0xfe, b'x']);
    input.extend_from_slice(b"\",\"y\",[],[])");
    let d = parse_derivation_bytes(&input).unwrap();
    assert_eq!(d.platform, vec![0xff, 0xfe, b'x']);
}

#[test]
fn whitespace_between_tokens_is_skipped() {
    let drv = " Derive( [ ( \"out\" , \"/p\" , \"\" , \"\" ) ] , [ ] , [ \"/s/a\" ] , \"x\" , \"y\" , [ \"1\" , \"2\" ] , [ ( \"k\" , \"v\" ) ] ) \n";
    let d = parse_derivation_string(drv).unwrap();
    assert_eq!(d.outputs.len(), 1);
    assert_eq!(d.input_sources, vec![b"/s/a".to_vec()]);
    assert_eq!(d.args, vec![b"1".to_vec(), b"2".to_vec()]);
    assert_eq!(d.env, vec![(b"k".to_vec(), b"v".to_vec())]);
}

#[test]
fn maps_and_sets_are_sorted_and_deduplicated() {
    let drv = r#"Derive([("out","/p2","",""),("dev","/p1","","")],[("/s/b.drv",["out","dev","out"]),("/s/a.drv",["out"])],["/s/z","/s/a","/s/z"],"x","y",[],[("b","1"),("a","2"),("b","3")])"#;
    let d = parse_derivation_string(drv).unwrap();
    assert_eq!(d.outputs[0].0, b"dev".to_vec());
    assert_eq!(d.outputs[1].0, b"out".to_vec());
    assert_eq!(d.input_sources, vec![b"/s/a".to_vec(), b"/s/z".to_vec()]);
    assert_eq!(d.input_derivations[0].0, b"/s/a.drv".to_vec());
    assert_eq!(d.input_derivations[1].1, vec![b"dev".to_vec(), b"out".to_vec()]);
    assert_eq!(
        d.env,
        vec![(b"a".to_vec(), b"2".to_vec()), (b"b".to_vec(), b"3".to_vec())]
    );
}

#[test]
fn missing_header_is_rejected() {
    let err = parse_derivation_string("Derivx([],[],[],\"x\",\"y\",[],[])").unwrap_err();
    assert_eq!(err.expected, Expected::Header);
    assert_eq!(err.position, 0);
}

#[test]
fn unterminated_string_is_rejected() {
    let err = parse_derivation_string("Derive([],[],[],\"abc").unwrap_err();
    assert_eq!(err.expected, Expected::ClosingQuote);
    assert_eq!(err.position, 17);
    let err = parse_derivation_string("Derive([],[],[],\"ab\\").unwrap_err();
    assert_eq!(err.expected, Expected::ClosingQuote);
}

#[test]
fn wrong_separator_is_rejected() {
    let err = parse_derivation_string("Derive([],[];[],\"x\",\"y\",[],[])").unwrap_err();
    assert_eq!(err.expected, Expected::Byte(b','));
    assert_eq!(err.position, 12);
}

#[test]
fn missing_comma_between_items_is_rejected() {
    let input = "Derive([],[],[],\"x\",\"y\",[\"a\" \"b\"],[])";
    let err = parse_derivation_string(input).unwrap_err();
    assert_eq!(err.expected, Expected::Byte(b']'));
    assert_eq!(err.position, input.find("\"b").unwrap());
}

#[test]
fn trailing_input_is_rejected() {
    let input = "Derive([],[],[],\"x\",\"y\",[],[]) extra";
    let err = parse_derivation_string(input).unwrap_err();
    assert_eq!(err.expected, Expected::EndOfInput);
    assert_eq!(err.position, input.find("extra").unwrap());
}

#[test]
fn truncated_input_is_rejected() {
    assert!(parse_derivation_string("Derive([],[],[],\"x\",\"y\",[],[]").is_err());
    assert!(parse_derivation_string("").is_err());
}
