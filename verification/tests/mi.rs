use kuebiko::mi::{parse_line, MiRecord, MiValue};

#[test]
fn parses_stop_record() {
    let record = parse_line(
        r#"*stopped,reason="breakpoint-hit",frame={addr="0x401000",func="main",line="7"}"#,
    )
    .unwrap();
    let MiRecord::Async { class, results, .. } = record else {
        panic!()
    };
    assert_eq!(class, "stopped");
    assert_eq!(results.get("reason").unwrap().text(), Some("breakpoint-hit"));
    assert_eq!(
        results.get("frame").unwrap().field("func").and_then(MiValue::text),
        Some("main")
    );
}

#[test]
fn parses_nested_lists_and_escapes() {
    let record = parse_line(
        r#"31^done,stack=[frame={level="0",func="vuln\\n"},frame={level="1",func="main"}]"#,
    )
    .unwrap();
    let MiRecord::Result { token, results, .. } = record else {
        panic!()
    };
    assert_eq!(token, Some(31));
    assert_eq!(results.get("stack").unwrap().items().len(), 2);
}

fn result_record(line: &str) -> (Option<u64>, String, kuebiko::fields::Fields<MiValue>) {
    match parse_line(line) {
        Ok(MiRecord::Result { token, class, results }) => (token, class, results),
        other => panic!("no result record: {other:?}"),
    }
}

#[test]
fn the_prompt_is_a_record_of_its_own() {
    assert_eq!(parse_line("(gdb)"), Ok(MiRecord::Prompt));
    assert_eq!(parse_line("(gdb) \r\n"), Ok(MiRecord::Prompt));
}

#[test]
fn line_ends_are_no_part_of_a_record() {
    assert_eq!(parse_line("7^done,a=\"1\"\r\n\r\n"), parse_line("7^done,a=\"1\""));
}

#[test]
fn each_way_of_not_being_a_record_has_its_message() {
    let cases = [
        ("", "empty MI record"),
        ("12", "empty MI record"),
        ("?x", "unsupported MI marker '?'"),
        ("\\x", "unsupported MI marker '\\\\'"),
        ("^done,=\"1\"", "invalid MI result"),
        ("^done,a", "invalid MI result"),
        ("^done,a={b=\"1\"", "unterminated tuple"),
        ("^done,a=[\"1\"", "unterminated list"),
        ("~text", "expected MI string"),
        ("~\"a\\", "truncated escape"),
        ("~\"a", "unterminated MI string"),
    ];
    for (line, message) in cases {
        assert_eq!(parse_line(line), Err(message.to_string()), "{line}");
    }
}

#[test]
fn streams_hold_their_text() {
    assert_eq!(
        parse_line(r#"~"a\tb\n\"c\" \\ \303\251 \0""#),
        Ok(MiRecord::Stream {
            kind: '~',
            text: "a\tb\n\"c\" \\ \u{c3}\u{a9} \u{0}".to_string(),
        })
    );
    for kind in ['~', '@', '&'] {
        assert_eq!(
            parse_line(&format!("{kind}\"x\"")),
            Ok(MiRecord::Stream { kind, text: "x".to_string() })
        );
    }
}

#[test]
fn quoted_strings_read_back() {
    let (_, _, results) = result_record(r#"^done,a="\001\177\"\\\n\r\t ~",b="next""#);
    assert_eq!(
        results.get("a").and_then(MiValue::text),
        Some("\u{1}\u{7f}\"\\\n\r\t ~")
    );
    assert_eq!(results.get("b").and_then(MiValue::text), Some("next"));
}

#[test]
fn octal_escapes_have_up_to_three_digits() {
    let (_, _, results) = result_record(r#"^done,a="\1\12\1234\8""#);
    assert_eq!(results.get("a").and_then(MiValue::text), Some("\u{1}\n\u{53}48"));
}

#[test]
fn tokens_read_back() {
    assert_eq!(result_record("18446744073709551615^done").0, Some(u64::MAX));
    assert_eq!(result_record("18446744073709551616^done").0, None);
    assert_eq!(result_record("0101^done").0, Some(101));
    assert_eq!(result_record("^done").0, None);
}

#[test]
fn repeated_results_make_a_list() {
    let (_, class, results) = result_record(r#"^done,a="1",b="x",a="2",a="3""#);
    assert_eq!(class, "done");
    let texts: Vec<_> = results.get("a").unwrap().items().iter().map(MiValue::text).collect();
    assert_eq!(texts, vec![Some("1"), Some("2"), Some("3")]);
    assert_eq!(results.get("b").and_then(MiValue::text), Some("x"));
    assert_eq!(results.len(), 2);
    assert_eq!(results.name(0), "a");
    let (_, _, results) = result_record(r#"^done,a=["1"],a="2""#);
    let texts: Vec<_> = results.get("a").unwrap().items().iter().map(MiValue::text).collect();
    assert_eq!(texts, vec![Some("1"), Some("2")]);
}

#[test]
fn the_later_of_two_fields_of_a_tuple_stays() {
    let (_, _, results) = result_record(r#"^done,a={b="1",b="2"}"#);
    assert_eq!(
        results.get("a").unwrap().field("b").and_then(MiValue::text),
        Some("2")
    );
}

#[test]
fn nested_values_read_back() {
    let (token, class, results) =
        result_record(r#"5^done,a={b=[{c="1"},"2",d="3",[]],e={}},f="4""#);
    assert_eq!((token, class.as_str()), (Some(5), "done"));
    let items = results.get("a").unwrap().field("b").unwrap().items();
    assert_eq!(items.len(), 4);
    assert_eq!(items[0].field("c").and_then(MiValue::text), Some("1"));
    assert_eq!(items[1].text(), Some("2"));
    assert_eq!(items[2].field("d").and_then(MiValue::text), Some("3"));
    assert_eq!(items[3].items().len(), 0);
    assert!(matches!(results.get("a").unwrap().field("e"), Some(MiValue::Tuple(_))));
    assert_eq!(results.get("f").and_then(MiValue::text), Some("4"));
}

#[test]
fn constants_without_quotes_end_at_a_comma_or_a_bracket() {
    let (_, _, results) = result_record("^done,a=b c,d=[x,y],e={f=z}");
    assert_eq!(results.get("a").and_then(MiValue::text), Some("b c"));
    let texts: Vec<_> = results.get("d").unwrap().items().iter().map(MiValue::text).collect();
    assert_eq!(texts, vec![Some("x"), Some("y")]);
    assert_eq!(results.get("e").unwrap().field("f").and_then(MiValue::text), Some("z"));
}

#[test]
fn what_follows_a_record_is_passed_over() {
    let (_, _, results) = result_record("^done,a=\"1\"rest");
    assert_eq!(results.get("a").and_then(MiValue::text), Some("1"));
}

#[test]
fn records_of_what_happened_have_their_kind() {
    for kind in ['*', '+', '='] {
        match parse_line(&format!("{kind}thread-created,id=\"1\"")) {
            Ok(MiRecord::Async { kind: found, class, results }) => {
                assert_eq!((found, class.as_str()), (kind, "thread-created"));
                assert_eq!(results.get("id").and_then(MiValue::text), Some("1"));
            }
            other => panic!("{other:?}"),
        }
    }
}

#[test]
fn copies_are_equal() {
    for line in [
        r#"5^done,a={b=[{c="1"},"2",d="3",[]],e={}},f="4""#,
        r#"*stopped,reason="x""#,
        r#"~"text""#,
        "(gdb)",
    ] {
        let record = parse_line(line).unwrap();
        assert_eq!(record.clone(), record);
    }
}

#[test]
fn strings_end_at_their_quote() {
    for tail in ["", "\"", "x\"y\"", "\\", ",b=\"2\""] {
        let (_, _, results) = result_record(&format!(r#"^done,a="o\"n\"e"{tail}"#));
        assert_eq!(results.get("a").and_then(MiValue::text), Some("o\"n\"e"), "{tail}");
    }
}

#[test]
fn values_end_where_they_are_closed() {
    for value in ["\"1\"", "{b=\"1\"}", "[\"1\",\"2\"]", "{}", "[]"] {
        let alone = result_record(&format!("^done,a={value}")).2;
        let followed = result_record(&format!("^done,a={value},b=\"2\"")).2;
        assert_eq!(alone.get("a"), followed.get("a"), "{value}");
        assert_eq!(followed.get("b").and_then(MiValue::text), Some("2"), "{value}");
        let open = &value[..value.len() - 1];
        assert!(parse_line(&format!("^done,a={open}")).is_err(), "{value}");
    }
}

#[test]
fn results_have_no_order() {
    for value in ["\"1\"", "{c=[\"1\",\"2\"]}", "[d=\"1\"]", "bare"] {
        let first = result_record(&format!("^done,a={value},b=\"2\""));
        let second = result_record(&format!("^done,b=\"2\",a={value}"));
        assert_eq!(first, second, "{value}");
        assert_eq!(first.2.len(), 2);
    }
}
