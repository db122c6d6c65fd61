use crossterm::style::Stylize;
use grits::attr::{Attribute, AttributeKind, Alignment};
use grits::anchor::DefaultValue;
use grits::buffer::BlockBuffer;
use grits::charset::Rules;
use grits::line::{LineProcessor, LineProcessorError, RequireMode};
use grits::parse::parse;
use grits::template::{InterpolationMap, InterpolationTarget, OutputTemplate};

#[test]
fn spans_are_sorted_and_within_bounds() {
    let template = "a={x} mid {y[1]||'z'} end {(red):w}";
    let anchors = parse(template).unwrap();
    assert_eq!(anchors.len(), 3);
    let mut prev_end = 0;
    for a in &anchors {
        assert!(prev_end <= a.start);
        assert!(a.start < a.end);
        assert!(a.end <= template.len());
        assert!(template[a.start..a.end].starts_with('{'));
        assert!(template[a.start..a.end].ends_with('}'));
        prev_end = a.end;
    }
}

#[test]
fn targets_reconstruct_template() {
    let template = "a={x} mid {y[1]||'z'} end {(red):w}";
    let out = OutputTemplate::parse(template).unwrap();
    let mut rebuilt = String::new();
    for t in &out.targets {
        match t {
            InterpolationTarget::Literal(s) => rebuilt.push_str(s),
            InterpolationTarget::Anchor(a) => rebuilt.push_str(&template[a.start..a.end]),
        }
    }
    assert_eq!(rebuilt, template);
}

#[test]
fn parsing_is_idempotent() {
    let template = "a={x} mid {!y} {w[2]||v[1]||'lit'} end";
    let a1 = parse(template).unwrap();
    let a2 = parse(template).unwrap();
    assert_eq!(a1.len(), a2.len());
    for (x, y) in a1.iter().zip(a2.iter()) {
        assert_eq!(x.name, y.name);
        assert_eq!(x.start, y.start);
        assert_eq!(x.end, y.end);
        assert_eq!(x.index, y.index);
        assert_eq!(x.required, y.required);
        assert_eq!(x.defaults.len(), y.defaults.len());
        for (d1, d2) in x.defaults.iter().zip(y.defaults.iter()) {
            match (d1, d2) {
                (DefaultValue::Literal(v1), DefaultValue::Literal(v2)) => assert_eq!(v1, v2),
                (
                    DefaultValue::Anchor { name: n1, index: i1 },
                    DefaultValue::Anchor { name: n2, index: i2 },
                ) => {
                    assert_eq!(n1, n2);
                    assert_eq!(i1, i2);
                }
                _ => panic!("default kinds differ between parses"),
            }
        }
        let k1: Vec<AttributeKind> = x.attributes.iter().map(|a| a.kind).collect();
        let k2: Vec<AttributeKind> = y.attributes.iter().map(|a| a.kind).collect();
        assert_eq!(k1, k2);
    }
}

#[test]
fn transform_single_anchor() {
    let out = OutputTemplate::parse("output={log}").unwrap();
    let mut map = InterpolationMap::new();
    map.insert("log", vec!["info".to_string()]);
    assert_eq!(out.transform(&map), "output=info");
}

#[test]
fn transform_literal_default_on_missing_key() {
    let out = OutputTemplate::parse("out={bar || \"foobaz\"}").unwrap();
    let map = InterpolationMap::new();
    assert_eq!(out.transform(&map), "out=foobaz");
}

#[test]
fn transform_default_anchor_index_fallthrough() {
    let out = OutputTemplate::parse("{foo[1]||bar[1]}").unwrap();
    let mut map = InterpolationMap::new();
    map.insert("foo", vec!["a".to_string()]);
    map.insert("bar", vec!["b1".to_string(), "b2".to_string()]);
    assert_eq!(out.transform(&map), "b2");
}

#[test]
fn required_anchor_miss_empties_whole_output() {
    let out = OutputTemplate::parse("log={!foo} out={bar}").unwrap();
    let mut map = InterpolationMap::new();
    map.insert("foo", vec![]);
    map.insert("bar", vec!["x".to_string()]);
    assert_eq!(out.transform(&map), "");
}

#[test]
fn required_anchor_with_default_fails_to_parse() {
    assert!(parse("{!log || foo}").is_err());
}

#[test]
fn alignment_pads_and_order_is_canonical() {
    let out = OutputTemplate::parse("{(lalign(9)):foo}").unwrap();
    let mut map = InterpolationMap::new();
    map.insert("foo", vec!["bar".to_string()]);
    assert_eq!(out.transform(&map), "bar      ");

    let before = OutputTemplate::parse("{(lalign(9)|red):foo}").unwrap();
    let after = OutputTemplate::parse("{(red|lalign(9)):foo}").unwrap();
    assert_eq!(before.transform(&map), after.transform(&map));
}

#[test]
fn alignment_right_and_center() {
    let mut map = InterpolationMap::new();
    map.insert("v", vec!["abc".to_string()]);

    let out = OutputTemplate::parse("{(ralign(6)):v}").unwrap();
    assert_eq!(out.transform(&map), "   abc");

    let out = OutputTemplate::parse("{(calign(6)):v}").unwrap();
    assert_eq!(out.transform(&map), " abc  ");

    // no truncation when the value exceeds the width
    let out = OutputTemplate::parse("{(lalign(2)):v}").unwrap();
    assert_eq!(out.transform(&map), "abc");
}

#[test]
fn attribute_parse_names_and_synonyms() {
    assert_eq!(Attribute::parse("RED".to_string(), None).unwrap().kind, AttributeKind::Red);
    assert_eq!(
        Attribute::parse("bg-blue".to_string(), None).unwrap().kind,
        AttributeKind::BgBlue
    );
    assert_eq!(
        Attribute::parse("bg_blue".to_string(), None).unwrap().kind,
        AttributeKind::BgBlue
    );
    assert_eq!(
        Attribute::parse("crossed-out".to_string(), None).unwrap().kind,
        AttributeKind::CrossedOut
    );
    assert_eq!(
        Attribute::parse("lalign".to_string(), Some("9".to_string())).unwrap().kind,
        AttributeKind::Align { direction: Alignment::Left, width: 9 }
    );
}

#[test]
fn attribute_parse_errors() {
    let e = Attribute::parse("nope".to_string(), None).unwrap_err();
    assert_eq!(e.message(), "unrecognized attribute 'nope'");

    let e = Attribute::parse("?red".to_string(), None).unwrap_err();
    assert_eq!(
        e.message(),
        "Expected conditional attribute to have at least 1 argument."
    );

    let e = Attribute::parse("?red".to_string(), Some("'('".to_string())).unwrap_err();
    assert!(e
        .message()
        .starts_with("expected first argument of conditional attribute to be a valid regular expression:"));

    let e = Attribute::parse("lalign".to_string(), None).unwrap_err();
    assert_eq!(e.message(), "expected at least one argument for 'lalign'");

    let e = Attribute::parse("lalign".to_string(), Some("x".to_string())).unwrap_err();
    assert_eq!(e.message(), "expected first argument to 'lalign' to be a number");
}

#[test]
fn conditional_attribute_skips_on_mismatch() {
    let attrs = vec![Attribute::parse("?red".to_string(), Some("'(?i)error'".to_string())).unwrap()];
    assert_eq!(Attribute::apply("INFO", &attrs), "INFO");
    assert_eq!(Attribute::apply("ERROR", &attrs), "ERROR".red().to_string());
}

#[test]
fn parse_error_kinds() {
    let e = parse("trailing \\").unwrap_err();
    assert!(e.message().contains("escape is required"));

    let e = parse("{abc").unwrap_err();
    assert!(e.message().contains("close anchor declaration"));

    let e = parse("{*}").unwrap_err();
    assert!(e.message().contains("Anchor name cannot be blank"));

    let e = parse("{a[x]}").unwrap_err();
    assert!(e.message().contains("Expected index to be numeric."));

    let e = parse("{a[99999999999999999999999]}").unwrap_err();
    assert!(e.message().contains("Expected index to be numeric."));

    let e = parse("{a||b[1").unwrap_err();
    assert!(e.message().contains("while parsing an index operation"));

    let e = parse("{a||").unwrap_err();
    assert!(e.message().contains("while parsing default values"));

    let e = parse("{a|| +}").unwrap_err();
    assert!(e.message().contains("disallowed character"));

    let e = parse("{a||'xx}").unwrap_err();
    assert!(e.message().contains("missing closing quote"));

    let e = parse("{a|b}").unwrap_err();
    assert!(e.message().contains("Invalid default value operation"));

    let e = parse("{(red").unwrap_err();
    assert!(e.message().contains("close the attribute list"));

    let e = parse("{(red)a}").unwrap_err();
    assert!(e.message().contains("':' character to immediately follow"));

    let e = parse("{(nope):a}").unwrap_err();
    assert!(e.message().contains("unrecognized attribute 'nope'"));

    let e = parse("{!log || foo}").unwrap_err();
    assert!(e.message().contains("disallowed for anchors marked as required"));
}

#[test]
fn parse_error_positions() {
    let e = parse("trailing \\").unwrap_err();
    assert_eq!(e.char_index(), 9);
    assert_eq!(e.partial_template(), "trailing \\");
    let rendered = e.render();
    assert!(rendered.contains("trailing \\"));
    assert!(rendered.lines().nth(2).unwrap().ends_with('^'));
}

#[test]
fn whitespace_in_name_is_skipped() {
    let anchors = parse("{a b}").unwrap();
    assert_eq!(&anchors[0].name, "ab");
}

#[test]
fn escaped_quote_inside_literal_default() {
    let anchors = parse("{a||'x\\'y'}").unwrap();
    let DefaultValue::Literal(v) = &anchors[0].defaults[0] else {
        panic!("expected literal default");
    };
    assert_eq!(v, "x\\'y");
}

#[test]
fn pure_literal_anchor_transforms_verbatim() {
    let out = OutputTemplate::parse("v={'lit'}").unwrap();
    let map = InterpolationMap::new();
    assert_eq!(out.transform(&map), "v=lit");
}

#[test]
fn interpolation_map_overwrites_on_reinsert() {
    let out = OutputTemplate::parse("{k}").unwrap();
    let mut map = InterpolationMap::new();
    map.insert("k", vec!["first".to_string()]);
    map.insert("k", vec!["second".to_string()]);
    assert_eq!(out.transform(&map), "second");
}

#[test]
fn rules_validate_anchor_names() {
    let rules = Rules::new();
    assert!(rules.name_is_valid("abc_123"));
    assert!(rules.name_is_valid("A"));
    assert!(!rules.name_is_valid(""));
    assert!(!rules.name_is_valid("a-b"));
    assert!(!rules.name_is_valid("a b"));
}

#[test]
fn require_mode_default_and_names() {
    assert_eq!(RequireMode::default(), RequireMode::All);
    assert_eq!(RequireMode::All.as_str(), "all");
    assert_eq!(RequireMode::Any.as_str(), "any");
}

#[test]
fn block_buffer_flushes_on_overflow() {
    let mut b = BlockBuffer::new();
    let out = b.writeln("hello");
    assert!(out.is_empty());
    assert_eq!(b.len(), 6);

    let long = "x".repeat(600);
    let out = b.writeln(&long);
    assert_eq!(out.len(), 6 + 601);
    assert!(out.starts_with(b"hello\n"));
    assert_eq!(b.len(), 0);

    let out = b.writeln("a");
    assert!(out.is_empty());
    let taken = b.take_buffer();
    assert_eq!(taken, b"a\n".to_vec());
    assert_eq!(b.len(), 0);
}

#[test]
fn block_buffer_flushes_when_exactly_full() {
    let mut b = BlockBuffer::new();
    let line = "y".repeat(511);
    let out = b.writeln(&line);
    assert_eq!(out.len(), 512);
    assert_eq!(b.len(), 0);
}

#[test]
fn line_processor_end_to_end() {
    let p = LineProcessor::new(
        vec![r"level=(?P<lvl>\w+)".to_string(), r"msg=(?P<msg>\w+)".to_string()],
        vec!["lvl={lvl} msg={msg}".to_string()],
        vec![],
        RequireMode::All,
        String::new(),
    )
    .unwrap();
    assert_eq!(
        p.process_line("level=info msg=hello"),
        Some("lvl=info msg=hello".to_string())
    );
}

#[test]
fn line_processor_skips_empty_output() {
    let p = LineProcessor::new(
        vec![r"level=(?P<lvl>\w+)".to_string()],
        vec!["{lvl}".to_string()],
        vec![],
        RequireMode::All,
        String::new(),
    )
    .unwrap();
    assert_eq!(p.process_line("nothing here"), None);
    assert_eq!(p.process_line("level=warn"), Some("warn".to_string()));
}

#[test]
fn line_processor_require_filters() {
    let p = LineProcessor::new(
        vec![r"(?P<a>alpha)".to_string(), r"(?P<b>beta)".to_string()],
        vec!["a={a} b={b}".to_string()],
        vec!["a".to_string(), "b".to_string()],
        RequireMode::All,
        String::new(),
    )
    .unwrap();
    assert_eq!(p.process_line("alpha"), None);
    assert_eq!(
        p.process_line("alpha beta"),
        Some("a=alpha b=beta".to_string())
    );

    let p = LineProcessor::new(
        vec![r"(?P<a>alpha)".to_string(), r"(?P<b>beta)".to_string()],
        vec!["a={a} b={b}".to_string()],
        vec!["a".to_string(), "b".to_string()],
        RequireMode::Any,
        String::new(),
    )
    .unwrap();
    assert_eq!(p.process_line("alpha"), Some("a=alpha b=".to_string()));
}

#[test]
fn line_processor_joins_templates_with_separator() {
    let p = LineProcessor::new(
        vec![r"(?P<w>\w+)".to_string()],
        vec!["1={w}".to_string(), "2={w[1]}".to_string()],
        vec![],
        RequireMode::All,
        " | ".to_string(),
    )
    .unwrap();
    assert_eq!(
        p.process_line("foo bar"),
        Some("1=foo | 2=bar".to_string())
    );
}

#[test]
fn line_processor_construction_errors() {
    let e = LineProcessor::new(
        vec![r"no captures".to_string()],
        vec![],
        vec![],
        RequireMode::All,
        String::new(),
    )
    .unwrap_err();
    assert!(matches!(e, LineProcessorError::NoNamedCaptures));

    let e = LineProcessor::new(
        vec![r"(".to_string()],
        vec![],
        vec![],
        RequireMode::All,
        String::new(),
    )
    .unwrap_err();
    assert!(matches!(e, LineProcessorError::InvalidPattern(_)));

    let e = LineProcessor::new(
        vec![r"(?P<a>x)".to_string()],
        vec!["{!a || 'd'}".to_string()],
        vec![],
        RequireMode::All,
        String::new(),
    )
    .unwrap_err();
    assert!(matches!(e, LineProcessorError::InvalidTemplate(_)));
}

#[test]
fn multiple_values_accumulate_across_matches() {
    let p = LineProcessor::new(
        vec![r"v=(?P<v>\w+)".to_string()],
        vec!["first={v} second={v[1]}".to_string()],
        vec![],
        RequireMode::All,
        String::new(),
    )
    .unwrap();
    assert_eq!(
        p.process_line("v=one v=two"),
        Some("first=one second=two".to_string())
    );
}

#[test]
fn literal_default_without_surrounding_space() {
    let anchors = parse("{foo||'bar'}").unwrap();
    assert_eq!(anchors.len(), 1);
    let DefaultValue::Literal(v) = &anchors[0].defaults[0] else {
        panic!("expected literal default");
    };
    assert_eq!(v, "bar");
}

#[test]
fn empty_literal_default() {
    let anchors = parse("{a||''}").unwrap();
    let DefaultValue::Literal(v) = &anchors[0].defaults[0] else {
        panic!("expected literal default");
    };
    assert_eq!(v, "");
}

#[test]
fn mismatched_quote_in_attribute_argument() {
    let e = parse("{(?red('a\")):x}").unwrap_err();
    assert!(e.message().contains("missing a closing quote"));
}
