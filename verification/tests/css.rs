use page_parser::css::{parse_css, Parser};
use page_parser::error::ParseError;
use page_parser::specificity::{more_specific, sort_by_specificity};
use page_parser::stylesheet::{
    Color, ColorConst, Decimal, Declaration, Rule, Selector, SimpleSelector, Stylesheet, Unit,
    Value,
};

fn simple(tag: Option<&str>, id: Option<&str>, class: &[&str]) -> Selector {
    Selector::Simple(SimpleSelector {
        tag_name: tag.map(String::from),
        id: id.map(String::from),
        class: class.iter().map(|c| String::from(*c)).collect(),
    })
}

fn first_value(source: &str) -> Result<Value, ParseError> {
    let mut sheet = parse_css(String::from(source))?;
    Ok(sheet.rules.remove(0).declarations.remove(0).value)
}

#[test]
fn rule_with_tag_classes_and_id() {
    let sheet = parse_css(String::from("div.a.b#x { color: #ff0000; }")).unwrap();
    assert_eq!(sheet.rules.len(), 1);
    let rule = &sheet.rules[0];
    assert_eq!(rule.selectors.len(), 1);
    let Selector::Simple(simple) = &rule.selectors[0];
    assert_eq!(simple.tag_name, Some(String::from("div")));
    assert_eq!(simple.id, Some(String::from("x")));
    assert_eq!(simple.class, vec![String::from("a"), String::from("b")]);
    assert_eq!(rule.selectors[0].specificity(), (1, 2, 1));
    assert_eq!(rule.declarations.len(), 1);
    assert_eq!(rule.declarations[0].name, "color");
    assert_eq!(
        rule.declarations[0].value,
        Value::ColorValue(Color { r: 255, g: 0, b: 0, a: 255 })
    );
}

#[test]
fn whole_sheet_as_one_value() {
    let sheet = parse_css(String::from("h1, .big { margin: auto; color: blue; }\n#top{}")).unwrap();
    let expected = Stylesheet {
        rules: vec![
            Rule {
                selectors: vec![simple(None, None, &["big"]), simple(Some("h1"), None, &[])],
                declarations: vec![
                    Declaration {
                        name: String::from("margin"),
                        value: Value::Keyword(String::from("auto")),
                    },
                    Declaration {
                        name: String::from("color"),
                        value: Value::ColorConstValue(String::from("blue"), ColorConst::Blue),
                    },
                ],
            },
            Rule { selectors: vec![simple(None, Some("top"), &[])], declarations: vec![] },
        ],
    };
    assert_eq!(sheet, expected);
}

#[test]
fn empty_text_is_an_empty_sheet() {
    assert_eq!(parse_css(String::new()), Ok(Stylesheet { rules: vec![] }));
    assert_eq!(parse_css(String::from(" \n\t ")), Ok(Stylesheet { rules: vec![] }));
}

#[test]
fn length_in_pixels() {
    match first_value("p{width:10px;}").unwrap() {
        Value::Length(size, Unit::Px) => {
            assert_eq!(size.as_str(), "10");
            assert_eq!(size.as_str().parse::<f32>().unwrap(), 10.0);
        }
        other => panic!("not a length: {:?}", other),
    }
}

#[test]
fn length_with_a_fraction_and_capital_unit() {
    match first_value("p{width:1.5PX;}").unwrap() {
        Value::Length(size, Unit::Px) => {
            assert_eq!(size.as_str(), "1.5");
            assert_eq!(size.as_str().parse::<f32>().unwrap(), 1.5);
        }
        other => panic!("not a length: {:?}", other),
    }
    assert!(matches!(first_value("p{width:7pX;}"), Ok(Value::Length(_, Unit::Px))));
    assert!(matches!(first_value("p{width:7.Px;}"), Ok(Value::Length(_, Unit::Px))));
}

#[test]
fn other_unit_is_refused() {
    assert_eq!(parse_css(String::from("p{width:10em;}")), Err(ParseError::UnexpectedCharacter));
    assert_eq!(parse_css(String::from("p{width:10;}")), Err(ParseError::UnexpectedCharacter));
    assert_eq!(parse_css(String::from("p{width:10pxx;}")), Err(ParseError::UnexpectedCharacter));
    assert_eq!(parse_css(String::from("p{width:10 px;}")), Err(ParseError::UnexpectedCharacter));
}

#[test]
fn number_with_two_points_is_malformed() {
    assert_eq!(parse_css(String::from("p{width:1.2.3px;}")), Err(ParseError::MalformedLiteral));
    assert_eq!(parse_css(String::from("p{width:1..px;}")), Err(ParseError::MalformedLiteral));
}

#[test]
fn decimal_agrees_with_float_parsing() {
    let samples = [
        "", ".", "0", "10", "007", "1.", ".5", "1.5", "1..5", "1.2.3", "..", "3.14159", "1x",
        "-1", "+1", "1e5", " 1", "999999999999999999999999999999999999999999999999", "0.0.",
    ];
    for text in samples {
        let ours = Decimal::new(String::from(text));
        let only_number_chars = text.chars().all(|c| c.is_ascii_digit() || c == '.');
        let theirs = only_number_chars && text.parse::<f32>().is_ok();
        assert_eq!(ours.is_some(), theirs, "on {:?}", text);
        if let Some(d) = ours {
            assert_eq!(d.as_str(), text);
        }
    }
}

#[test]
fn hex_colour_and_named_colour_agree_but_differ_in_kind() {
    let written = first_value("a{color:#00ff00;}").unwrap();
    let named = first_value("a{color:green;}").unwrap();
    assert_eq!(written, Value::ColorValue(Color { r: 0, g: 255, b: 0, a: 255 }));
    assert_eq!(named, Value::ColorConstValue(String::from("green"), ColorConst::Green));
    assert_eq!(named.to_color(), Color { r: 0, g: 255, b: 0, a: 255 });
    assert_ne!(written, named);
}

#[test]
fn named_colours() {
    let red = Value::ColorConstValue(String::from("red"), ColorConst::Red);
    let green = Value::ColorConstValue(String::from("green"), ColorConst::Green);
    let blue = Value::ColorConstValue(String::from("blue"), ColorConst::Blue);
    assert_eq!(red.to_color(), Color { r: 255, g: 0, b: 0, a: 255 });
    assert_eq!(green.to_color(), Color { r: 0, g: 255, b: 0, a: 255 });
    assert_eq!(blue.to_color(), Color { r: 0, g: 0, b: 255, a: 255 });
    assert_eq!(first_value("a{c:red;}"), Ok(red));
    assert_eq!(first_value("a{c:blue;}"), Ok(blue));
    assert_eq!(first_value("a{c:Red;}"), Ok(Value::Keyword(String::from("Red"))));
    assert_eq!(first_value("a{c:redd;}"), Ok(Value::Keyword(String::from("redd"))));
    assert_eq!(first_value("a{c:;}"), Ok(Value::Keyword(String::new())));
}

#[test]
fn colour_word_must_be_a_known_name() {
    let mut parser = Parser::new("");
    assert_eq!(
        parser.parse_color_const(String::from("green")),
        Ok(Value::ColorConstValue(String::from("green"), ColorConst::Green))
    );
    assert_eq!(
        parser.parse_color_const(String::from("purple")),
        Err(ParseError::UnexpectedCharacter)
    );
}

#[test]
fn hex_pairs() {
    assert_eq!(Parser::new("00").parse_hex_pair(), Ok(0));
    assert_eq!(Parser::new("ff").parse_hex_pair(), Ok(255));
    assert_eq!(Parser::new("Fe").parse_hex_pair(), Ok(254));
    assert_eq!(Parser::new("1a").parse_hex_pair(), Ok(26));
    assert_eq!(Parser::new("A0rest").parse_hex_pair(), Ok(160));
    assert_eq!(Parser::new("7").parse_hex_pair(), Err(ParseError::MalformedLiteral));
    assert_eq!(Parser::new("").parse_hex_pair(), Err(ParseError::MalformedLiteral));
    assert_eq!(Parser::new("g0").parse_hex_pair(), Err(ParseError::MalformedLiteral));
    assert_eq!(Parser::new("0g").parse_hex_pair(), Err(ParseError::MalformedLiteral));
    assert_eq!(Parser::new("+f").parse_hex_pair(), Err(ParseError::MalformedLiteral));
}

#[test]
fn hex_pair_agrees_with_radix_parsing_on_digit_pairs() {
    let digits = "0123456789abcdefABCDEF";
    for high in digits.chars() {
        for low in digits.chars() {
            let text: String = [high, low].iter().collect();
            assert_eq!(
                Parser::new(&text).parse_hex_pair().ok(),
                u8::from_str_radix(&text, 16).ok()
            );
        }
    }
}

#[test]
fn short_or_bad_colour_is_malformed() {
    assert_eq!(parse_css(String::from("a{c:#00ff0")), Err(ParseError::MalformedLiteral));
    assert_eq!(parse_css(String::from("a{c:#00ff;}")), Err(ParseError::MalformedLiteral));
    assert_eq!(parse_css(String::from("a{c:#00gg00;}")), Err(ParseError::MalformedLiteral));
    assert_eq!(parse_css(String::from("a{c:#")), Err(ParseError::MalformedLiteral));
}

#[test]
fn colour_needs_its_hash() {
    assert_eq!(Parser::new("00ff00").parse_color(), Err(ParseError::StructuralMismatch));
    assert_eq!(Parser::new("").parse_color(), Err(ParseError::EndOfInput));
    assert_eq!(
        Parser::new("#0a0B0c").parse_color(),
        Ok(Value::ColorValue(Color { r: 10, g: 11, b: 12, a: 255 }))
    );
}

#[test]
fn id_beats_tag() {
    let sheet = parse_css(String::from("div, #id {}")).unwrap();
    assert_eq!(
        sheet.rules[0].selectors,
        vec![simple(None, Some("id"), &[]), simple(Some("div"), None, &[])]
    );
    let sheet = parse_css(String::from("#id, div {}")).unwrap();
    assert_eq!(
        sheet.rules[0].selectors,
        vec![simple(None, Some("id"), &[]), simple(Some("div"), None, &[])]
    );
    assert!(more_specific((1, 0, 0), (0, 0, 1)));
    assert!(!more_specific((0, 0, 1), (1, 0, 0)));
}

#[test]
fn specificity_order_is_lexicographic() {
    assert!(more_specific((1, 0, 0), (0, 9, 1)));
    assert!(more_specific((0, 2, 0), (0, 1, 1)));
    assert!(more_specific((0, 1, 1), (0, 1, 0)));
    assert!(!more_specific((0, 1, 1), (0, 1, 1)));
    assert!(!more_specific((0, 1, 0), (0, 1, 1)));
    assert!(!more_specific((0, 9, 9), (1, 0, 0)));
}

#[test]
fn specificity_counts_parts() {
    assert_eq!(simple(None, None, &[]).specificity(), (0, 0, 0));
    assert_eq!(simple(Some("a"), None, &[]).specificity(), (0, 0, 1));
    assert_eq!(simple(None, Some("a"), &[]).specificity(), (1, 0, 0));
    assert_eq!(simple(None, None, &["a", "a", "b"]).specificity(), (0, 3, 0));
    assert_eq!(simple(Some("t"), Some("i"), &["c"]).specificity(), (1, 1, 1));
}

#[test]
fn sorting_is_descending_and_stable() {
    let written = vec![
        simple(Some("a"), None, &[]),
        simple(None, None, &["x"]),
        simple(Some("b"), None, &[]),
        simple(None, Some("i"), &[]),
        simple(None, None, &["y"]),
        simple(Some("c"), None, &["z"]),
        simple(None, None, &[]),
        simple(Some("d"), None, &[]),
        simple(None, Some("j"), &[]),
    ];
    let sorted = sort_by_specificity(written);
    let expected = vec![
        simple(None, Some("i"), &[]),
        simple(None, Some("j"), &[]),
        simple(Some("c"), None, &["z"]),
        simple(None, None, &["x"]),
        simple(None, None, &["y"]),
        simple(Some("a"), None, &[]),
        simple(Some("b"), None, &[]),
        simple(Some("d"), None, &[]),
        simple(None, None, &[]),
    ];
    assert_eq!(sorted, expected);
    assert_eq!(sort_by_specificity(vec![]), vec![]);
}

#[test]
fn sorting_agrees_with_a_stable_library_sort() {
    let mut seed: u32 = 12345;
    for round in 0..200 {
        let mut written = Vec::new();
        let mut plain = Vec::new();
        for n in 0..(round % 9) {
            seed = seed.wrapping_mul(1664525).wrapping_add(1013904223);
            let bits = seed >> 16;
            let name = format!("n{}", n);
            let tag = if bits & 1 == 1 { Some(name.as_str()) } else { None };
            let id = if bits & 2 == 2 { Some(name.as_str()) } else { None };
            let classes: Vec<&str> = (0..((bits >> 2) % 3)).map(|_| "c").collect();
            written.push(simple(tag, id, &classes));
            plain.push(simple(tag, id, &classes));
        }
        plain.sort_by(|a, b| b.specificity().cmp(&a.specificity()));
        assert_eq!(sort_by_specificity(written), plain);
    }
}

#[test]
fn selectors_of_every_rule_are_sorted() {
    let sheet =
        parse_css(String::from("a, .b, #c, d.e, * {} x,y{} #p.q, #r, s#t.u.v {k:v;}")).unwrap();
    assert_eq!(sheet.rules.len(), 3);
    for rule in &sheet.rules {
        for pair in rule.selectors.windows(2) {
            assert!(pair[0].specificity() >= pair[1].specificity());
        }
    }
    assert_eq!(
        sheet.rules[0].selectors,
        vec![
            simple(None, Some("c"), &[]),
            simple(Some("d"), None, &["e"]),
            simple(None, None, &["b"]),
            simple(Some("a"), None, &[]),
            simple(None, None, &[]),
        ]
    );
    assert_eq!(
        sheet.rules[1].selectors,
        vec![simple(Some("x"), None, &[]), simple(Some("y"), None, &[])]
    );
    assert_eq!(
        sheet.rules[2].selectors,
        vec![
            simple(Some("s"), Some("t"), &["u", "v"]),
            simple(None, Some("p"), &["q"]),
            simple(None, Some("r"), &[]),
        ]
    );
}

#[test]
fn later_id_and_tag_replace_earlier_ones() {
    let sheet = parse_css(String::from("#a#b{} *p*q{} .c.c{} #{} .{}")).unwrap();
    assert_eq!(sheet.rules[0].selectors, vec![simple(None, Some("b"), &[])]);
    assert_eq!(sheet.rules[1].selectors, vec![simple(Some("q"), None, &[])]);
    assert_eq!(sheet.rules[2].selectors, vec![simple(None, None, &["c", "c"])]);
    assert_eq!(sheet.rules[3].selectors, vec![simple(None, Some(""), &[])]);
    assert_eq!(sheet.rules[4].selectors, vec![simple(None, None, &[""])]);
}

#[test]
fn simple_selector_stops_at_the_first_foreign_character() {
    let mut parser = Parser::new("div.a b");
    assert_eq!(parser.parse_simple_selector(), match simple(Some("div"), None, &["a"]) {
        Selector::Simple(s) => s,
    });
    assert_eq!(parser.parse_identifier(), "");
    let mut parser = Parser::new("");
    assert_eq!(parser.parse_simple_selector(), match simple(None, None, &[]) {
        Selector::Simple(s) => s,
    });
}

#[test]
fn universal_selector_has_no_parts() {
    let sheet = parse_css(String::from("*{}")).unwrap();
    assert_eq!(sheet.rules[0].selectors, vec![simple(None, None, &[])]);
    assert_eq!(sheet.rules[0].selectors[0].specificity(), (0, 0, 0));
}

#[test]
fn selector_list_must_end_in_a_brace() {
    assert_eq!(parse_css(String::from("a b {}")), Err(ParseError::UnexpectedCharacter));
    assert_eq!(parse_css(String::from("a > b {}")), Err(ParseError::UnexpectedCharacter));
    assert_eq!(parse_css(String::from("a;")), Err(ParseError::UnexpectedCharacter));
    assert_eq!(parse_css(String::from("a")), Err(ParseError::EndOfInput));
    assert_eq!(parse_css(String::from("a, ")), Err(ParseError::EndOfInput));
    assert_eq!(parse_css(String::from("a ,\n b\t{}")).unwrap().rules[0].selectors.len(), 2);
}

#[test]
fn selectors_leave_the_brace_unread() {
    let mut parser = Parser::new("b, #a {x:y;}");
    assert_eq!(
        parser.parse_selectors(),
        Ok(vec![simple(None, Some("a"), &[]), simple(Some("b"), None, &[])])
    );
    assert_eq!(
        parser.parse_declarations(),
        Ok(vec![Declaration {
            name: String::from("x"),
            value: Value::Keyword(String::from("y")),
        }])
    );
}

#[test]
fn declaration_needs_its_punctuation() {
    assert_eq!(parse_css(String::from("a{color red;}")), Err(ParseError::StructuralMismatch));
    assert_eq!(parse_css(String::from("a{color:red}")), Err(ParseError::StructuralMismatch));
    assert_eq!(parse_css(String::from("a{color:red")), Err(ParseError::EndOfInput));
    assert_eq!(parse_css(String::from("a{color:")), Err(ParseError::EndOfInput));
    assert_eq!(parse_css(String::from("a{color")), Err(ParseError::EndOfInput));
    assert_eq!(parse_css(String::from("a{")), Err(ParseError::EndOfInput));
    assert_eq!(parse_css(String::from("a{color:red; ")), Err(ParseError::EndOfInput));
    assert_eq!(parse_css(String::from("a{color:red red;}")), Err(ParseError::StructuralMismatch));
    assert_eq!(Parser::new("x:y;").parse_declarations(), Err(ParseError::StructuralMismatch));
    assert_eq!(Parser::new("").parse_declarations(), Err(ParseError::EndOfInput));
}

#[test]
fn declarations_keep_their_order_and_repeats() {
    let sheet = parse_css(String::from("a { x : 1px ; y:#010203;x:2px; }")).unwrap();
    let names: Vec<&str> = sheet.rules[0].declarations.iter().map(|d| d.name.as_str()).collect();
    assert_eq!(names, vec!["x", "y", "x"]);
    assert_eq!(
        sheet.rules[0].declarations[1].value,
        Value::ColorValue(Color { r: 1, g: 2, b: 3, a: 255 })
    );
}

#[test]
fn value_is_chosen_by_its_first_character() {
    assert!(matches!(Parser::new("0px").parse_value(), Ok(Value::Length(_, Unit::Px))));
    assert!(matches!(Parser::new("#000000").parse_value(), Ok(Value::ColorValue(_))));
    assert_eq!(Parser::new("bold").parse_value(), Ok(Value::Keyword(String::from("bold"))));
    assert_eq!(Parser::new(".5px").parse_value(), Ok(Value::Keyword(String::new())));
    assert_eq!(Parser::new("").parse_value(), Err(ParseError::EndOfInput));
    assert_eq!(Parser::new("px").parse_unit(), Ok(Unit::Px));
    assert_eq!(Parser::new("pt").parse_unit(), Err(ParseError::UnexpectedCharacter));
    assert_eq!(Parser::new("12.5px").parse_float().unwrap().as_str(), "12.5");
    assert_eq!(Parser::new(".").parse_float(), Err(ParseError::MalformedLiteral));
    assert_eq!(Parser::new("x").parse_float(), Err(ParseError::MalformedLiteral));
    assert!(matches!(Parser::new("3px").parse_length(), Ok(Value::Length(_, Unit::Px))));
    assert_eq!(Parser::new("blue;").parse_keyword(), Ok(Value::ColorConstValue(String::from("blue"), ColorConst::Blue)));
}

#[test]
fn identifier_is_a_run_of_letters_digits_dash_and_underscore() {
    let mut parser = Parser::new("ab-C_9d!rest");
    assert_eq!(parser.parse_identifier(), "ab-C_9d");
    assert_eq!(parser.parse_identifier(), "");
    assert_eq!(Parser::new("é").parse_identifier(), "");
}

#[test]
fn rule_and_rules() {
    let mut parser = Parser::new("a{} b{}");
    let rule = parser.parse_rule().unwrap();
    assert_eq!(rule.selectors, vec![simple(Some("a"), None, &[])]);
    assert_eq!(parser.parse_rules().unwrap().len(), 1);
    assert_eq!(parser.parse_rules(), Ok(vec![]));
    assert_eq!(Parser::new("a{} }").parse_rules(), Err(ParseError::UnexpectedCharacter));
}

#[test]
fn reading_a_sheet_twice_gives_the_same() {
    let source = "a, #b.c { x: 1px; y: red; z: #123456; }\n.d{}";
    assert_eq!(parse_css(String::from(source)), parse_css(String::from(source)));
    let bad = "a{x:1em;}";
    assert_eq!(parse_css(String::from(bad)), parse_css(String::from(bad)));
}
