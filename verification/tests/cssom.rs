use mono_core::cssom::{ComponentValue, CssParser, Declaration, QualifiedRule, Selector};
use mono_core::token::{CssToken, CssTokenizer};

fn parse(style: &str) -> mono_core::cssom::StyleSheet {
    let t = CssTokenizer::new(style.to_string());
    CssParser::new(t).parse_stylesheet()
}

/// The numeric value of a number token, read from the digits and dots it holds.
fn number_value(token: &CssToken) -> f64 {
    match token {
        CssToken::Number(text) => {
            let mut value = 0f64;
            let mut fraction = false;
            let mut scale = 1f64;
            for c in text.chars() {
                if c == '.' {
                    fraction = true;
                } else {
                    let d = c.to_digit(10).unwrap() as f64;
                    if fraction {
                        scale /= 10f64;
                        value += d * scale;
                    } else {
                        value = value * 10f64 + d;
                    }
                }
            }
            value
        }
        _ => panic!("not a number token: {:?}", token),
    }
}

#[test]
fn test_empty() {
    let style = "".to_string();
    let t = CssTokenizer::new(style);
    let cssom = CssParser::new(t).parse_stylesheet();

    assert_eq!(cssom.rules.len(), 0);
}

#[test]
fn test_one_rule() {
    let style = "p { color: red; }".to_string();
    let t = CssTokenizer::new(style);
    let cssom = CssParser::new(t).parse_stylesheet();

    let mut rule = QualifiedRule::new();
    rule.selector = Selector::TypeSelector("p".to_string());

    let mut declaration = Declaration {
        property: "color".to_string(),
        value: ComponentValue::Ident("red".to_string()),
    };
    declaration.property = "color".to_string();
    declaration.value = ComponentValue::Ident("red".to_string());

    rule.declarations = vec![declaration];

    let expected = [rule];

    assert_eq!(cssom.rules.len(), expected.len());

    let mut i = 0;
    for rule in &cssom.rules {
        assert_eq!(&expected[i], rule);

        i += 1;
    }
}

#[test]
fn test_id_selector() {
    let style = "#id { color: red; }".to_string();
    let t = CssTokenizer::new(style);
    let cssom = CssParser::new(t).parse_stylesheet();

    let mut rule = QualifiedRule::new();
    rule.selector = Selector::IdSelector("id".to_string());

    let mut declaration = Declaration::new();
    declaration.property = "color".to_string();
    declaration.value = ComponentValue::Ident("red".to_string());

    rule.declarations = vec![declaration];

    let expected = [rule];

    assert_eq!(cssom.rules.len(), expected.len());

    let mut i = 0;
    for rule in &cssom.rules {
        assert_eq!(&expected[i], rule);

        i += 1;
    }
}

#[test]
fn test_class_selector() {
    let style = ".class { color: red; }".to_string();
    let t = CssTokenizer::new(style);
    let cssom = CssParser::new(t).parse_stylesheet();

    let mut rule = QualifiedRule::new();
    rule.selector = Selector::ClassSelector("class".to_string());

    let mut declaration = Declaration::new();
    declaration.property = "color".to_string();
    declaration.value = ComponentValue::Ident("red".to_string());

    rule.declarations = vec![declaration];

    let expected = [rule];

    assert_eq!(cssom.rules.len(), expected.len());

    let mut i = 0;
    for rule in &cssom.rules {
        assert_eq!(&expected[i], rule);

        i += 1;
    }
}

#[test]
fn test_multiple_rules() {
    let style = "p { content: \"Hey\"; } h1 { font-size: 40; color: blue; }".to_string();
    let t = CssTokenizer::new(style);
    let cssom = CssParser::new(t).parse_stylesheet();

    let mut rule1 = QualifiedRule::new();
    rule1.selector = Selector::TypeSelector("p".to_string());

    let mut declaration1 = Declaration::new();
    declaration1.property = "content".to_string();
    declaration1.value = ComponentValue::StringToken("Hey".to_string());

    rule1.declarations = vec![declaration1];

    let mut rule2 = QualifiedRule::new();
    rule2.selector = Selector::TypeSelector("h1".to_string());

    let mut declaration2 = Declaration::new();
    declaration2.property = "font-size".to_string();
    // The number token keeps its digits; its value is 40.0.
    declaration2.value = ComponentValue::Number("40".to_string());
    assert_eq!(number_value(&declaration2.value), 40.0);

    let mut declaration3 = Declaration::new();
    declaration3.property = "color".to_string();
    declaration3.value = ComponentValue::Ident("blue".to_string());

    rule2.declarations = vec![declaration2, declaration3];

    let expected = [rule1, rule2];
    assert_eq!(cssom.rules.len(), expected.len());

    let mut i = 0;
    for rule in &cssom.rules {
        assert_eq!(&expected[i], rule);

        i += 1;
    }
    assert_eq!(number_value(&cssom.rules[1].declarations[0].value), 40.0);
}
