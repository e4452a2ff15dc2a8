use rxr::dict::Dict;
use rxr::template::{Evaluation, Template, TemplateError};

fn get_mapping() -> Dict<String> {
    let mut map = Dict::new();
    map.insert(String::from("key_a"), String::from("val_a"));
    map.insert(String::from("key_b"), String::from("val_b"));
    map.insert(String::from("key_c"), String::from("val_c"));
    map
}

fn get_expansion_items() -> Vec<String> {
    vec!["alpha", "bravo", "charlie", "delta"].into_iter().map(String::from).collect()
}

fn expanded(template: &str, items: &Vec<String>, map: &Dict<String>) -> Vec<String> {
    match Template::new(template).expand(items, map) {
        Ok(lines) => lines,
        Err(error) => panic!("{}", error.message()),
    }
}

#[test]
fn compile_vectors() {
    let template = Template::new("{key_a} : {{$i}} - {{$val}}");
    let mappings = get_mapping();
    let items = get_expansion_items();

    let compiled = match template.expand(&items, &mappings) {
        Ok(lines) => lines,
        Err(error) => panic!("{}", error.message()),
    };

    let expected = vec![
        String::from("val_a : 0 - alpha"),
        String::from("val_a : 1 - bravo"),
        String::from("val_a : 2 - charlie"),
        String::from("val_a : 3 - delta"),
    ];

    assert_eq!(compiled, expected);
}

#[test]
fn compile_vectors_with_math_expression() {
    let template = Template::new("{key_b} : {{$i+1}} - {{$val}}");
    let mappings = get_mapping();
    let items = get_expansion_items();

    let compiled = match template.expand(&items, &mappings) {
        Ok(lines) => lines,
        Err(error) => panic!("{}", error.message()),
    };

    let expected = vec![
        String::from("val_b : 1 - alpha"),
        String::from("val_b : 2 - bravo"),
        String::from("val_b : 3 - charlie"),
        String::from("val_b : 4 - delta"),
    ];

    assert_eq!(compiled, expected);
}

#[test]
fn compile_vectors_with_math_expression_2() {
    let template = Template::new("{key_c} : {{($i+1) * 2}} - {{$val}}");
    let mappings = get_mapping();
    let items = get_expansion_items();

    let compiled = match template.expand(&items, &mappings) {
        Ok(lines) => lines,
        Err(error) => panic!("{}", error.message()),
    };

    let expected = vec![
        String::from("val_c : 2 - alpha"),
        String::from("val_c : 4 - bravo"),
        String::from("val_c : 6 - charlie"),
        String::from("val_c : 8 - delta"),
    ];

    assert_eq!(compiled, expected);
}

#[test]
fn expansion_keeps_the_order_of_the_items_and_has_no_memory() {
    let mut map = Dict::new();
    map.insert(String::from("k"), String::from("X"));
    let items = vec![String::from("a"), String::from("b")];
    let first = expanded("{k}:{{$i}}-{{$val}}", &items, &map);
    assert_eq!(first, vec![String::from("X:0-a"), String::from("X:1-b")]);
    let second = expanded("{k}:{{$i}}-{{$val}}", &items, &map);
    assert_eq!(first, second);
}

#[test]
fn expansion_of_no_items_is_empty() {
    let map = get_mapping();
    assert!(expanded("{key_a} {{$i}}", &vec![], &map).is_empty());
}

#[test]
fn expansion_without_expressions_repeats_the_filled_text() {
    let map = get_mapping();
    let items = get_expansion_items();
    assert_eq!(expanded("{key_a}!", &items, &map), vec!["val_a!"; 4]);
}

#[test]
fn missing_key_fails_and_names_the_key() {
    let template = Template::new("{missing}");
    match template.substitute(&Dict::new()) {
        Ok(text) => panic!("nothing should be returned, got {}", text),
        Err(TemplateError::MissingSubstitutionKey { key }) => assert_eq!(key, "missing"),
        Err(other) => panic!("{}", other.message()),
    }
    match template.expand(&get_expansion_items(), &Dict::new()) {
        Err(TemplateError::MissingSubstitutionKey { key }) => assert_eq!(key, "missing"),
        _ => panic!("the expansion should fail on the missing key"),
    }
}

#[test]
fn first_missing_key_is_reported() {
    let template = Template::new("{key_a} {nope} {also_nope}");
    match template.substitute(&get_mapping()) {
        Err(error) => {
            assert!(matches!(&error, TemplateError::MissingSubstitutionKey { key } if key == "nope"));
            assert_eq!(error.message(), "no substitution found for key: nope");
        }
        Ok(_) => panic!("a key is missing"),
    }
}

#[test]
fn substitute_fills_every_placeholder() {
    let template = Template::new("{key_a}/{key_b}/{key_a}/{}");
    let mut map = get_mapping();
    map.insert(String::new(), String::from("empty"));
    match template.substitute(&map) {
        Ok(text) => assert_eq!(text, "val_a/val_b/val_a/empty"),
        Err(error) => panic!("{}", error.message()),
    }
}

#[test]
fn tokens_are_found_as_the_two_patterns_find_them() {
    let placeholder = regex::Regex::new("\\{[_a-zA-Z0-9]*?\\}").unwrap();
    let expression = regex::Regex::new("\\{{2}.*?\\}{2}").unwrap();
    let texts = [
        "",
        "{key_a} : {{$i}} - {{$val}}",
        "{a}{b}{{c}}{d",
        "{{abc}}",
        "{{{x}}}",
        "{ a }{b-c}{_1}{}",
        "{{}}{{ }}}}",
        "{{a}{{b}}",
        "}}{{a\n}}{{b}}",
        "{{{{a}}}}",
        "plain",
        "{{unclosed",
        "{{a}} {b} {{c}} {d} {{e",
        "{é}{{é}}",
    ];
    for text in texts.iter() {
        let template = Template::new(text);
        let placeholders: Vec<String> =
            placeholder.find_iter(text).map(|m| m.as_str().to_string()).collect();
        let expressions: Vec<String> =
            expression.find_iter(text).map(|m| m.as_str().to_string()).collect();
        assert_eq!(template.placeholders(), &placeholders, "placeholders of {:?}", text);
        assert_eq!(template.expressions(), &expressions, "expressions of {:?}", text);
        assert_eq!(template.as_str(), *text);
    }
}

#[test]
fn expression_that_cannot_be_evaluated_is_an_error() {
    let template = Template::new("{{+1}}");
    match template.expand(&vec![String::from("a")], &Dict::new()) {
        Err(error) => {
            assert!(
                matches!(&error, TemplateError::EvaluationFailed { expression } if expression == "+1")
            );
            assert_eq!(error.message(), "could not evaluate expression: +1");
        }
        Ok(_) => panic!("the expression cannot be evaluated"),
    }
}

#[test]
fn expression_of_another_type_is_an_error() {
    let template = Template::new("x {{ true }}");
    match template.expand(&vec![String::from("a")], &Dict::new()) {
        Err(error) => {
            assert!(
                matches!(&error, TemplateError::UnsupportedValue { expression } if expression == " true ")
            );
            assert_eq!(
                error.message(),
                "expression is neither a number nor a string:  true "
            );
        }
        Ok(_) => panic!("a truth value is no text"),
    }
}

#[test]
fn a_failure_ends_the_whole_expansion() {
    let template = Template::new("{{$val + 1}}");
    let items = vec![String::from("a")];
    assert!(template.expand(&items, &Dict::new()).is_err());
}

#[test]
fn replace_token_takes_the_evaluation_as_it_is() {
    let done = Template::replace_token("a {{x}} b {{x}}", "{{x}}", Ok(Evaluation::Text(String::from("7"))));
    assert!(matches!(done, Ok(text) if text == "a 7 b 7"));
    let unsupported = Template::replace_token("a {{x}}", "{{x}}", Ok(Evaluation::Unsupported));
    assert!(
        matches!(unsupported, Err(TemplateError::UnsupportedValue { expression }) if expression == "x")
    );
    let failed = Template::replace_token(
        "a {{x}}",
        "{{x}}",
        Err(eval::Error::Custom(String::from("no"))),
    );
    assert!(matches!(failed, Err(TemplateError::EvaluationFailed { expression }) if expression == "x"));
}

fn failure_of(expression: &str, items: usize) -> Option<String> {
    let template = Template::new(&format!("{{{{ {} }}}}", expression));
    let items: Vec<String> = (0..items).map(|i| format!("item{}", i)).collect();
    match template.expand(&items, &Dict::new()) {
        Err(TemplateError::EvaluationFailed { expression }) => Some(expression),
        _ => None,
    }
}

#[test]
fn expressions_that_are_not_well_made_are_not_evaluated() {
    let expressions = [
        "\u{e9}+1",
        "]",
        "[",
        "()",
        "(+)",
        "!",
        "-1",
        "1+",
        "1 2",
        "(1",
        "1)",
        ")(",
        "$i % 0",
        "$i - 18446744073709551615",
        "9223372036854775807",
        "3037000500 * 3037000500",
        "min(1, 2)",
        "1 == 1",
        "$i(1)",
        "1e5",
        "$val + \"x\"",
        "1\t+ 1",
        "",
        " ",
    ];
    for expression in expressions.iter() {
        assert_eq!(failure_of(expression, 2), Some(format!(" {} ", expression)), "{:?}", expression);
        assert!(!rxr::expression::can_evaluate(expression, 1), "{:?}", expression);
    }
    let long = vec!["0"; 128].join("+");
    assert_eq!(long.len(), 255);
    assert!(rxr::expression::can_evaluate(&long, 0));
    assert!(!rxr::expression::can_evaluate(&format!("{}+1", long), 0));
}

#[test]
fn expressions_within_the_numbers_of_the_machine_are_evaluated() {
    assert!(rxr::expression::can_evaluate("9223372036854775806", 0));
    assert!(!rxr::expression::can_evaluate("9223372036854775806 + 1", 0));
    assert!(rxr::expression::can_evaluate("$i", usize::MAX / 2 - 1));
    assert!(!rxr::expression::can_evaluate("$i", usize::MAX / 2));
    assert!(rxr::expression::can_evaluate("$i * $i", 3037000498));
    assert!(!rxr::expression::can_evaluate("$i * $i", 3037000499));
    assert!(rxr::expression::can_evaluate(" ( $i + 007 ) * ( 2 - $val ) / name ", 5));

    let map = Dict::new();
    let items = vec![String::from("a"), String::from("b"), String::from("c")];
    assert_eq!(expanded("{{$i * 3 - 4}}", &items, &map), vec!["-4", "-1", "2"]);
    assert_eq!(expanded("{{2*($i+1)*($i+1)}}", &items, &map), vec!["2", "8", "18"]);
    assert_eq!(expanded("{{$val + $val}}", &items, &map), vec!["aa", "bb", "cc"]);
    assert_eq!(expanded("{{1+2*3+4*5}}", &items[..1].to_vec(), &map), vec!["27"]);
    assert_eq!(expanded("{{100-10-1}}", &items[..1].to_vec(), &map), vec!["89"]);
    assert_eq!(expanded("{{(3)}}-{{ 4 }}", &items[..1].to_vec(), &map), vec!["3-4"]);
}

#[test]
fn every_short_expression_is_evaluated_or_turned_down() {
    let alphabet = ['1', '9', '$', 'i', 'v', '+', '-', '*', '/', '(', ')', ' ', ']', '%'];
    let mut count: usize = 0;
    let mut texts: Vec<String> = vec![String::new()];
    for _ in 0..5 {
        let mut longer: Vec<String> = vec![];
        for text in texts.iter() {
            for c in alphabet.iter() {
                let mut next = text.clone();
                next.push(*c);
                longer.push(next);
            }
        }
        for text in longer.iter() {
            if rxr::expression::can_evaluate(text, 2) {
                count += 1;
                let template = Template::new(&format!("{{{{ {} }}}}", text));
                let items = vec![String::from("a"), String::from("b"), String::from("c")];
                match template.expand(&items, &Dict::new()) {
                    Err(TemplateError::MissingSubstitutionKey { key }) => panic!("{}", key),
                    _ => {}
                }
            }
        }
        texts = longer;
    }
    assert!(count > 1000);
}
