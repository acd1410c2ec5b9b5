use eml::parse::{
    eml_version, expressions, fields, fields_block, flow_block, textfield, use_block, Version,
};
use eml::{Body, Expression, ExpressionId, Field, TextField};

fn text(name: &str, data: &str) -> Field {
    Field::Text(TextField {
        name: name.to_string(),
        data: data.to_string(),
    })
}

#[test]
fn test_eml_version() {
    let input = "# eml: 0.0.1";
    let expected = Version {
        major: 0,
        minor: 0,
        fix: 1,
    };
    let (_, observed) = eml_version(input).unwrap();
    assert_eq!(expected, observed)
}

#[test]
fn test_textfield() {
    let input = "foo: bar";
    let expected = text("foo", "bar");
    let (_, observed) = textfield(input).unwrap();
    assert_eq!(expected, observed)
}

#[test]
fn test_fields_newline() {
    let input = "foo: bar\n    baz: ooka";
    let expected = vec![text("foo", "bar"), text("baz", "ooka")];
    let (_, observed) = fields(input).unwrap();
    assert_eq!(expected, observed)
}

#[test]
fn test_fields_csv() {
    let input = "foo: bar, baz: ooka";
    let expected = vec![text("foo", "bar"), text("baz", "ooka")];
    let (_, observed) = fields(input).unwrap();
    assert_eq!(expected, observed)
}

#[test]
fn test_fields_block_multiline() {
    let input = "{\n  foo: bar, baz: ooka\n}";
    let expected = Body::FieldBody(vec![text("foo", "bar"), text("baz", "ooka")]);
    let (_, observed) = fields_block(input).unwrap();
    assert_eq!(expected, observed)
}

#[test]
fn test_fields_block_inline() {
    let input = "{foo: bar, baz: ooka}";
    let expected = Body::FieldBody(vec![text("foo", "bar"), text("baz", "ooka")]);
    let (_, observed) = fields_block(input).unwrap();
    assert_eq!(expected, observed)
}

#[test]
fn test_flow_block() {
    let input = "{Foo =>Bar => Baz }";
    let expected = vec![
        ExpressionId("Foo".to_string()),
        ExpressionId("Bar".to_string()),
        ExpressionId("Baz".to_string()),
    ];
    let (_, observed) = flow_block(input).unwrap();
    assert_eq!(expected, observed);
}

#[test]
fn test_use_block_01() {
    let input = "{ use FooBar}";
    let expected = Body::UseBody(ExpressionId("FooBar".to_string()));
    let (_, observed) = use_block(input).unwrap();
    assert_eq!(expected, observed)
}

#[test]
fn test_use_block_02() {
    let input = "{use FooBar}";
    let expected = Body::UseBody(ExpressionId("FooBar".to_string()));
    let (_, observed) = use_block(input).unwrap();
    assert_eq!(expected, observed)
}

#[test]
fn test_use_block_03() {
    let input = "{use FooBar }";
    let expected = Body::UseBody(ExpressionId("FooBar".to_string()));
    let (_, observed) = use_block(input).unwrap();
    assert_eq!(expected, observed)
}

#[test]
fn test_parse_body_01() {
    let input = "form FooForm {}";
    let expected = vec![Expression::Form(
        ExpressionId("FooForm".to_string()),
        Body::FieldBody(vec![]),
    )];
    let (_, observed) = expressions(input).unwrap();
    assert_eq!(expected, observed)
}

#[test]
fn test_parse_body_02() {
    let input = "form FooForm { foo:bar}";
    let expected = vec![Expression::Form(
        ExpressionId("FooForm".to_string()),
        Body::FieldBody(vec![text("foo", "bar")]),
    )];
    let (_, observed) = expressions(input).unwrap();
    assert_eq!(expected, observed)
}

#[test]
fn test_parse_body_03() {
    let input = "form FooForm {\n    foo: bar\n}\ncommand AddBar {\n    foo: bar\n}\n\n";
    let expected = vec![
        Expression::Form(
            ExpressionId("FooForm".to_string()),
            Body::FieldBody(vec![text("foo", "bar")]),
        ),
        Expression::Command(
            ExpressionId("AddBar".to_string()),
            Body::FieldBody(vec![text("foo", "bar")]),
        ),
    ];
    let (_, observed) = expressions(input).unwrap();
    assert_eq!(expected, observed)
}

#[test]
fn test_parse_body_04() {
    let input = "form FooForm {\n    foo: bar\n}\ncommand AddBar { use FooForm}\n";
    let expected = vec![
        Expression::Form(
            ExpressionId("FooForm".to_string()),
            Body::FieldBody(vec![text("foo", "bar")]),
        ),
        Expression::Command(
            ExpressionId("AddBar".to_string()),
            Body::UseBody(ExpressionId("FooForm".to_string())),
        ),
    ];
    let (_, observed) = expressions(input).unwrap();
    assert_eq!(expected, observed)
}

#[test]
fn test_parse_body_05() {
    let input = "view TodoList {\n  | CustomerId | state  |\n  |------------|--------|\n  | 123        | done   |\n  | 456        | todo   |\n  | 789        | todo   |\n}\n";
    let expected = vec![Expression::View(
        ExpressionId("TodoList".to_string()),
        Body::TableBody(vec![
            "".to_string(),
            "| CustomerId | state  |".to_string(),
            "|------------|--------|".to_string(),
            "| 123        | done   |".to_string(),
            "| 456        | todo   |".to_string(),
            "| 789        | todo   |".to_string(),
            "".to_string(),
        ]),
    )];
    let (_, observed) = expressions(input).unwrap();
    assert_eq!(expected, observed)
}
