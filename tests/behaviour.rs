use eml::arrow::{line_intersection, Direction};
use eml::parse::{expression, raw_block};
use eml::{
    parse, process, Arrow, Body, Card, CardType, EmlError, Expression, ExpressionId, Field,
    Point, SvgConfig, SvgDocument, TextField,
};

fn config() -> SvgConfig {
    SvgConfig {
        pad: 150,
        card_width: 300,
        card_height: 150,
    }
}

fn id(s: &str) -> ExpressionId {
    ExpressionId(s.to_string())
}

fn card(name: &str, t: CardType) -> Card {
    Card::new(name.to_string(), t, vec![])
}

fn fields_of(pairs: &[(&str, &str)]) -> Body {
    Body::FieldBody(
        pairs
            .iter()
            .map(|(n, d)| {
                Field::Text(TextField {
                    name: n.to_string(),
                    data: d.to_string(),
                })
            })
            .collect(),
    )
}

#[test]
fn rendering_twice_gives_the_same_text() {
    let input = "# eml: 0.0.1\nform A {}\ncommand B {}\nevent C {}\nflow {A => B => C}\n";
    let first = process(input, &config()).unwrap();
    let second = process(input, &config()).unwrap();
    assert_eq!(first, second);
    let build = || {
        let mut doc = SvgDocument::new();
        doc.ingest_expressions(parse(input).unwrap().expressions).unwrap();
        doc.set_dimensions(&config()).unwrap();
        doc
    };
    assert_eq!(build().render(), build().render());
}

#[test]
fn rows_follow_card_types() {
    let mut doc = SvgDocument::new();
    doc.add_cards(vec![
        card("F", CardType::Form),
        card("J", CardType::Job),
        card("C", CardType::Command),
        card("V", CardType::View),
        card("E", CardType::Event),
    ]);
    let cfg = SvgConfig {
        pad: 10,
        card_width: 40,
        card_height: 20,
    };
    doc.set_dimensions(&cfg).unwrap();
    let ys: Vec<i128> = doc.cards.iter().map(|c| c.origin.y).collect();
    assert_eq!(ys, vec![120, 120, 600, 600, 1320]);
}

#[test]
fn columns_advance_in_declaration_order() {
    let mut doc = SvgDocument::new();
    doc.add_cards(vec![
        card("E", CardType::Event),
        card("F", CardType::Form),
        card("C", CardType::Command),
    ]);
    doc.set_dimensions(&config()).unwrap();
    let xs: Vec<i128> = doc.cards.iter().map(|c| c.origin.x).collect();
    assert_eq!(xs, vec![1800, 7200, 12600]);
    assert!(xs[0] < xs[1] && xs[1] < xs[2]);
}

#[test]
fn canvas_size_follows_the_fixed_budget() {
    let input = "# eml: 0.0.1\nform A{}\ncommand B{}\nevent C{}\nflow{A=>B=>C}";
    let model = parse(input).unwrap();
    let mut doc = SvgDocument::new();
    doc.ingest_expressions(model.expressions).unwrap();
    doc.set_dimensions(&config()).unwrap();
    assert_eq!(doc.width, 1650 * 12);
    assert_eq!(doc.height, 1350 * 12);
    assert_eq!(doc.swimlane.top, 450 * 12);
    assert_eq!(doc.swimlane.bottom, 900 * 12);
    assert_eq!(doc.swimlane.width, 1650 * 12);
    assert_eq!(doc.arrows.len(), 2);
}

#[test]
fn arrow_from_view_to_event_is_illegal() {
    let r = Arrow::new(card("V", CardType::View), card("E", CardType::Event));
    assert_eq!(
        r.unwrap_err(),
        EmlError::IllegalArrow("V".to_string(), "E".to_string())
    );
    let ok = Arrow::new(card("E", CardType::Event), card("V", CardType::View));
    assert!(ok.is_ok());
}

#[test]
fn illegal_flow_fails_at_ingestion() {
    let input = "# eml: 0.0.1\nview V { use X }\n";
    assert!(parse(input).is_ok());
    let input = "# eml: 0.0.1\nform F {}\nevent E {}\nflow { F => E }\n";
    let mut doc = SvgDocument::new();
    let r = doc.ingest_expressions(parse(input).unwrap().expressions);
    assert_eq!(
        r.unwrap_err(),
        EmlError::IllegalArrow("F".to_string(), "E".to_string())
    );
    assert!(doc.cards.is_empty());
    assert!(doc.arrows.is_empty());
}

#[test]
fn illegal_arrow_fails_at_layout() {
    let mut doc = SvgDocument::new();
    doc.add_cards(vec![card("V", CardType::View), card("E", CardType::Event)]);
    doc.add_arrows(vec![Arrow {
        begin_at: card("V", CardType::View),
        end_at: card("E", CardType::Event),
    }]);
    let r = doc.set_dimensions(&config());
    assert_eq!(
        r.unwrap_err(),
        EmlError::IllegalArrow("V".to_string(), "E".to_string())
    );
    assert_eq!(doc.width, 0);
}

#[test]
fn arrow_to_missing_card_fails_at_layout() {
    let mut doc = SvgDocument::new();
    doc.add_cards(vec![card("F", CardType::Form)]);
    doc.add_arrows(vec![Arrow::new(card("F", CardType::Form), card("C", CardType::Command)).unwrap()]);
    let r = doc.set_dimensions(&config());
    assert_eq!(r.unwrap_err(), EmlError::UnresolvedReference("C".to_string()));
}

#[test]
fn view_use_duplicates_an_existing_card() {
    let (_, body) = eml::parse::use_block("{use FooForm}").unwrap();
    assert_eq!(body, Body::UseBody(id("FooForm")));
    let mut doc = SvgDocument::new();
    doc.ingest_expressions(vec![
        Expression::Form(id("FooForm"), fields_of(&[("key", "a")])),
        Expression::View(id("TodoView"), body),
    ])
    .unwrap();
    assert_eq!(doc.cards.len(), 2);
    assert_eq!(doc.cards[1].id, "FooForm");
    assert_eq!(doc.cards[1].card_type, CardType::Form);
    assert_eq!(doc.cards[1].text_lines, vec!["key: a".to_string()]);
}

#[test]
fn view_use_of_undeclared_id_fails() {
    let mut doc = SvgDocument::new();
    let r = doc.ingest_expressions(vec![
        Expression::Form(id("Other"), fields_of(&[])),
        Expression::View(id("TodoView"), Body::UseBody(id("FooForm"))),
    ]);
    assert_eq!(r.unwrap_err(), EmlError::UnresolvedReference("FooForm".to_string()));
    assert!(doc.cards.is_empty());
}

#[test]
fn flow_of_three_ids_makes_two_arrows() {
    let (_, ids) = eml::parse::flow_block("{Foo => Bar => Baz}").unwrap();
    assert_eq!(ids, vec![id("Foo"), id("Bar"), id("Baz")]);
    let mut doc = SvgDocument::new();
    doc.ingest_expressions(vec![
        Expression::Form(id("Foo"), fields_of(&[])),
        Expression::Command(id("Bar"), fields_of(&[])),
        Expression::Event(id("Baz"), fields_of(&[])),
        Expression::Flow(id("flow@0"), ids),
    ])
    .unwrap();
    assert_eq!(doc.arrows.len(), 2);
    assert_eq!(doc.arrows[0].begin_at.id, "Foo");
    assert_eq!(doc.arrows[0].end_at.id, "Bar");
    assert_eq!(doc.arrows[1].begin_at.id, "Bar");
    assert_eq!(doc.arrows[1].end_at.id, "Baz");
}

#[test]
fn flow_to_undeclared_id_fails() {
    let input = "# eml: 0.0.1\nform A {}\nflow {A => Missing}\n";
    let r = process(input, &config());
    assert_eq!(r.unwrap_err(), EmlError::UnresolvedReference("Missing".to_string()));
}

#[test]
fn form_with_quoted_field() {
    let model = parse("# eml: 0.0.1\n\nform F { key: \"a\" }").unwrap();
    assert_eq!(
        model.expressions,
        vec![Expression::Form(id("F"), fields_of(&[("key", "a")]))]
    );
}

#[test]
fn bare_values_lose_trailing_spaces() {
    let model = parse("# eml: 0.0.1\nform F { key: a b  , other: \"x, y\" }").unwrap();
    assert_eq!(
        model.expressions,
        vec![Expression::Form(id("F"), fields_of(&[("key", "a b"), ("other", "x, y")]))]
    );
}

#[test]
fn flows_get_ids_from_their_offset() {
    let model = parse("# eml: 1.2.3\nflow {A}\n").unwrap();
    assert_eq!(model.expressions, vec![Expression::Flow(id("flow@13"), vec![id("A")])]);
    let (n, x) = expression("flow{A=>B}").unwrap();
    assert_eq!(n, 10);
    assert_eq!(x, Expression::Flow(id("flow@0"), vec![id("A"), id("B")]));
}

#[test]
fn bad_version_is_refused() {
    assert_eq!(parse("# eml 0.0.1\n").unwrap_err(), EmlError::BadVersion);
    assert_eq!(parse("form A {}\n").unwrap_err(), EmlError::BadVersion);
    assert_eq!(parse("# eml: 1.2\n").unwrap_err(), EmlError::BadVersion);
    assert_eq!(parse("# eml: 4294967296.0.0\n").unwrap_err(), EmlError::BadVersion);
    assert!(parse("# eml: 4294967295.0.0\n").is_ok());
    assert!(parse("#eml:1.0.0").is_ok());
}

#[test]
fn syntax_error_gives_its_offset() {
    assert_eq!(
        parse("# eml: 0.0.1\nform A {}\nbogus").unwrap_err(),
        EmlError::SyntaxError(23)
    );
    assert_eq!(parse("# eml: 0.0.1\nformA {}").unwrap_err(), EmlError::SyntaxError(13));
    assert_eq!(parse("# eml: 0.0.1\nflow {}").unwrap_err(), EmlError::SyntaxError(13));
    assert!(parse("# eml: 0.0.1\n\n  \n").unwrap().expressions.is_empty());
}

#[test]
fn fields_body_is_required_for_forms() {
    let mut doc = SvgDocument::new();
    let r = doc.ingest_expressions(parse("# eml: 0.0.1\nform A { use B }").unwrap().expressions);
    assert_eq!(r.unwrap_err(), EmlError::InvalidBody("A".to_string()));
    let mut doc = SvgDocument::new();
    let r = doc.ingest_expressions(vec![Expression::Event(
        id("E"),
        Body::TableBody(vec!["x".to_string()]),
    )]);
    assert_eq!(r.unwrap_err(), EmlError::InvalidBody("E".to_string()));
}

#[test]
fn raw_blocks_keep_trimmed_lines() {
    let (n, body) = raw_block("{ a | b\n\t  c }rest").unwrap();
    assert_eq!(n, 14);
    assert_eq!(body, Body::TableBody(vec!["a | b".to_string(), "c ".to_string()]));
}

#[test]
fn parallel_lines_are_degenerate() {
    let p = Point { x: 12, y: 24 };
    let q = Point { x: 36, y: 48 };
    assert_eq!(
        line_intersection(p, Direction::Vertical, q, Direction::Vertical),
        Err(EmlError::DegenerateGeometry)
    );
    assert_eq!(
        line_intersection(p, Direction::Vertical, q, Direction::Horizontal),
        Ok(Point { x: 12, y: 48 })
    );
    assert_eq!(
        line_intersection(p, Direction::Horizontal, q, Direction::Vertical),
        Ok(Point { x: 36, y: 24 })
    );
}

#[test]
fn fractions_of_units_are_written_exactly() {
    let mut c = Card::new("X".to_string(), CardType::View, vec!["l".to_string()]);
    c.set_origin(-6, 13);
    c.set_dimensions(3, 1, 2);
    let svg = c.render();
    assert!(svg.starts_with(
        "<rect id='X' stroke='black' stroke-width='2' x='-0.5' y='1.0833' height='0.0833' width='0.25' fill='#60f765' />"
    ));
    assert!(svg.contains("translate(-0.5 1.0833)"));
    assert!(svg.ends_with("<tspan x='0' dy='1rem'>l</tspan></text>"));
}

#[test]
fn arrow_anchors_and_tips() {
    let mut e = card("E", CardType::Event);
    e.set_origin(0, 0);
    e.set_dimensions(120, 60, 0);
    let mut v = card("V", CardType::View);
    v.set_origin(240, -120);
    v.set_dimensions(120, 60, 0);
    let a = Arrow::new(e, v).unwrap();
    assert_eq!(a.get_points(), (Point { x: 120, y: 30 }, Point { x: 300, y: -60 }));
    assert_eq!(a.control_point(), Point { x: 300, y: 30 });
    assert_eq!(a.tip(), Point { x: 300, y: 120 });
    assert_eq!(
        a.render(),
        "<path d='M 10 2.5 Q 25 2.5 25 10' stroke='black' stroke-width='2' fill='none' marker-end='url(#triangle)' />"
    );
}

#[test]
fn empty_document_renders_canvas_only() {
    let mut doc = SvgDocument::new();
    doc.set_dimensions(&config()).unwrap();
    let svg = doc.render();
    assert!(svg.starts_with("<svg xmlns='http://www.w3.org/2000/svg' width='300' height='1350'>"));
    assert!(svg.ends_with("x2='300' y2='900' /></g></svg>"));
}

#[test]
fn get_card_finds_the_first_match() {
    let mut doc = SvgDocument::new();
    doc.add_cards(vec![card("A", CardType::Form), card("A", CardType::Event)]);
    assert_eq!(doc.get_card(id("A")).unwrap().card_type, CardType::Form);
    assert_eq!(
        doc.get_card(id("B")).unwrap_err(),
        EmlError::UnresolvedReference("B".to_string())
    );
}
