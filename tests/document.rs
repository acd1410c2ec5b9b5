use eml::{
    Arrow, Body, Card, CardType, EventModel, Expression, ExpressionId, Field, SvgConfig,
    SvgDocument, Swimlane, TextField,
};

fn empty_document() -> SvgDocument {
    SvgDocument {
        width: 12000,
        height: 12000,
        cards: Vec::new(),
        arrows: Vec::new(),
        swimlane: Swimlane::new(),
    }
}

fn text(name: &str, data: &str) -> Field {
    Field::Text(TextField {
        name: name.to_string(),
        data: data.to_string(),
    })
}

#[test]
fn test_ingest() {
    let expected = "<svg xmlns='http://www.w3.org/2000/svg' width='1650' height='1350'><defs><marker id='triangle' viewBox='0 0 10 10' refX='0' refY='5' markerUnits='strokeWidth' markerWidth='10' markerHeight='8' orient='auto'><path d='M 0 0 L 10 5 L 0 10 z' /></marker></defs><g id='swimlane' stroke='black' stroke-width='3' ><line id='swimlane_top' x1='0' y1='450' x2='1650' y2='450' /><line id='swimlane_bottom' x1='0' y1='900' x2='1650' y2='900' /></g><path d='M 450 225 Q 750 225 750 585' stroke='black' stroke-width='2' fill='none' marker-end='url(#triangle)' /><path d='M 750 750 Q 750 1275 1035 1275' stroke='black' stroke-width='2' fill='none' marker-end='url(#triangle)' /><rect id='AddTodoForm' stroke='black' stroke-width='2' x='150' y='150' height='150' width='300' fill='#ffffff' /><text transform='translate(162.5 162.5)' x='0' y='0' style='white-space: pre;' font-family='monospace' ><tspan x='0' dy='1rem' font-size='larger' font-weight='bold'>AddTodoForm</tspan><tspan x='0' dy='1rem'>==========</tspan><tspan x='0' dy='1rem'>key: todo1</tspan><tspan x='0' dy='1rem'>description: Wake up</tspan></text><rect id='AddTodo' stroke='black' stroke-width='2' x='600' y='600' height='150' width='300' fill='#60b3f7' /><text transform='translate(612.5 612.5)' x='0' y='0' style='white-space: pre;' font-family='monospace' ><tspan x='0' dy='1rem' font-size='larger' font-weight='bold'>AddTodo</tspan><tspan x='0' dy='1rem'>==========</tspan><tspan x='0' dy='1rem'>key: todo1</tspan><tspan x='0' dy='1rem'>description: Wake up</tspan></text><rect id='TodoAdded' stroke='black' stroke-width='2' x='1050' y='1200' height='150' width='300' fill='#f7a660' /><text transform='translate(1062.5 1212.5)' x='0' y='0' style='white-space: pre;' font-family='monospace' ><tspan x='0' dy='1rem' font-size='larger' font-weight='bold'>TodoAdded</tspan><tspan x='0' dy='1rem'>==========</tspan><tspan x='0' dy='1rem'>key: todo1</tspan><tspan x='0' dy='1rem'>description: Wake up</tspan></text></svg>".to_string();
    let mut doc = empty_document();
    let model = EventModel {
        expressions: vec![
            Expression::Form(
                ExpressionId("AddTodoForm".to_string()),
                Body::FieldBody(vec![text("key", "todo1"), text("description", "Wake up")]),
            ),
            Expression::Command(
                ExpressionId("AddTodo".to_string()),
                Body::FieldBody(vec![text("key", "todo1"), text("description", "Wake up")]),
            ),
            Expression::Event(
                ExpressionId("TodoAdded".to_string()),
                Body::FieldBody(vec![text("key", "todo1"), text("description", "Wake up")]),
            ),
            Expression::Flow(
                ExpressionId("flow@0".to_string()),
                vec![
                    ExpressionId("AddTodoForm".to_string()),
                    ExpressionId("AddTodo".to_string()),
                    ExpressionId("TodoAdded".to_string()),
                ],
            ),
        ],
    };
    doc.ingest_expressions(model.expressions).unwrap();
    let config = SvgConfig {
        pad: 150,
        card_width: 300,
        card_height: 150,
    };
    doc.set_dimensions(&config).unwrap();
    let observed = doc.render();
    assert_eq!(observed, expected);
}

#[test]
fn test_document() {
    let expected = "<svg xmlns='http://www.w3.org/2000/svg' width='1650' height='1350'><defs><marker id='triangle' viewBox='0 0 10 10' refX='0' refY='5' markerUnits='strokeWidth' markerWidth='10' markerHeight='8' orient='auto'><path d='M 0 0 L 10 5 L 0 10 z' /></marker></defs><g id='swimlane' stroke='black' stroke-width='3' ><line id='swimlane_top' x1='0' y1='450' x2='1650' y2='450' /><line id='swimlane_bottom' x1='0' y1='900' x2='1650' y2='900' /></g><path d='M 450 225 Q 750 225 750 585' stroke='black' stroke-width='2' fill='none' marker-end='url(#triangle)' /><path d='M 750 750 Q 750 1275 1035 1275' stroke='black' stroke-width='2' fill='none' marker-end='url(#triangle)' /><rect id='form1' stroke='black' stroke-width='2' x='150' y='150' height='150' width='300' fill='#ffffff' /><text transform='translate(162.5 162.5)' x='0' y='0' style='white-space: pre;' font-family='monospace' ><tspan x='0' dy='1rem' font-size='larger' font-weight='bold'>form1</tspan><tspan x='0' dy='1rem'>==========</tspan><tspan x='0' dy='1rem'>Test Form</tspan></text><rect id='cmd1' stroke='black' stroke-width='2' x='600' y='600' height='150' width='300' fill='#60b3f7' /><text transform='translate(612.5 612.5)' x='0' y='0' style='white-space: pre;' font-family='monospace' ><tspan x='0' dy='1rem' font-size='larger' font-weight='bold'>cmd1</tspan><tspan x='0' dy='1rem'>==========</tspan><tspan x='0' dy='1rem'>Test Cmd</tspan></text><rect id='evt1' stroke='black' stroke-width='2' x='1050' y='1200' height='150' width='300' fill='#f7a660' /><text transform='translate(1062.5 1212.5)' x='0' y='0' style='white-space: pre;' font-family='monospace' ><tspan x='0' dy='1rem' font-size='larger' font-weight='bold'>evt1</tspan><tspan x='0' dy='1rem'>==========</tspan><tspan x='0' dy='1rem'>Test Event</tspan><tspan x='0' dy='1rem'>+ foo: str</tspan><tspan x='0' dy='1rem'>+ bar: str</tspan></text></svg>".to_string();
    let mut doc = empty_document();
    doc.cards.push(Card::new(
        "form1".to_string(),
        CardType::Form,
        vec!["Test Form".to_string()],
    ));
    doc.cards.push(Card::new(
        "cmd1".to_string(),
        CardType::Command,
        vec!["Test Cmd".to_string()],
    ));
    doc.arrows.push(
        Arrow::new(
            doc.cards.iter().find(|c| c.id == "form1").unwrap().clone(),
            doc.cards.iter().find(|c| c.id == "cmd1").unwrap().clone(),
        )
        .unwrap(),
    );
    doc.cards.push(Card::new(
        "evt1".to_string(),
        CardType::Event,
        vec![
            "Test Event".to_string(),
            "+ foo: str".to_string(),
            "+ bar: str".to_string(),
        ],
    ));
    doc.arrows.push(
        Arrow::new(
            doc.cards.iter().find(|c| c.id == "cmd1").unwrap().clone(),
            doc.cards.iter().find(|c| c.id == "evt1").unwrap().clone(),
        )
        .unwrap(),
    );
    let config = SvgConfig {
        pad: 150,
        card_width: 300,
        card_height: 150,
    };
    doc.set_dimensions(&config).unwrap();
    let observed = doc.render();

    assert_eq!(expected, observed);
}
