use oelung::{
    Absolute, Color, Component, Cursor, CursorRelativeBuilderEmpty, Error, FlexColumnBuilder,
    Offset, Overflow, Relative, Style, StyleBuilder, TextBuilder, TextChild, FLEX_GROW_ONE,
};

fn text(s: &str) -> Component<'static> {
    Component::Text(TextBuilder::default().text_child(s.to_string()).build().unwrap())
}

#[test]
fn text_without_children_is_an_error() {
    match TextBuilder::default().color(Color::Red).build() {
        Err(Error::TextBuilder(m)) => assert_eq!(m, "empty children"),
        _ => panic!("expected the builder error"),
    }
}

#[test]
fn text_builder_keeps_children_cursor_and_colors() {
    let cursor = Cursor::relative().x(2).y(3);
    let t = TextBuilder::default()
        .text_child("a".to_string())
        .nested_child(TextBuilder::default().text_child("b".to_string()).build().unwrap())
        .cursor(cursor)
        .background_color(Color::AnsiValue(7))
        .build()
        .unwrap();
    assert_eq!(t.children.len(), 2);
    assert!(matches!(&t.children[0], TextChild::Text(s) if s == "a"));
    assert!(matches!(&t.children[1], TextChild::Nested(n) if n.children.len() == 1));
    assert_eq!(t.cursor, Some(Cursor::Relative(Offset { x: 2, y: 3 })));
    assert_eq!(t.style, Some(Style { color: None, background_color: Some(Color::AnsiValue(7)) }));
    assert_eq!(t.height(), Some(1));
}

#[test]
fn column_without_children_is_an_error() {
    match FlexColumnBuilder::default().flex_grow(FLEX_GROW_ONE).build() {
        Err(Error::FlexColumnBuilder(m)) => assert_eq!(m, "empty children"),
        _ => panic!("expected the builder error"),
    }
}

#[test]
fn column_builder_keeps_its_settings() {
    let c = FlexColumnBuilder::default()
        .children(vec![text("a"), text("b")])
        .flex_grow(FLEX_GROW_ONE)
        .relative(Relative::NotMoved)
        .cursor(Cursor::relative().y(1).x(0))
        .overflow_y(Overflow::Hidden)
        .build()
        .unwrap();
    assert_eq!(c.children.len(), 2);
    assert_eq!(c.flex_grow(), Some(FLEX_GROW_ONE));
    assert_eq!(c.relative, Some(Relative::NotMoved));
    assert_eq!(c.cursor, Some(Cursor::Relative(Offset { x: 0, y: 1 })));
    assert_eq!(c.overflow_y, Some(Overflow::Hidden));
    let column = Component::FlexColumn(c);
    assert_eq!(column.flex_grow(), Some(FLEX_GROW_ONE));
    assert_eq!(column.height(), None);
}

#[test]
fn cursor_builders_give_both_coordinates() {
    assert_eq!(CursorRelativeBuilderEmpty::default().x(4).y(5), Cursor::Relative(Offset { x: 4, y: 5 }));
    assert_eq!(Cursor::relative().y(5).x(4), Cursor::Relative(Offset { x: 4, y: 5 }));
}

#[test]
fn style_builder_sets_only_what_is_given() {
    let mut b = StyleBuilder::default();
    b.color(Color::Rgb { r: 1, g: 2, b: 3 });
    assert_eq!(b.build(), Style { color: Some(Color::Rgb { r: 1, g: 2, b: 3 }), background_color: None });
    assert_eq!(Style::default(), Style { color: None, background_color: None });
}

#[test]
fn component_conversions_and_accessors() {
    let t = TextBuilder::default().text_child("x".to_string()).build().unwrap();
    let c = Component::from(t);
    assert_eq!(c.height(), Some(1));
    assert_eq!(c.flex_grow(), None);
    let a = Component::from(Absolute::new(text("y")));
    assert!(matches!(a.as_absolute().content.as_ref(), Component::Text(_)));
    let child = TextChild::from("z".to_string());
    assert!(matches!(child, TextChild::Text(s) if s == "z"));
}

#[test]
fn error_from_anyhow() {
    let e = Error::from(anyhow::Error::msg("boom"));
    assert!(matches!(e, Error::Anyhow(inner) if inner.to_string() == "boom"));
}
