use std::rc::Rc;

use oelung::{
    render_requested, Absolute, Color, Component, ComponentInterface, Cursor, DrawCommand, DynComponent, Error,
    FlexColumnBuilder, Grid, Interrupt, Relative, Renderer, RenderingContext, Size, Style, Text,
    TextBuilder, UserComponent, Violation, FLEX_GROW_ONE,
};

struct Label {
    text: String,
    height: Option<u16>,
    flex_grow: Option<u64>,
}

impl<'a> ComponentInterface<'a> for Label {
    fn render(&self, _grid: Grid) -> Result<Component<'a>, anyhow::Error> {
        Ok(Component::Text(
            TextBuilder::default().text_child(self.text.clone()).build().unwrap(),
        ))
    }

    fn flex_grow(&self) -> Option<u64> {
        self.flex_grow
    }

    fn height(&self) -> Option<u16> {
        self.height
    }
}

struct ColumnOfTexts {
    count: usize,
}

impl<'a> ComponentInterface<'a> for ColumnOfTexts {
    fn render(&self, _grid: Grid) -> Result<Component<'a>, anyhow::Error> {
        let mut builder = FlexColumnBuilder::default();
        for i in 0..self.count {
            builder = builder.child(text(&format!("line {}", i)));
        }
        Ok(Component::FlexColumn(builder.build().unwrap()))
    }
}

fn text_of<'a>(s: &str) -> Text<'a> {
    TextBuilder::default().text_child(s.to_string()).build().unwrap()
}

fn text<'a>(s: &str) -> Component<'a> {
    Component::Text(text_of(s))
}

fn user<'a>(c: impl ComponentInterface<'a> + 'a) -> Component<'a> {
    Component::Component(UserComponent::new(DynComponent { inner: Rc::new(c) }))
}

fn label<'a>(s: &str, height: Option<u16>) -> Component<'a> {
    user(Label { text: s.to_string(), height, flex_grow: None })
}

fn print(s: &str) -> Vec<DrawCommand> {
    vec![
        DrawCommand::SetForegroundColor(Color::Reset),
        DrawCommand::SetBackgroundColor(Color::Reset),
        DrawCommand::Print(s.to_string()),
    ]
}

fn move_to(column: u16, row: u16) -> DrawCommand {
    DrawCommand::MoveTo { column, row }
}

/// Renders a frame, rendering user components as the renderer asks for them.
fn render_frame<'a>(
    renderer: &mut Renderer,
    component: &Component<'a>,
) -> Result<Vec<DrawCommand>, Interrupt<'a>> {
    let mut resolved: Vec<Component<'a>> = Vec::new();
    loop {
        let mut out = Vec::new();
        match renderer.render(component, &resolved, &mut out) {
            Err(Interrupt::NeedsRender(user, grid)) => {
                assert_eq!(out, vec![DrawCommand::HideCursor]);
                render_requested(&user, grid, &mut resolved).expect("user component renders");
            }
            Ok(()) => {
                renderer.finish_frame();
                return Ok(out);
            }
            Err(e) => {
                assert_eq!(out, vec![DrawCommand::HideCursor]);
                return Err(e);
            }
        }
    }
}

fn commands(r: Result<Vec<DrawCommand>, Interrupt<'_>>) -> Vec<DrawCommand> {
    match r {
        Ok(c) => c,
        Err(Interrupt::Violated(v)) => panic!("violated {:?}", v),
        Err(Interrupt::Failed(e)) => panic!("failed {:?}", e),
        Err(Interrupt::NeedsRender(..)) => panic!("needs a render"),
    }
}

fn violation(r: Result<Vec<DrawCommand>, Interrupt<'_>>) -> Violation {
    match r {
        Err(Interrupt::Violated(v)) => v,
        _ => panic!("expected a violated layout rule"),
    }
}

fn screen(height: u16, width: u16) -> Renderer {
    Renderer::new(Size { height, width })
}

#[test]
fn first_frame_draws_every_row() {
    let mut r = screen(2, 5);
    let got = commands(render_frame(&mut r, &text("hi")));
    let mut want = vec![DrawCommand::HideCursor, move_to(0, 0)];
    want.extend(print("hi"));
    assert_eq!(got, want);
    assert_eq!(r.last_rendered_grid_index, Some(0));
    assert_eq!(r.rendered_cursor_position_in_this_render, None);
}

#[test]
fn same_frame_twice_redraws_nothing() {
    let mut r = screen(2, 5);
    commands(render_frame(&mut r, &text("hi")));
    let got = commands(render_frame(&mut r, &text("hi")));
    assert_eq!(got, vec![DrawCommand::HideCursor]);
}

#[test]
fn frames_alternate_between_grids() {
    let mut r = screen(1, 5);
    commands(render_frame(&mut r, &text("a")));
    assert_eq!(r.last_rendered_grid_index, Some(0));
    commands(render_frame(&mut r, &text("b")));
    assert_eq!(r.last_rendered_grid_index, Some(1));
    commands(render_frame(&mut r, &text("c")));
    assert_eq!(r.last_rendered_grid_index, Some(0));
    assert_eq!(r.grids[1].row(0).chunk(0).str, "b");
    assert_eq!(r.grids[0].row(0).chunk(0).str, "c");
}

#[test]
fn redraw_starts_after_the_unchanged_chunks() {
    let mut r = screen(1, 10);
    let first = Component::Text(
        TextBuilder::default().text_child("ab".to_string()).text_child("cd".to_string()).build().unwrap(),
    );
    let second = Component::Text(
        TextBuilder::default().text_child("ab".to_string()).text_child("xy".to_string()).build().unwrap(),
    );
    commands(render_frame(&mut r, &first));
    let got = commands(render_frame(&mut r, &second));
    let mut want = vec![DrawCommand::HideCursor, move_to(2, 0)];
    want.extend(print("xy"));
    assert_eq!(got, want);
}

#[test]
fn shorter_row_that_starts_like_the_last_one_is_not_redrawn() {
    let mut r = screen(1, 10);
    let first = Component::Text(
        TextBuilder::default().text_child("ab".to_string()).text_child("cd".to_string()).build().unwrap(),
    );
    commands(render_frame(&mut r, &first));
    let got = commands(render_frame(&mut r, &text("ab")));
    assert_eq!(got, vec![DrawCommand::HideCursor]);
}

#[test]
fn column_gives_the_growing_child_the_rest() {
    let mut r = screen(3, 10);
    let inner = FlexColumnBuilder::default().child(text("Top")).flex_grow(FLEX_GROW_ONE).build().unwrap();
    let outer = FlexColumnBuilder::default()
        .child(Component::FlexColumn(inner))
        .child(text("bottom"))
        .build()
        .unwrap();
    let got = commands(render_frame(&mut r, &Component::FlexColumn(outer)));
    let mut want = vec![DrawCommand::HideCursor, move_to(0, 0)];
    want.extend(print("Top"));
    want.push(move_to(0, 1));
    want.push(move_to(0, 2));
    want.extend(print("bottom"));
    assert_eq!(got, want);
}

#[test]
fn column_fills_its_area() {
    let grid = Grid { left: 0, top: 0, height: 5, width: 8 };
    let column = FlexColumnBuilder::default().child(text("a")).child(text("b")).build().unwrap();
    let mut ctx = RenderingContext::new(grid, Style::default());
    let resolved: Vec<Component<'static>> = Vec::new();
    assert!(matches!(ctx.render(&Component::FlexColumn(column), &resolved, 0), Ok(0)));
    assert_eq!(ctx.staged.len(), 5);
    assert_eq!(ctx.staged.row(0).chunk(0).str, "a");
    assert_eq!(ctx.staged.row(1).chunk(0).str, "b");
    assert_eq!(ctx.staged.row(2).len(), 0);
}

#[test]
fn column_taller_than_its_area_keeps_all_rows() {
    let grid = Grid { left: 0, top: 0, height: 1, width: 8 };
    let column = FlexColumnBuilder::default().child(text("a")).child(text("b")).build().unwrap();
    let mut ctx = RenderingContext::new(grid, Style::default());
    let resolved: Vec<Component<'static>> = Vec::new();
    assert!(matches!(ctx.render(&Component::FlexColumn(column), &resolved, 0), Ok(0)));
    assert_eq!(ctx.staged.len(), 2);
}

#[test]
fn text_fits_its_height() {
    let grid = Grid { left: 0, top: 0, height: 4, width: 8 };
    let t = text_of("x");
    assert_eq!(t.height(), Some(1));
    let mut ctx = RenderingContext::new(grid, Style::default());
    let resolved: Vec<Component<'static>> = Vec::new();
    assert!(matches!(ctx.render(&Component::Text(t), &resolved, 0), Ok(0)));
    assert_eq!(ctx.staged.len(), 1);
}

#[test]
fn nested_text_styles_override_the_outer_ones() {
    let mut r = screen(1, 10);
    let inner = TextBuilder::default().text_child("b".to_string()).color(Color::Green).build().unwrap();
    let outer = TextBuilder::default()
        .text_child("a".to_string())
        .nested_child(inner)
        .text_child("c".to_string())
        .color(Color::Red)
        .background_color(Color::Blue)
        .build()
        .unwrap();
    let got = commands(render_frame(&mut r, &Component::Text(outer)));
    let chunk = |c: Color, s: &str| {
        vec![
            DrawCommand::SetForegroundColor(c),
            DrawCommand::SetBackgroundColor(Color::Blue),
            DrawCommand::Print(s.to_string()),
        ]
    };
    let mut want = vec![DrawCommand::HideCursor, move_to(0, 0)];
    want.extend(chunk(Color::Red, "a"));
    want.extend(chunk(Color::Green, "b"));
    want.extend(chunk(Color::Red, "c"));
    assert_eq!(got, want);
}

#[test]
fn cursor_is_shown_where_the_text_puts_it() {
    let mut r = screen(2, 10);
    let t = TextBuilder::default()
        .text_child("hi".to_string())
        .cursor(Cursor::relative().x(1).y(0))
        .build()
        .unwrap();
    let got = commands(render_frame(&mut r, &Component::Text(t)));
    assert_eq!(got[got.len() - 2..].to_vec(), vec![move_to(1, 0), DrawCommand::ShowCursor]);
    assert_eq!(
        r.rendered_cursor_position_in_this_render,
        Some(oelung::Position { row: 0, column: 1 })
    );
}

#[test]
fn cursor_placed_twice_is_an_error() {
    let mut r = screen(2, 10);
    let with_cursor = || {
        Component::Text(
            TextBuilder::default()
                .text_child("x".to_string())
                .cursor(Cursor::relative().y(0).x(0))
                .build()
                .unwrap(),
        )
    };
    let column = FlexColumnBuilder::default().child(with_cursor()).child(with_cursor()).build().unwrap();
    let got = render_frame(&mut r, &Component::FlexColumn(column));
    assert!(matches!(got, Err(Interrupt::Failed(Error::RenderedCursorMoreThanOnce))));
    assert_eq!(r.last_rendered_grid_index, None);
}

#[test]
fn user_component_at_the_root_is_rendered_first() {
    let mut r = screen(1, 10);
    let root = label("hello", None);
    let resolved: Vec<Component<'static>> = Vec::new();
    let mut out = Vec::new();
    assert!(matches!(r.render(&root, &resolved, &mut out), Err(Interrupt::NeedsRender(_, g)) if g == Grid { left: 0, top: 0, height: 1, width: 10 }));
    assert_eq!(out, vec![DrawCommand::HideCursor]);
    let got = commands(render_frame(&mut r, &root));
    let mut want = vec![DrawCommand::HideCursor, move_to(0, 0)];
    want.extend(print("hello"));
    assert_eq!(got, want);
}

#[test]
fn user_component_with_height_takes_its_rows() {
    let mut r = screen(3, 10);
    let column = FlexColumnBuilder::default()
        .child(label("top", Some(2)))
        .child(text("last"))
        .build()
        .unwrap();
    let got = commands(render_frame(&mut r, &Component::FlexColumn(column)));
    let mut want = vec![DrawCommand::HideCursor, move_to(0, 0)];
    want.extend(print("top"));
    want.push(move_to(0, 1));
    want.push(move_to(0, 2));
    want.extend(print("last"));
    assert_eq!(got, want);
}

#[test]
fn user_component_in_text_renders_inline() {
    let mut r = screen(1, 20);
    let t = TextBuilder::default()
        .text_child("a".to_string())
        .nested_component_child(DynComponent {
            inner: Rc::new(Label { text: "b".to_string(), height: None, flex_grow: None }),
        })
        .build()
        .unwrap();
    let got = commands(render_frame(&mut r, &Component::Text(t)));
    let mut want = vec![DrawCommand::HideCursor, move_to(0, 0)];
    want.extend(print("a"));
    want.extend(print("b"));
    assert_eq!(got, want);
}

#[test]
fn user_component_in_text_that_renders_a_column_is_an_error() {
    let mut r = screen(3, 20);
    let t = TextBuilder::default()
        .nested_component_child(DynComponent { inner: Rc::new(ColumnOfTexts { count: 1 }) })
        .build()
        .unwrap();
    let got = render_frame(&mut r, &Component::Text(t));
    assert!(matches!(got, Err(Interrupt::Failed(Error::RenderedNonTextChildInText))));
}

#[test]
fn several_growing_children_violate_layout() {
    let mut r = screen(3, 10);
    let grow = || {
        Component::FlexColumn(
            FlexColumnBuilder::default().child(text("g")).flex_grow(FLEX_GROW_ONE).build().unwrap(),
        )
    };
    let column = FlexColumnBuilder::default().child(grow()).child(grow()).build().unwrap();
    assert_eq!(
        violation(render_frame(&mut r, &Component::FlexColumn(column))),
        Violation::SeveralFlexGrowChildren
    );
}

#[test]
fn child_without_size_violates_layout() {
    let mut r = screen(3, 10);
    let unsized_column = FlexColumnBuilder::default().child(text("u")).build().unwrap();
    let column = FlexColumnBuilder::default().child(Component::FlexColumn(unsized_column)).build().unwrap();
    assert_eq!(
        violation(render_frame(&mut r, &Component::FlexColumn(column))),
        Violation::UnsizedChild
    );
}

#[test]
fn flex_grow_other_than_one_is_unsized() {
    let mut r = screen(3, 10);
    let two = 2.0f64.to_bits();
    let half = FlexColumnBuilder::default().child(text("u")).flex_grow(two).build().unwrap();
    let column = FlexColumnBuilder::default().child(Component::FlexColumn(half)).build().unwrap();
    assert_eq!(
        violation(render_frame(&mut r, &Component::FlexColumn(column))),
        Violation::UnsizedChild
    );
    assert_eq!(1.0f64.to_bits(), FLEX_GROW_ONE);
}

#[test]
fn heights_past_u16_violate_layout() {
    let mut r = screen(3, 10);
    let column = FlexColumnBuilder::default()
        .child(label("a", Some(40000)))
        .child(label("b", Some(30000)))
        .build()
        .unwrap();
    assert_eq!(
        violation(render_frame(&mut r, &Component::FlexColumn(column))),
        Violation::HeightOverflow
    );
}

#[test]
fn growing_child_without_room_violates_layout() {
    let mut r = screen(1, 10);
    let grow = FlexColumnBuilder::default().child(text("g")).flex_grow(FLEX_GROW_ONE).build().unwrap();
    let column = FlexColumnBuilder::default()
        .child(Component::FlexColumn(grow))
        .child(text("a"))
        .child(text("b"))
        .build()
        .unwrap();
    assert_eq!(
        violation(render_frame(&mut r, &Component::FlexColumn(column))),
        Violation::FlexChildWithoutRoom
    );
}

#[test]
fn child_taller_than_its_area_violates_layout() {
    let mut r = screen(2, 10);
    let grow = FlexColumnBuilder::default()
        .child(text("a"))
        .child(text("b"))
        .flex_grow(FLEX_GROW_ONE)
        .build()
        .unwrap();
    let column = FlexColumnBuilder::default()
        .child(Component::FlexColumn(grow))
        .child(text("c"))
        .build()
        .unwrap();
    assert_eq!(
        violation(render_frame(&mut r, &Component::FlexColumn(column))),
        Violation::ChildTallerThanItsArea
    );
}

#[test]
fn rows_past_u16_violate_layout() {
    let mut r = screen(65535, 4);
    let inner = FlexColumnBuilder::default()
        .child(label("b", Some(30000)))
        .child(text("c"))
        .flex_grow(FLEX_GROW_ONE)
        .build()
        .unwrap();
    let column = FlexColumnBuilder::default()
        .child(label("a", Some(40000)))
        .child(Component::FlexColumn(inner))
        .build()
        .unwrap();
    assert_eq!(
        violation(render_frame(&mut r, &Component::FlexColumn(column))),
        Violation::RowsOverflow
    );
}

#[test]
fn absolute_child_needs_a_relative_column() {
    let mut r = screen(2, 10);
    let column = FlexColumnBuilder::default()
        .child(text("a"))
        .child(Component::Absolute(Absolute::new(text("b"))))
        .build()
        .unwrap();
    assert_eq!(
        violation(render_frame(&mut r, &Component::FlexColumn(column))),
        Violation::AbsoluteWithoutRelative
    );
}

#[test]
fn absolute_child_is_painted_and_discarded() {
    let mut r = screen(2, 10);
    let column = FlexColumnBuilder::default()
        .child(text("ab"))
        .child(Component::Absolute(Absolute::new(text("x"))))
        .relative(Relative::NotMoved)
        .build()
        .unwrap();
    let got = commands(render_frame(&mut r, &Component::FlexColumn(column)));
    let mut want = vec![DrawCommand::HideCursor, move_to(0, 0)];
    want.extend(print("ab"));
    want.push(move_to(0, 1));
    assert_eq!(got, want);
}

#[test]
fn absolute_child_taller_than_the_column_violates_layout() {
    let mut r = screen(2, 10);
    let tall = FlexColumnBuilder::default()
        .child(text("a"))
        .child(text("b"))
        .child(text("c"))
        .build()
        .unwrap();
    let column = FlexColumnBuilder::default()
        .child(text("x"))
        .child(Component::Absolute(Absolute::new(Component::FlexColumn(tall))))
        .relative(Relative::NotMoved)
        .build()
        .unwrap();
    assert_eq!(
        violation(render_frame(&mut r, &Component::FlexColumn(column))),
        Violation::AbsoluteTallerThanArea
    );
}

#[test]
fn painting_that_cuts_a_character_is_out_of_bounds() {
    let mut r = screen(1, 10);
    let under = Component::Text(
        TextBuilder::default().text_child("a".to_string()).text_child("b".to_string()).build().unwrap(),
    );
    let column = FlexColumnBuilder::default()
        .child(under)
        .child(Component::Absolute(Absolute::new(text("é"))))
        .relative(Relative::NotMoved)
        .build()
        .unwrap();
    assert_eq!(
        violation(render_frame(&mut r, &Component::FlexColumn(column))),
        Violation::PaintOutOfBounds
    );
}

#[test]
fn absolute_at_the_root_is_unreachable() {
    let mut r = screen(1, 10);
    let root = Component::Absolute(Absolute::new(text("a")));
    assert_eq!(violation(render_frame(&mut r, &root)), Violation::Unreachable);
}

#[test]
fn more_rows_than_the_last_frame_is_a_violation() {
    let mut r = screen(2, 10);
    commands(render_frame(&mut r, &text("a")));
    let column = FlexColumnBuilder::default().child(text("a")).child(text("b")).build().unwrap();
    assert_eq!(
        violation(render_frame(&mut r, &Component::FlexColumn(column))),
        Violation::MissingPreviousRow
    );
    assert_eq!(r.last_rendered_grid_index, Some(0));
}

#[test]
fn unchanged_prefix_past_u16_is_a_violation() {
    let mut r = screen(1, 10);
    let long = "x".repeat(70000);
    let frame = |tail: &str| {
        Component::Text(
            TextBuilder::default().text_child(long.clone()).text_child(tail.to_string()).build().unwrap(),
        )
    };
    commands(render_frame(&mut r, &frame("a")));
    assert_eq!(violation(render_frame(&mut r, &frame("b"))), Violation::ColumnOverflow);
}

#[test]
fn redraw_of_the_last_row_of_a_tall_screen_moves_to_it() {
    let mut r = screen(3, 10);
    let column = |last: &str| {
        Component::FlexColumn(
            FlexColumnBuilder::default()
                .child(text("a"))
                .child(text("b"))
                .child(text(last))
                .build()
                .unwrap(),
        )
    };
    commands(render_frame(&mut r, &column("c")));
    let got = commands(render_frame(&mut r, &column("d")));
    let mut want = vec![DrawCommand::HideCursor, move_to(0, 2)];
    want.extend(print("d"));
    assert_eq!(got, want);
}

fn draw(backend: &mut oelung::BackendMemory, cmds: &[DrawCommand]) {
    for cmd in cmds {
        match cmd {
            DrawCommand::HideCursor => backend.queue_hide_cursor().unwrap(),
            DrawCommand::ShowCursor => backend.queue_show_cursor().unwrap(),
            DrawCommand::MoveTo { column, row } => backend.queue_move_cursor(*column, *row).unwrap(),
            DrawCommand::SetForegroundColor(c) => backend.queue_set_foreground_color(*c).unwrap(),
            DrawCommand::SetBackgroundColor(c) => backend.queue_set_background_color(*c).unwrap(),
            DrawCommand::Print(s) => backend.queue_print(s).unwrap(),
        }
    }
}

fn shown_row(backend: &oelung::BackendMemory, row: usize) -> String {
    backend.grid[row].iter().map(|c| c.content).collect()
}

#[test]
fn drawn_frames_show_on_the_memory_backend() {
    let size = Size { height: 3, width: 8 };
    let mut r = Renderer::new(size);
    let mut backend = oelung::BackendMemory::new(size);
    let frame = |a: &str, b: &str| {
        Component::FlexColumn(
            FlexColumnBuilder::default()
                .child(text(a))
                .child(Component::Text(
                    TextBuilder::default()
                        .text_child(b.to_string())
                        .cursor(Cursor::relative().x(2).y(1))
                        .build()
                        .unwrap(),
                ))
                .build()
                .unwrap(),
        )
    };
    draw(&mut backend, &commands(render_frame(&mut r, &frame("one", "two"))));
    assert_eq!(shown_row(&backend, 0), "one     ");
    assert_eq!(shown_row(&backend, 1), "two     ");
    assert_eq!(backend.current_cursor_position(), Some(oelung::Position { row: 1, column: 2 }));
    draw(&mut backend, &commands(render_frame(&mut r, &frame("one", "three"))));
    assert_eq!(shown_row(&backend, 0), "one     ");
    assert_eq!(shown_row(&backend, 1), "three   ");
    assert_eq!(shown_row(&backend, 2), "        ");
}

#[test]
fn nested_text_without_colors_keeps_the_outer_ones() {
    let mut r = screen(1, 10);
    let inner = TextBuilder::default().text_child("b".to_string()).build().unwrap();
    let outer = TextBuilder::default()
        .nested_child(inner)
        .color(Color::Magenta)
        .build()
        .unwrap();
    let got = commands(render_frame(&mut r, &Component::Text(outer)));
    assert_eq!(
        got,
        vec![
            DrawCommand::HideCursor,
            move_to(0, 0),
            DrawCommand::SetForegroundColor(Color::Magenta),
            DrawCommand::SetBackgroundColor(Color::Reset),
            DrawCommand::Print("b".to_string()),
        ]
    );
}

#[test]
fn growing_user_component_fills_the_rest() {
    let mut r = screen(3, 10);
    let column = FlexColumnBuilder::default()
        .child(user(Label { text: "grow".to_string(), height: None, flex_grow: Some(FLEX_GROW_ONE) }))
        .child(text("end"))
        .build()
        .unwrap();
    let got = commands(render_frame(&mut r, &Component::FlexColumn(column)));
    let mut want = vec![DrawCommand::HideCursor, move_to(0, 0)];
    want.extend(print("grow"));
    want.push(move_to(0, 1));
    want.push(move_to(0, 2));
    want.extend(print("end"));
    assert_eq!(got, want);
}

#[test]
fn column_cursor_after_a_child_cursor_keeps_the_child_one() {
    let grid = Grid { left: 0, top: 0, height: 1, width: 10 };
    let child = TextBuilder::default()
        .text_child("a".to_string())
        .cursor(Cursor::relative().x(0).y(0))
        .build()
        .unwrap();
    let column = FlexColumnBuilder::default()
        .child(Component::Text(child))
        .cursor(Cursor::relative().x(1).y(0))
        .build()
        .unwrap();
    let mut ctx = RenderingContext::new(grid, Style::default());
    let resolved: Vec<Component<'static>> = Vec::new();
    let got = ctx.render(&Component::FlexColumn(column), &resolved, 0);
    assert!(matches!(got, Err(Interrupt::Failed(Error::RenderedCursorMoreThanOnce))));
    assert_eq!(ctx.rendered_cursor_position, Some(oelung::Position { row: 0, column: 0 }));
    assert_eq!(ctx.staged.len(), 1);
    assert_eq!(ctx.staged.row(0).chunk(0).str, "a");
}

#[test]
fn child_cursor_under_a_placed_cursor_keeps_the_rows_and_the_cursor() {
    let grid = Grid { left: 0, top: 0, height: 3, width: 10 };
    let mut ctx = RenderingContext::new(grid, Style::default());
    ctx.render_cursor(Cursor::relative().x(5).y(2)).unwrap();
    let child = TextBuilder::default()
        .text_child("a".to_string())
        .cursor(Cursor::relative().x(0).y(0))
        .build()
        .unwrap();
    let column = FlexColumnBuilder::default()
        .child(Component::Text(child))
        .child(text("b"))
        .build()
        .unwrap();
    let resolved: Vec<Component<'static>> = Vec::new();
    let got = ctx.render(&Component::FlexColumn(column), &resolved, 0);
    assert!(matches!(got, Err(Interrupt::Failed(Error::RenderedCursorMoreThanOnce))));
    assert_eq!(ctx.rendered_cursor_position, Some(oelung::Position { row: 2, column: 5 }));
    assert_eq!(ctx.staged.len(), 1);
    assert_eq!(ctx.staged.row(0).chunk(0).str, "a");
}

#[test]
fn text_cursor_under_a_placed_cursor_keeps_the_chunks() {
    let grid = Grid { left: 0, top: 0, height: 1, width: 10 };
    let mut ctx = RenderingContext::new(grid, Style::default());
    let mut row = oelung::StagedRow::new();
    row.push(oelung::StyledChunk::new("x".to_string(), Style::default()));
    ctx.staged.push(row);
    ctx.render_cursor(Cursor::relative().x(3).y(0)).unwrap();
    let t = TextBuilder::default()
        .text_child("a".to_string())
        .text_child("b".to_string())
        .cursor(Cursor::relative().x(0).y(0))
        .build()
        .unwrap();
    let resolved: Vec<Component<'static>> = Vec::new();
    let got = ctx.render_text(&t, 0, Style::default(), &resolved, 0);
    assert!(matches!(got, Err(Interrupt::Failed(Error::RenderedCursorMoreThanOnce))));
    assert_eq!(ctx.rendered_cursor_position, Some(oelung::Position { row: 0, column: 3 }));
    let texts: Vec<String> = (0..ctx.staged.row(0).len()).map(|i| ctx.staged.row(0).chunk(i).str.clone()).collect();
    assert_eq!(texts, vec!["x".to_string(), "a".to_string(), "b".to_string()]);
}

struct Failing;

impl<'a> ComponentInterface<'a> for Failing {
    fn render(&self, _grid: Grid) -> Result<Component<'a>, anyhow::Error> {
        Err(anyhow::Error::msg("cannot render"))
    }
}

#[test]
fn failing_user_component_gives_an_anyhow_error() {
    let user = DynComponent { inner: Rc::new(Failing) };
    let mut resolved: Vec<Component<'static>> = vec![text("kept")];
    let got = render_requested(&user, Grid { left: 0, top: 0, height: 1, width: 4 }, &mut resolved);
    assert!(matches!(got, Err(Error::Anyhow(e)) if e.to_string() == "cannot render"));
    assert_eq!(resolved.len(), 1);
    let ok = DynComponent {
        inner: Rc::new(Label { text: "x".to_string(), height: None, flex_grow: None }),
    };
    assert!(render_requested(&ok, Grid { left: 0, top: 0, height: 1, width: 4 }, &mut resolved).is_ok());
    assert_eq!(resolved.len(), 2);
    assert!(matches!(&resolved[1], Component::Text(_)));
}

#[test]
fn frame_counts_as_drawn_only_when_finished() {
    let mut r = screen(1, 5);
    let resolved: Vec<Component<'static>> = Vec::new();
    let mut out = Vec::new();
    assert!(r.render(&text("a"), &resolved, &mut out).is_ok());
    assert_eq!(r.last_rendered_grid_index, None);
    assert_eq!(r.grids[0].row(0).chunk(0).str, "a");
    let mut again = Vec::new();
    assert!(r.render(&text("b"), &resolved, &mut again).is_ok());
    assert_eq!(r.grids[0].row(0).chunk(0).str, "b");
    r.finish_frame();
    assert_eq!(r.last_rendered_grid_index, Some(0));
}

#[test]
fn text_without_children_renders_past_the_staged_rows() {
    let grid = Grid { left: 0, top: 0, height: 1, width: 10 };
    let mut ctx = RenderingContext::new(grid, Style::default());
    let t = Text { children: vec![], cursor: Some(Cursor::relative().x(4).y(0)), style: None };
    let resolved: Vec<Component<'static>> = Vec::new();
    let got = ctx.render_text(&t, 3, Style::default(), &resolved, 0);
    assert!(matches!(got, Ok(0)));
    assert_eq!(ctx.staged.len(), 0);
    assert_eq!(ctx.rendered_cursor_position, Some(oelung::Position { row: 0, column: 4 }));
}

#[test]
fn placed_cursor_changes_nothing_in_a_tree_without_cursor() {
    let grid = Grid { left: 0, top: 0, height: 3, width: 10 };
    let column = FlexColumnBuilder::default().child(text("a")).child(text("b")).build().unwrap();
    let component = Component::FlexColumn(column);
    let resolved: Vec<Component<'static>> = Vec::new();
    let mut plain = RenderingContext::new(grid, Style::default());
    let mut placed = RenderingContext::new(grid, Style::default());
    placed.render_cursor(Cursor::relative().x(7).y(1)).unwrap();
    assert!(matches!(plain.render(&component, &resolved, 0), Ok(0)));
    assert!(matches!(placed.render(&component, &resolved, 0), Ok(0)));
    assert_eq!(plain.rendered_cursor_position, None);
    assert_eq!(placed.rendered_cursor_position, Some(oelung::Position { row: 1, column: 7 }));
    assert_eq!(plain.staged.len(), placed.staged.len());
    for i in 0..plain.staged.len() {
        assert_eq!(plain.staged.row(i).len(), placed.staged.row(i).len());
        for j in 0..plain.staged.row(i).len() {
            assert_eq!(plain.staged.row(i).chunk(j).str, placed.staged.row(i).chunk(j).str);
        }
    }
}
