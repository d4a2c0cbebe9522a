use oelung::paint::{paint_fits, paint_on_top_of, paint_row, try_paint_row};
use oelung::{Color, Staged, StagedRow, Style, StyledChunk};

fn chunk(s: &str, color: Option<Color>, background: Option<Color>) -> StyledChunk {
    StyledChunk::new(s.to_string(), Style { color, background_color: background })
}

fn row(chunks: Vec<StyledChunk>) -> StagedRow {
    let mut r = StagedRow::new();
    for c in chunks {
        r.push(c);
    }
    r
}

fn pieces(r: &StagedRow) -> Vec<(String, Style)> {
    (0..r.len()).map(|i| (r.chunk(i).str.clone(), r.chunk(i).style)).collect()
}

fn style(color: Option<Color>, background: Option<Color>) -> Style {
    Style { color, background_color: background }
}

#[test]
fn paint_over_one_chunk_takes_its_background() {
    let base = row(vec![chunk("ab", None, Some(Color::Red))]);
    let new = row(vec![chunk("xy", Some(Color::Green), None)]);
    let painted = paint_row(&base, &new);
    assert_eq!(pieces(&painted), vec![("xy".to_string(), style(Some(Color::Green), Some(Color::Red)))]);
}

#[test]
fn paint_is_cut_where_chunks_underneath_end() {
    let base = row(vec![chunk("a", None, Some(Color::Red)), chunk("b", None, Some(Color::Blue))]);
    let new = row(vec![chunk("xy", Some(Color::Green), None)]);
    let painted = paint_row(&base, &new);
    assert_eq!(
        pieces(&painted),
        vec![
            ("x".to_string(), style(Some(Color::Green), Some(Color::Red))),
            ("y".to_string(), style(Some(Color::Green), Some(Color::Blue))),
        ]
    );
}

#[test]
fn paint_keeps_the_text() {
    let base = row(vec![
        chunk("ab", None, Some(Color::Red)),
        chunk("c", None, None),
        chunk("defg", None, Some(Color::Blue)),
    ]);
    let new = row(vec![chunk("xyz", None, None), chunk("uvw", Some(Color::Grey), None)]);
    let painted = paint_row(&base, &new);
    let text: String = pieces(&painted).into_iter().map(|(s, _)| s).collect();
    assert_eq!(text, "xyzuvw");
}

#[test]
fn paint_on_an_empty_row_leaves_the_row() {
    let base = StagedRow::new();
    let new = row(vec![chunk("ab", None, None), chunk("cd", Some(Color::Red), None)]);
    let painted = paint_row(&base, &new);
    assert_eq!(pieces(&painted), pieces(&new));
}

#[test]
fn opaque_row_is_painted_as_it_is() {
    let base = row(vec![chunk("abc", None, Some(Color::Red)), chunk("de", None, None)]);
    let new = row(vec![chunk("x", None, Some(Color::Yellow)), chunk("yz", Some(Color::Cyan), Some(Color::Black))]);
    let painted = paint_row(&base, &new);
    assert_eq!(pieces(&painted), pieces(&new));
}

#[test]
fn paint_that_cuts_a_character_is_refused() {
    let base = row(vec![chunk("a", None, None), chunk("b", None, None)]);
    let new = row(vec![chunk("é", None, None)]);
    assert!(try_paint_row(&base, &new).is_none());
}

#[test]
fn paint_on_top_of_keeps_what_is_underneath() {
    let mut onto = Staged::new();
    onto.push(row(vec![chunk("ab", None, None)]));
    let mut from = Staged::new();
    from.push(row(vec![chunk("x", Some(Color::Red), None)]));
    assert!(paint_fits(&onto, &from));
    paint_on_top_of(&mut onto, from);
    assert_eq!(onto.len(), 1);
    assert_eq!(pieces(onto.row(0)), vec![("ab".to_string(), style(None, None))]);
}

#[test]
fn paint_past_the_rows_underneath_does_not_fit() {
    let onto = Staged::new();
    let mut from = Staged::new();
    from.push(row(vec![chunk("x", None, None)]));
    assert!(!paint_fits(&onto, &from));
    let mut empty_rows = Staged::new();
    empty_rows.push(StagedRow::new());
    assert!(paint_fits(&onto, &empty_rows));
}
