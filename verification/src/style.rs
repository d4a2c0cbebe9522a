use vstd::prelude::*;

verus! {

/// A terminal color, with the same variants as the terminal crate's color type.
#[derive(Copy, Clone, Debug, PartialEq, Eq, Structural)]
pub enum Color {
    Reset,
    Black,
    DarkGrey,
    Red,
    DarkRed,
    Green,
    DarkGreen,
    Yellow,
    DarkYellow,
    Blue,
    DarkBlue,
    Magenta,
    DarkMagenta,
    Cyan,
    DarkCyan,
    White,
    Grey,
    Rgb { r: u8, g: u8, b: u8 },
    AnsiValue(u8),
}

/// Foreground and background colors of a piece of text; `None` leaves the
/// terminal's own color in place.
#[derive(Copy, Clone, Debug, PartialEq, Eq, Structural)]
pub struct Style {
    pub color: Option<Color>,
    pub background_color: Option<Color>,
}

impl Style {
    /// The style with neither color set.
    pub fn new() -> (s: Style)
        ensures
            s.color.is_none(),
            s.background_color.is_none(),
    {
        Style { color: None, background_color: None }
    }

    /// `self` with every color that `over` sets replaced by that of `over`.
    pub open spec fn overridden_by(self, over: Style) -> Style {
        Style {
            color: if over.color.is_some() { over.color } else { self.color },
            background_color: if over.background_color.is_some() {
                over.background_color
            } else {
                self.background_color
            },
        }
    }
}

impl Default for Style {
    fn default() -> (s: Style)
        ensures
            s.color.is_none(),
            s.background_color.is_none(),
    {
        Style::new()
    }
}

/// Builds a [`Style`]; a color that is never set stays `None`.
#[derive(Copy, Clone, Debug)]
pub struct StyleBuilder {
    pub color: Option<Color>,
    pub background_color: Option<Color>,
}

impl StyleBuilder {
    pub fn new() -> (b: StyleBuilder)
        ensures
            b.color.is_none(),
            b.background_color.is_none(),
    {
        StyleBuilder { color: None, background_color: None }
    }

    /// Sets the foreground color.
    pub fn color(&mut self, color: Color)
        ensures
            final(self).color == Some(color),
            final(self).background_color == old(self).background_color,
    {
        self.color = Some(color);
    }

    /// Sets the background color.
    pub fn background_color(&mut self, color: Color)
        ensures
            final(self).background_color == Some(color),
            final(self).color == old(self).color,
    {
        self.background_color = Some(color);
    }

    /// The style with the colors set so far.
    pub fn build(&self) -> (s: Style)
        ensures
            s.color == self.color,
            s.background_color == self.background_color,
    {
        Style { color: self.color, background_color: self.background_color }
    }
}

impl Default for StyleBuilder {
    fn default() -> (b: StyleBuilder)
        ensures
            b.color.is_none(),
            b.background_color.is_none(),
    {
        StyleBuilder::new()
    }
}

/// Overriding with a style that sets no color changes nothing.
pub proof fn law_override_with_nothing(s: Style)
    ensures
        s.overridden_by(Style { color: None, background_color: None }) == s,
{
}

/// Overriding by `b` and then by `c` is overriding by `b` overridden by `c`:
/// nested texts may combine their styles from the outside in or from the
/// inside out.
pub proof fn law_override_associative(a: Style, b: Style, c: Style)
    ensures
        a.overridden_by(b).overridden_by(c) == a.overridden_by(b.overridden_by(c)),
{
}

} // verus!
