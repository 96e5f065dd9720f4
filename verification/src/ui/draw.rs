//! What the views draw: areas, styles and a list of drawing steps.

use vstd::prelude::*;

use crate::text;
use crate::text::{chars_of, string_of};

verus! {

broadcast use vstd::string::group_string_axioms;

// ---------------------------------------------------------------------------------------------
// Areas
// ---------------------------------------------------------------------------------------------

/// A rectangle of terminal cells.
#[derive(Debug, Clone, Copy, PartialEq, Eq, Structural)]
pub struct Rect {
    pub x: u16,
    pub y: u16,
    pub width: u16,
    pub height: u16,
}

/// `a - b`, but not below zero.
pub open spec fn less(a: int, b: int) -> int {
    if a >= b {
        a - b
    } else {
        0
    }
}

/// The smaller of the two.
pub open spec fn least(a: int, b: int) -> int {
    if a <= b {
        a
    } else {
        b
    }
}

/// The larger of the two.
pub open spec fn most(a: int, b: int) -> int {
    if a >= b {
        a
    } else {
        b
    }
}

impl Rect {
    /// Whether the right and the lower edge have coordinates.
    pub open spec fn wf(self) -> bool {
        self.x + self.width <= u16::MAX && self.y + self.height <= u16::MAX
    }

    /// The area inside a border of one cell.
    pub open spec fn inside(self) -> Rect {
        Rect {
            x: least(self.x + 1, self.x + self.width) as u16,
            y: least(self.y + 1, self.y + self.height) as u16,
            width: less(self.width as int, 2) as u16,
            height: less(self.height as int, 2) as u16,
        }
    }

    /// The area without its `n` leftmost columns.
    pub open spec fn without_left(self, n: int) -> Rect {
        Rect {
            x: (self.x + least(n, self.width as int)) as u16,
            width: less(self.width as int, n) as u16,
            ..self
        }
    }

    /// The area without its `n` topmost rows.
    pub open spec fn without_top(self, n: int) -> Rect {
        Rect {
            y: (self.y + least(n, self.height as int)) as u16,
            height: less(self.height as int, n) as u16,
            ..self
        }
    }

    /// The area with a gap of `n` columns on either side, or nothing where it is too narrow.
    pub open spec fn with_gap(self, n: int) -> Rect {
        if self.width < 2 * n {
            Rect { x: 0, y: 0, width: 0, height: 0 }
        } else {
            Rect { x: (self.x + n) as u16, width: (self.width - 2 * n) as u16, ..self }
        }
    }

    /// The area inside a border of one cell.
    pub fn bordered_inner(self) -> (r: Rect)
        requires
            self.wf(),
        ensures
            r == self.inside(),
            r.wf(),
            self.width >= 2 && self.height >= 2 ==> r == (Rect {
                x: (self.x + 1) as u16,
                y: (self.y + 1) as u16,
                width: (self.width - 2) as u16,
                height: (self.height - 2) as u16,
            }),
    {
        Rect {
            x: if self.width >= 1 {
                self.x + 1
            } else {
                self.x
            },
            y: if self.height >= 1 {
                self.y + 1
            } else {
                self.y
            },
            width: self.width.saturating_sub(2),
            height: self.height.saturating_sub(2),
        }
    }

    /// The area without its `n` leftmost columns.
    pub fn clip_left(self, n: u16) -> (r: Rect)
        requires
            self.wf(),
        ensures
            r == self.without_left(n as int),
            r.wf(),
    {
        let n = if n <= self.width {
            n
        } else {
            self.width
        };
        Rect { x: self.x + n, y: self.y, width: self.width - n, height: self.height }
    }

    /// The area without its `n` rightmost columns.
    pub fn clip_right(self, n: u16) -> (r: Rect)
        requires
            self.wf(),
        ensures
            r == (Rect { width: less(self.width as int, n as int) as u16, ..self }),
            r.wf(),
    {
        Rect { x: self.x, y: self.y, width: self.width.saturating_sub(n), height: self.height }
    }

    /// The area without its `n` topmost rows.
    pub fn clip_top(self, n: u16) -> (r: Rect)
        requires
            self.wf(),
        ensures
            r == self.without_top(n as int),
            r.wf(),
    {
        let n = if n <= self.height {
            n
        } else {
            self.height
        };
        Rect { x: self.x, y: self.y + n, width: self.width, height: self.height - n }
    }

    /// The area with another width.
    pub fn with_width(self, width: u16) -> (r: Rect)
        ensures
            r == (Rect { width, ..self }),
    {
        Rect { x: self.x, y: self.y, width, height: self.height }
    }

    /// The area with another height.
    pub fn with_height(self, height: u16) -> (r: Rect)
        ensures
            r == (Rect { height, ..self }),
    {
        Rect { x: self.x, y: self.y, width: self.width, height }
    }

    /// The area with a gap of one column on either side, or nothing where it is too narrow.
    pub fn horizontal_gap(self) -> (r: Rect)
        requires
            self.wf(),
        ensures
            r == self.with_gap(1),
            r.wf(),
    {
        if self.width < 2 {
            Rect { x: 0, y: 0, width: 0, height: 0 }
        } else {
            Rect { x: self.x + 1, y: self.y, width: self.width - 2, height: self.height }
        }
    }
}

// ---------------------------------------------------------------------------------------------
// Styles
// ---------------------------------------------------------------------------------------------

/// A terminal colour.
#[derive(Debug, Clone, Copy, PartialEq, Eq, Structural)]
pub enum Color {
    Reset,
    Black,
    Red,
    Green,
    Yellow,
    Blue,
    Magenta,
    Cyan,
    Gray,
    LightRed,
    LightGreen,
    LightYellow,
    LightBlue,
    LightMagenta,
    LightCyan,
    LightGray,
    White,
    Rgb(u8, u8, u8),
    Indexed(u8),
}

/// How an underline is drawn.
#[derive(Debug, Clone, Copy, PartialEq, Eq, Structural)]
pub enum UnderlineStyle {
    Reset,
    Line,
    Curl,
    Dotted,
    Dashed,
    DoubleLine,
}

/// A set of text attributes.
#[derive(Debug, Clone, Copy, PartialEq, Eq, Structural)]
pub struct Modifiers {
    pub bold: bool,
    pub dim: bool,
    pub italic: bool,
    pub slow_blink: bool,
    pub rapid_blink: bool,
    pub reversed: bool,
    pub hidden: bool,
    pub crossed_out: bool,
}

impl Modifiers {
    /// The empty set.
    pub open spec fn nothing() -> Modifiers {
        Modifiers {
            bold: false,
            dim: false,
            italic: false,
            slow_blink: false,
            rapid_blink: false,
            reversed: false,
            hidden: false,
            crossed_out: false,
        }
    }

    /// The attributes of either set.
    pub open spec fn with(self, other: Modifiers) -> Modifiers {
        Modifiers {
            bold: self.bold || other.bold,
            dim: self.dim || other.dim,
            italic: self.italic || other.italic,
            slow_blink: self.slow_blink || other.slow_blink,
            rapid_blink: self.rapid_blink || other.rapid_blink,
            reversed: self.reversed || other.reversed,
            hidden: self.hidden || other.hidden,
            crossed_out: self.crossed_out || other.crossed_out,
        }
    }

    /// The attributes that are not in the other set.
    pub open spec fn without(self, other: Modifiers) -> Modifiers {
        Modifiers {
            bold: self.bold && !other.bold,
            dim: self.dim && !other.dim,
            italic: self.italic && !other.italic,
            slow_blink: self.slow_blink && !other.slow_blink,
            rapid_blink: self.rapid_blink && !other.rapid_blink,
            reversed: self.reversed && !other.reversed,
            hidden: self.hidden && !other.hidden,
            crossed_out: self.crossed_out && !other.crossed_out,
        }
    }

    /// The empty set.
    pub fn none() -> (r: Modifiers)
        ensures
            r == Modifiers::nothing(),
    {
        Modifiers {
            bold: false,
            dim: false,
            italic: false,
            slow_blink: false,
            rapid_blink: false,
            reversed: false,
            hidden: false,
            crossed_out: false,
        }
    }

    /// The attributes of either set.
    pub fn union(self, other: Modifiers) -> (r: Modifiers)
        ensures
            r == self.with(other),
    {
        Modifiers {
            bold: self.bold || other.bold,
            dim: self.dim || other.dim,
            italic: self.italic || other.italic,
            slow_blink: self.slow_blink || other.slow_blink,
            rapid_blink: self.rapid_blink || other.rapid_blink,
            reversed: self.reversed || other.reversed,
            hidden: self.hidden || other.hidden,
            crossed_out: self.crossed_out || other.crossed_out,
        }
    }

    /// The attributes that are not in the other set.
    pub fn difference(self, other: Modifiers) -> (r: Modifiers)
        ensures
            r == self.without(other),
    {
        Modifiers {
            bold: self.bold && !other.bold,
            dim: self.dim && !other.dim,
            italic: self.italic && !other.italic,
            slow_blink: self.slow_blink && !other.slow_blink,
            rapid_blink: self.rapid_blink && !other.rapid_blink,
            reversed: self.reversed && !other.reversed,
            hidden: self.hidden && !other.hidden,
            crossed_out: self.crossed_out && !other.crossed_out,
        }
    }
}

/// A style: what it sets of the look of a cell. What it leaves open stays as it was.
#[derive(Debug, Clone, Copy, PartialEq, Eq, Structural)]
pub struct Style {
    pub fg: Option<Color>,
    pub bg: Option<Color>,
    pub underline_color: Option<Color>,
    pub underline_style: Option<UnderlineStyle>,
    pub add_modifier: Modifiers,
    pub sub_modifier: Modifiers,
}

/// The first of the two that is there.
pub open spec fn either<T>(a: Option<T>, b: Option<T>) -> Option<T> {
    match a {
        Some(_) => a,
        None => b,
    }
}

fn either_of<T: Copy>(a: Option<T>, b: Option<T>) -> (r: Option<T>)
    ensures
        r == either(a, b),
{
    match a {
        Some(t) => Some(t),
        None => b,
    }
}

impl Style {
    /// The style that sets nothing.
    pub open spec fn plain() -> Style {
        Style {
            fg: None,
            bg: None,
            underline_color: None,
            underline_style: None,
            add_modifier: Modifiers::nothing(),
            sub_modifier: Modifiers::nothing(),
        }
    }

    /// This style with what the other sets put over it.
    pub open spec fn under(self, other: Style) -> Style {
        Style {
            fg: either(other.fg, self.fg),
            bg: either(other.bg, self.bg),
            underline_color: either(other.underline_color, self.underline_color),
            underline_style: either(other.underline_style, self.underline_style),
            add_modifier: self.add_modifier.without(other.sub_modifier).with(other.add_modifier),
            sub_modifier: self.sub_modifier.without(other.add_modifier).with(other.sub_modifier),
        }
    }

    /// This style with attributes added.
    pub open spec fn marked(self, modifiers: Modifiers) -> Style {
        Style {
            add_modifier: self.add_modifier.with(modifiers),
            sub_modifier: self.sub_modifier.without(modifiers),
            ..self
        }
    }

    /// This style in bold.
    pub open spec fn in_bold(self) -> Style {
        self.marked(Modifiers { bold: true, ..Modifiers::nothing() })
    }

    /// This style in italics.
    pub open spec fn in_italics(self) -> Style {
        self.marked(Modifiers { italic: true, ..Modifiers::nothing() })
    }

    /// The style that sets nothing.
    pub fn new() -> (r: Style)
        ensures
            r == Style::plain(),
    {
        Style {
            fg: None,
            bg: None,
            underline_color: None,
            underline_style: None,
            add_modifier: Modifiers::none(),
            sub_modifier: Modifiers::none(),
        }
    }

    /// This style with what the other sets put over it.
    pub fn patch(self, other: Style) -> (r: Style)
        ensures
            r == self.under(other),
    {
        Style {
            fg: either_of(other.fg, self.fg),
            bg: either_of(other.bg, self.bg),
            underline_color: either_of(other.underline_color, self.underline_color),
            underline_style: either_of(other.underline_style, self.underline_style),
            add_modifier: self.add_modifier.difference(other.sub_modifier).union(
                other.add_modifier,
            ),
            sub_modifier: self.sub_modifier.difference(other.add_modifier).union(
                other.sub_modifier,
            ),
        }
    }

    /// This style with attributes added.
    pub fn add_modifier(self, modifiers: Modifiers) -> (r: Style)
        ensures
            r == self.marked(modifiers),
    {
        Style {
            add_modifier: self.add_modifier.union(modifiers),
            sub_modifier: self.sub_modifier.difference(modifiers),
            ..self
        }
    }

    /// This style in bold.
    pub fn bold(self) -> (r: Style)
        ensures
            r == self.in_bold(),
    {
        let mut m = Modifiers::none();
        m.bold = true;
        self.add_modifier(m)
    }

    /// This style in italics.
    pub fn italic(self) -> (r: Style)
        ensures
            r == self.in_italics(),
    {
        let mut m = Modifiers::none();
        m.italic = true;
        self.add_modifier(m)
    }

    /// This style with a foreground colour.
    pub fn with_fg(self, color: Color) -> (r: Style)
        ensures
            r == (Style { fg: Some(color), ..self }),
    {
        Style { fg: Some(color), ..self }
    }

    /// This style with a background colour.
    pub fn with_bg(self, color: Color) -> (r: Style)
        ensures
            r == (Style { bg: Some(color), ..self }),
    {
        Style { bg: Some(color), ..self }
    }

    /// This style with an underline.
    pub fn underlined(self) -> (r: Style)
        ensures
            r == (Style { underline_style: Some(UnderlineStyle::Line), ..self }),
    {
        Style { underline_style: Some(UnderlineStyle::Line), ..self }
    }
}

/// The styles that the views take from a theme, by the scope that each is looked up under.
#[derive(Debug, Clone, Copy, PartialEq, Eq, Structural)]
pub struct Theme {
    /// `ui.background`
    pub background: Style,
    /// `ui.background.separator`
    pub separator: Style,
    /// `ui.popup.info`
    pub popup_info: Style,
    /// `ui.text`
    pub text: Style,
    /// `ui.text.focus`
    pub text_focus: Style,
    /// `ui.text.directory`
    pub directory: Style,
    /// `ui.virtual.whitespace`
    pub whitespace: Style,
    /// `ui.virtual.inlay-hint`
    pub inlay_hint: Style,
    /// `ui.statusline`
    pub statusline: Style,
    /// `ui.linenr`
    pub line_number: Style,
    /// `ui.cursor.primary`
    pub cursor: Style,
    /// `ui.highlight`, where the theme has it
    pub highlight: Option<Style>,
    /// `ui.selection`
    pub selection: Style,
    /// `ui.picker.header`
    pub header: Style,
    /// `ui.picker.header.column`
    pub header_column: Style,
    /// `ui.picker.header.column.active`
    pub active_column: Style,
    /// `special`
    pub special: Style,
    /// `string`
    pub string: Style,
    /// `markup.heading`
    pub heading: Style,
    /// `diagnostic.warning`
    pub warning: Style,
    /// `diagnostic.error`
    pub error: Style,
    /// `diff.plus`
    pub diff_plus: Style,
    /// `diff.minus`
    pub diff_minus: Style,
    /// `diff.delta`
    pub diff_delta: Style,
}

// ---------------------------------------------------------------------------------------------
// Drawing steps
// ---------------------------------------------------------------------------------------------

/// A step of drawing.
#[derive(Debug, Clone, PartialEq, Eq)]
pub enum DrawOp {
    /// Empty an area and give it a style.
    Clear { area: Rect, style: Style },
    /// Draw a border around an area, with a title where one is given.
    Frame { area: Rect, title: Option<String>, style: Style },
    /// Write text from a cell on, in at most `max` columns.
    Text { x: u16, y: u16, text: String, max: usize, style: Style },
    /// Give the cells of a row a style and leave what they show.
    Paint { x: u16, y: u16, width: u16, style: Style },
    /// Put one character into a cell.
    Glyph { x: u16, y: u16, symbol: char, style: Style },
    /// Mark how far a list is scrolled in the column `x`: in the row that divides the rows from
    /// `y` on as `offset` divides the range up to `most`.
    Thumb { x: u16, y: u16, height: u16, offset: usize, most: usize, style: Style },
    /// Draw a line of the diff that the view shows, by its index, in the row `y` of an area, with
    /// line numbers in a column of the width given.
    DiffRow { area: Rect, y: u16, index: usize, number_width: u16 },
}

/// A step of drawing, with its text as a character sequence.
pub enum Draw {
    Clear { area: Rect, style: Style },
    Frame { area: Rect, title: Option<Seq<char>>, style: Style },
    Text { x: int, y: int, text: Seq<char>, max: int, style: Style },
    Paint { x: int, y: int, width: int, style: Style },
    Glyph { x: int, y: int, symbol: char, style: Style },
    Thumb { x: int, y: int, height: int, offset: int, most: int, style: Style },
    DiffRow { area: Rect, y: int, index: int, number_width: int },
}

impl View for DrawOp {
    type V = Draw;

    open spec fn view(&self) -> Draw {
        match *self {
            DrawOp::Clear { area, style } => Draw::Clear { area, style },
            DrawOp::Frame { area, title, style } => Draw::Frame {
                area,
                title: text::opt_string(title),
                style,
            },
            DrawOp::Text { x, y, text, max, style } => Draw::Text {
                x: x as int,
                y: y as int,
                text: text@,
                max: max as int,
                style,
            },
            DrawOp::Paint { x, y, width, style } => Draw::Paint {
                x: x as int,
                y: y as int,
                width: width as int,
                style,
            },
            DrawOp::Glyph { x, y, symbol, style } => Draw::Glyph {
                x: x as int,
                y: y as int,
                symbol,
                style,
            },
            DrawOp::Thumb { x, y, height, offset, most, style } => Draw::Thumb {
                x: x as int,
                y: y as int,
                height: height as int,
                offset: offset as int,
                most: most as int,
                style,
            },
            DrawOp::DiffRow { area, y, index, number_width } => Draw::DiffRow {
                area,
                y: y as int,
                index: index as int,
                number_width: number_width as int,
            },
        }
    }
}

/// The drawing steps of a view, in order.
pub struct Canvas {
    pub ops: Vec<DrawOp>,
}

impl View for Canvas {
    type V = Seq<Draw>;

    open spec fn view(&self) -> Seq<Draw> {
        self.ops@.map_values(|op: DrawOp| op@)
    }
}

impl Canvas {
    /// A canvas with nothing drawn.
    pub fn new() -> (r: Canvas)
        ensures
            r@ == Seq::<Draw>::empty(),
    {
        let r = Canvas { ops: Vec::new() };
        proof {
            assert(r@ =~= Seq::<Draw>::empty());
        }
        r
    }

    fn push(&mut self, op: DrawOp)
        ensures
            final(self)@ == old(self)@.push(op@),
    {
        let ghost before = self@;
        self.ops.push(op);
        proof {
            assert(self@ =~= before.push(op@));
        }
    }

    /// Empties an area and gives it a style.
    pub fn clear(&mut self, area: Rect, style: Style)
        ensures
            final(self)@ == old(self)@.push(Draw::Clear { area, style }),
    {
        self.push(DrawOp::Clear { area, style });
    }

    /// Draws a border without a title.
    pub fn border(&mut self, area: Rect, style: Style)
        ensures
            final(self)@ == old(self)@.push(Draw::Frame { area, title: None, style }),
    {
        self.push(DrawOp::Frame { area, title: None, style });
    }

    /// Draws a border with a title.
    pub fn titled(&mut self, area: Rect, title: String, style: Style)
        ensures
            final(self)@ == old(self)@.push(Draw::Frame { area, title: Some(title@), style }),
    {
        self.push(DrawOp::Frame { area, title: Some(title), style });
    }

    /// Writes text from a cell on, in at most `max` columns.
    pub fn text(&mut self, x: u16, y: u16, text: &str, max: usize, style: Style)
        ensures
            final(self)@ == old(self)@.push(
                Draw::Text { x: x as int, y: y as int, text: text@, max: max as int, style },
            ),
    {
        let t = chars_of(text);
        self.push(DrawOp::Text { x, y, text: string_of(&t), max, style });
    }

    /// Writes text from a cell on, in at most `max` columns.
    pub fn chars(&mut self, x: u16, y: u16, text: &Vec<char>, max: usize, style: Style)
        ensures
            final(self)@ == old(self)@.push(
                Draw::Text { x: x as int, y: y as int, text: text@, max: max as int, style },
            ),
    {
        self.push(DrawOp::Text { x, y, text: string_of(text), max, style });
    }

    /// Gives the cells of a row a style.
    pub fn paint(&mut self, x: u16, y: u16, width: u16, style: Style)
        ensures
            final(self)@ == old(self)@.push(
                Draw::Paint { x: x as int, y: y as int, width: width as int, style },
            ),
    {
        self.push(DrawOp::Paint { x, y, width, style });
    }

    /// Puts one character into a cell.
    pub fn glyph(&mut self, x: u16, y: u16, symbol: char, style: Style)
        ensures
            final(self)@ == old(self)@.push(
                Draw::Glyph { x: x as int, y: y as int, symbol, style },
            ),
    {
        self.push(DrawOp::Glyph { x, y, symbol, style });
    }

    /// Marks how far a list is scrolled.
    pub fn thumb(&mut self, x: u16, y: u16, height: u16, offset: usize, most: usize, style: Style)
        ensures
            final(self)@ == old(self)@.push(
                Draw::Thumb {
                    x: x as int,
                    y: y as int,
                    height: height as int,
                    offset: offset as int,
                    most: most as int,
                    style,
                },
            ),
    {
        self.push(DrawOp::Thumb { x, y, height, offset, most, style });
    }

    /// Draws a line of a diff.
    pub fn diff_row(&mut self, area: Rect, y: u16, index: usize, number_width: u16)
        ensures
            final(self)@ == old(self)@.push(
                Draw::DiffRow {
                    area,
                    y: y as int,
                    index: index as int,
                    number_width: number_width as int,
                },
            ),
    {
        self.push(DrawOp::DiffRow { area, y, index, number_width });
    }
}

/// What is inside the border of an area lies one cell from each of its edges.
pub proof fn law_inside_leaves_a_border(area: Rect)
    requires
        area.wf(),
        area.width >= 2,
        area.height >= 2,
    ensures
        area.inside().x == area.x + 1,
        area.inside().y == area.y + 1,
        area.inside().x + area.inside().width == area.x + area.width - 1,
        area.inside().y + area.inside().height == area.y + area.height - 1,
{
}

/// Cutting columns or rows off an area leaves its other edges where they are, and so does a gap on
/// both sides.
pub proof fn law_cutting_keeps_the_other_edges(area: Rect, n: int)
    requires
        area.wf(),
        0 <= n,
    ensures
        n <= area.width ==> area.without_left(n).x == area.x + n && area.without_left(n).width
            == area.width - n,
        n <= area.height ==> area.without_top(n).y == area.y + n && area.without_top(n).height
            == area.height - n,
        area.without_left(n).y == area.y && area.without_left(n).height == area.height,
        area.without_top(n).x == area.x && area.without_top(n).width == area.width,
        2 * n <= area.width ==> area.with_gap(n).x == area.x + n && area.with_gap(n).width
            == area.width - 2 * n && area.with_gap(n).y == area.y && area.with_gap(n).height
            == area.height,
        2 * n > area.width ==> area.with_gap(n).width == 0,
{
}

/// A style put over another one decides where it says something, and leaves the other where it does
/// not. What it adds is on, what it takes is off.
pub proof fn law_style_on_top_decides(below: Style, top: Style)
    ensures
        top.fg is Some ==> below.under(top).fg == top.fg,
        top.fg is None ==> below.under(top).fg == below.fg,
        top.bg is Some ==> below.under(top).bg == top.bg,
        top.bg is None ==> below.under(top).bg == below.bg,
        top.add_modifier.bold ==> below.under(top).add_modifier.bold,
        top.sub_modifier.bold && !top.add_modifier.bold ==> !below.under(top).add_modifier.bold,
        top.add_modifier.italic ==> below.under(top).add_modifier.italic,
        top.sub_modifier.italic && !top.add_modifier.italic ==> !below.under(
            top,
        ).add_modifier.italic,
        !top.add_modifier.bold && !top.sub_modifier.bold ==> below.under(top).add_modifier.bold
            == below.add_modifier.bold,
        below.under(Style::plain()) == below,
        below.in_bold().add_modifier.bold,
        below.in_bold().fg == below.fg && below.in_bold().bg == below.bg,
        below.in_bold().add_modifier.italic == below.add_modifier.italic,
        below.in_italics().add_modifier.italic,
        below.in_italics().fg == below.fg && below.in_italics().bg == below.bg,
        below.in_italics().add_modifier.bold == below.add_modifier.bold,
{
}

/// Differences stop at zero; the least and the most of two numbers are one of them.
pub proof fn law_bounds(a: int, b: int)
    ensures
        a >= b ==> less(a, b) == a - b,
        a <= b ==> less(a, b) == 0,
        least(a, b) <= a && least(a, b) <= b && (least(a, b) == a || least(a, b) == b),
        most(a, b) >= a && most(a, b) >= b && (most(a, b) == a || most(a, b) == b),
{
}

/// An area too small for a border has nothing inside it.
pub proof fn law_small_areas_have_nothing_inside(area: Rect)
    requires
        area.wf(),
    ensures
        area.width < 2 ==> area.inside().width == 0,
        area.height < 2 ==> area.inside().height == 0,
        area.width == 0 ==> area.inside().x == area.x,
        area.height == 0 ==> area.inside().y == area.y,
        area.width == 1 ==> area.inside().x == area.x + 1,
        area.height == 1 ==> area.inside().y == area.y + 1,
{
}

/// Marking a style adds the attribute and takes back that it was left out; the rest of the style
/// stays.
pub proof fn law_marks_are_added(s: Style)
    ensures
        s.in_bold().add_modifier.bold,
        !s.in_bold().sub_modifier.bold,
        s.in_bold().add_modifier.italic == s.add_modifier.italic,
        s.in_bold().sub_modifier.italic == s.sub_modifier.italic,
        s.in_italics().add_modifier.italic,
        !s.in_italics().sub_modifier.italic,
        s.in_italics().add_modifier.bold == s.add_modifier.bold,
        s.in_italics().sub_modifier.bold == s.sub_modifier.bold,
        s.in_bold().fg == s.fg && s.in_bold().bg == s.bg,
        s.in_italics().fg == s.fg && s.in_italics().bg == s.bg,
{
}

} // verus!
