//! A renderer which draws onto a grid of characters.

use vstd::prelude::*;

use crate::node::function::Function;
use crate::render::{Area, Glyph, Renderer, SizeFn, ViewportGlyph};

verus! {

/// Draws glyphs as characters in a grid, one character per unit of area.
pub struct AsciiRenderer {
    /// The drawn lines, top to bottom.
    pub lines: Vec<String>,
    /// The drawn characters, row by row.
    pub cells: Vec<Vec<char>>,
}

/// A character placed at a point of the grid.
pub type Placement = (int, int, char);

/// The size of each glyph in characters.
pub open spec fn ascii_size(glyph: Glyph) -> Area {
    match glyph {
        Glyph::Fraction { inner_width } => Area { width: inner_width, height: 1 },
        Glyph::Sqrt { inner_area } => Area {
            width: vstd::wrapping::u64_specs::wrapping_add(inner_area.width, 2),
            height: vstd::wrapping::u64_specs::wrapping_add(inner_area.height, 1),
        },
        Glyph::LeftParenthesis { inner_height } | Glyph::RightParenthesis { inner_height } => Area {
            width: 1,
            height: inner_height,
        },
        Glyph::Cursor { height } => Area { width: 1, height },
        Glyph::FunctionName { function } => Area { width: name_chars(function).len() as u64, height: 1 },
        _ => Area { width: 1, height: 1 },
    }
}

/// The characters of the name of a function.
pub open spec fn name_chars(function: Function) -> Seq<char> {
    match function {
        Function::Sine => seq!['s', 'i', 'n'],
        Function::Cosine => seq!['c', 'o', 's'],
        Function::GreatestCommonDenominator => seq!['g', 'c', 'd'],
    }
}

/// The character drawn for a digit: the first character of its decimal representation.
pub open spec fn digit_char(number: u8) -> char {
    let first = if number >= 100 {
        number / 100
    } else if number >= 10 {
        number / 10
    } else {
        number
    };
    (first + 48) as char
}

/// A column of characters: `first` at the top, `middle` below it, and `last` at the bottom.
pub open spec fn column(x: int, y: int, height: int, first: char, middle: char, last: char) -> Seq<Placement> {
    Seq::new(
        height as nat,
        |i: int|
            (
                x,
                y + i,
                if i == 0 {
                    first
                } else if i == height - 1 {
                    last
                } else {
                    middle
                },
            ),
    )
}

/// `n` copies of a character, in a row going right or a column going down from a point.
pub open spec fn run(c: char, x: int, y: int, n: int, down: bool) -> Seq<Placement> {
    Seq::new(n as nat, |i: int| if down { (x, y + i, c) } else { (x + i, y, c) })
}

/// The characters which draw a glyph whose top-left is at the given point, in drawing order.
pub open spec fn glyph_placements(glyph: Glyph, x: int, y: int) -> Seq<Placement> {
    match glyph {
        Glyph::Digit { number } => seq![(x, y, digit_char(number))],
        Glyph::Point => seq![(x, y, '.')],
        Glyph::Variable { name } => seq![(x, y, name)],
        Glyph::Add => seq![(x, y, '+')],
        Glyph::Subtract => seq![(x, y, '-')],
        Glyph::Multiply => seq![(x, y, '*')],
        Glyph::Divide => seq![(x, y, '/')],
        Glyph::Comma => seq![(x, y, ',')],
        Glyph::Placeholder => seq![(x, y, 'X')],
        Glyph::Fraction { inner_width } => run('-', x, y, inner_width as int, false),
        Glyph::LeftParenthesis { inner_height } => if inner_height == 1 {
            seq![(x, y, '(')]
        } else {
            column(x, y, inner_height as int, '/', '|', '\\')
        },
        Glyph::RightParenthesis { inner_height } => if inner_height == 1 {
            seq![(x, y, ')')]
        } else {
            column(x, y, inner_height as int, '\\', '|', '/')
        },
        Glyph::Sqrt { inner_area } => seq![(x, y + inner_area.height, '\\')] + run(
            '|',
            x + 1,
            y + 1,
            inner_area.height as int,
            true,
        ) + seq![(x + 1, y, '.')] + run('-', x + 2, y, inner_area.width as int, false),
        Glyph::Cursor { height } => run('|', x, y, height as int, true),
        Glyph::FunctionName { function } => Seq::new(
            name_chars(function).len(),
            |i: int| (x + i, y, name_chars(function)[i]),
        ),
    }
}

/// The grid with one character placed, if the point lies inside the grid.
pub open spec fn put(cells: Seq<Seq<char>>, p: Placement) -> Seq<Seq<char>> {
    let (x, y, c) = p;
    if 0 <= y < cells.len() && 0 <= x < cells[y].len() {
        cells.update(y, cells[y].update(x, c))
    } else {
        cells
    }
}

/// The grid with the characters placed one after the other.
pub open spec fn put_all(cells: Seq<Seq<char>>, placements: Seq<Placement>) -> Seq<Seq<char>>
    decreases placements.len(),
{
    if placements.len() == 0 {
        cells
    } else {
        put(put_all(cells, placements.drop_last()), placements.last())
    }
}

/// A blank grid of the given size.
pub open spec fn blank(width: int, height: int) -> Seq<Seq<char>> {
    Seq::new(height as nat, |i: int| Seq::new(width as nat, |j: int| ' '))
}

/// Appends a character to a string.
#[verifier::external_body]
fn push_char(s: &mut String, c: char)
    ensures
        final(s)@ == old(s)@.push(c),
{
    s.push(c);
}

/// Placing two runs of characters one after the other places their concatenation.
proof fn lemma_put_all_concat(cells: Seq<Seq<char>>, a: Seq<Placement>, b: Seq<Placement>)
    ensures
        put_all(cells, a + b) == put_all(put_all(cells, a), b),
    decreases b.len(),
{
    if b.len() == 0 {
        assert(a + b =~= a);
    } else {
        lemma_put_all_concat(cells, a, b.drop_last());
        assert((a + b).drop_last() =~= a + b.drop_last());
    }
}

/// Placing a single character.
proof fn lemma_put_all_one(cells: Seq<Seq<char>>, p: Placement)
    ensures
        put_all(cells, seq![p]) == put(cells, p),
{
    assert(seq![p].drop_last() =~= Seq::<Placement>::empty());
    assert(put_all(cells, Seq::<Placement>::empty()) == cells);
}

/// The glyph's dimensions are small enough to draw with word arithmetic.
pub open spec fn small_glyph(glyph: Glyph) -> bool {
    let limit = 0x1000_0000_0000_0000u64;
    match glyph {
        Glyph::Fraction { inner_width } => inner_width <= limit,
        Glyph::Sqrt { inner_area } => inner_area.width <= limit && inner_area.height <= limit,
        Glyph::LeftParenthesis { inner_height } | Glyph::RightParenthesis { inner_height } => inner_height <= limit,
        Glyph::Cursor { height } => height <= limit,
        _ => true,
    }
}

impl AsciiRenderer {
    /// The characters drawn so far.
    pub open spec fn grid(&self) -> Seq<Seq<char>> {
        Seq::new(self.cells@.len(), |i: int| self.cells@[i]@)
    }

    /// The characters of the lines.
    pub open spec fn shown(&self) -> Seq<Seq<char>> {
        Seq::new(self.lines@.len(), |i: int| self.lines@[i]@)
    }

    /// A renderer which has not drawn anything yet.
    pub fn new() -> (r: Self)
        ensures
            r.grid() == Seq::<Seq<char>>::empty(),
            r.lines@.len() == 0,
    {
        let r = AsciiRenderer { lines: Vec::new(), cells: Vec::new() };
        assert(r.grid() =~= Seq::<Seq<char>>::empty());
        r
    }

    /// Places a character at a point of the grid, if the point lies inside it.
    fn put_char(&mut self, c: char, x: i64, y: i64)
        ensures
            final(self).grid() == put(old(self).grid(), (x as int, y as int, c)),
            final(self).lines == old(self).lines,
    {
        if 0 <= y && (y as u64) < (self.cells.len() as u64) {
            let row = y as usize;
            if 0 <= x && (x as u64) < (self.cells[row].len() as u64) {
                let col = x as usize;
                let ghost before = self.grid();
                let mut line: Vec<char> = Vec::new();
                let mut cells = Vec::new();
                std::mem::swap(&mut cells, &mut self.cells);
                std::mem::swap(&mut line, &mut cells[row]);
                assert(line@ == before[row as int]);
                line.set(col, c);
                cells.set(row, line);
                self.cells = cells;
                assert(self.grid() =~= put(before, (x as int, y as int, c)));
            } else {
                assert(self.grid() =~= put(self.grid(), (x as int, y as int, c)));
            }
        }
    }

    /// Places `n` copies of a character, going right (`down` false) or down from a point.
    fn put_run(&mut self, c: char, x: i64, y: i64, n: u64, down: bool)
        requires
            -0x2000_0000_0000_0000 <= x <= 0x2000_0000_0000_0000,
            -0x2000_0000_0000_0000 <= y <= 0x2000_0000_0000_0000,
            n <= 0x1000_0000_0000_0000,
        ensures
            final(self).grid() == put_all(old(self).grid(), run(c, x as int, y as int, n as int, down)),
            final(self).lines == old(self).lines,
    {
        let ghost placements = run(c, x as int, y as int, n as int, down);
        let mut i: u64 = 0;
        while i < n
            invariant
                i <= n,
                n <= 0x1000_0000_0000_0000,
                -0x2000_0000_0000_0000 <= x <= 0x2000_0000_0000_0000,
                -0x2000_0000_0000_0000 <= y <= 0x2000_0000_0000_0000,
                placements == run(c, x as int, y as int, n as int, down),
                self.grid() == put_all(old(self).grid(), placements.take(i as int)),
                self.lines == old(self).lines,
            decreases n - i,
        {
            if down {
                self.put_char(c, x, y + i as i64);
            } else {
                self.put_char(c, x + i as i64, y);
            }
            assert(placements.take(i + 1).drop_last() =~= placements.take(i as int));
            i = i + 1;
        }
        assert(placements.take(n as int) =~= placements);
    }

    /// Places characters one after the other.
    fn put_column(&mut self, x: i64, y: i64, height: u64, first: char, middle: char, last: char)
        requires
            x as int == x,
            -0x1000_0000_0000_0000 <= y <= 0x1000_0000_0000_0000,
            height <= 0x1000_0000_0000_0000,
        ensures
            final(self).grid() == put_all(old(self).grid(), column(x as int, y as int, height as int, first, middle, last)),
            final(self).lines == old(self).lines,
    {
        let ghost placements = column(x as int, y as int, height as int, first, middle, last);
        let mut i: u64 = 0;
        while i < height
            invariant
                i <= height,
                height <= 0x1000_0000_0000_0000,
                -0x1000_0000_0000_0000 <= y <= 0x1000_0000_0000_0000,
                placements == column(x as int, y as int, height as int, first, middle, last),
                self.grid() == put_all(old(self).grid(), placements.take(i as int)),
                self.lines == old(self).lines,
            decreases height - i,
        {
            let c = if i == 0 {
                first
            } else if i == height - 1 {
                last
            } else {
                middle
            };
            self.put_char(c, x, y + i as i64);
            assert(placements.take(i + 1).drop_last() =~= placements.take(i as int));
            i = i + 1;
        }
        assert(placements.take(height as int) =~= placements);
    }

    /// Refreshes the lines from the characters drawn.
    fn refresh_lines(&mut self)
        ensures
            final(self).grid() == old(self).grid(),
            final(self).shown() == final(self).grid(),
    {
        let mut lines: Vec<String> = Vec::new();
        let mut i: usize = 0;
        while i < self.cells.len()
            invariant
                i <= self.cells@.len(),
                lines@.len() == i,
                forall|k: int| 0 <= k < i ==> (#[trigger] lines@[k])@ == self.grid()[k],
            decreases self.cells@.len() - i,
        {
            let mut line = String::new();
            let mut j: usize = 0;
            while j < self.cells[i].len()
                invariant
                    i < self.cells@.len(),
                    j <= self.cells@[i as int]@.len(),
                    line@ =~= self.cells@[i as int]@.take(j as int),
                decreases self.cells@[i as int]@.len() - j,
            {
                push_char(&mut line, self.cells[i][j]);
                j = j + 1;
            }
            assert(self.cells@[i as int]@.take(j as int) =~= self.cells@[i as int]@);
            lines.push(line);
            i = i + 1;
        }
        self.lines = lines;
        assert(self.shown() =~= self.grid());
    }
}

impl Default for AsciiRenderer {
    fn default() -> (r: Self)
        ensures
            r.grid() == Seq::<Seq<char>>::empty(),
            r.lines@.len() == 0,
    {
        AsciiRenderer::new()
    }
}

/// The glyph and its point are small enough to draw with word arithmetic.
pub open spec fn drawable(glyph: ViewportGlyph) -> bool {
    &&& small_glyph(glyph.glyph.glyph)
    &&& -0x1000_0000_0000_0000 <= glyph.point.x <= 0x1000_0000_0000_0000
    &&& -0x1000_0000_0000_0000 <= glyph.point.y <= 0x1000_0000_0000_0000
}

impl Renderer for AsciiRenderer {
    type Surface = Seq<Seq<char>>;

    open spec fn sizes(&self) -> SizeFn {
        |glyph: Glyph, level: u32| ascii_size(glyph)
    }

    open spec fn surface(&self) -> Seq<Seq<char>> {
        self.grid()
    }

    open spec fn blank_surface(size: Area) -> Seq<Seq<char>> {
        blank(size.width as int, size.height as int)
    }

    /// The characters of the glyph placed on the grid; a glyph too large to draw leaves it as it
    /// was.
    open spec fn drawn_on(surface: Seq<Seq<char>>, glyph: ViewportGlyph) -> Seq<Seq<char>> {
        if drawable(glyph) {
            put_all(surface, glyph_placements(glyph.glyph.glyph, glyph.point.x as int, glyph.point.y as int))
        } else {
            surface
        }
    }

    fn size(&mut self, glyph: Glyph, size_reduction_level: u32) -> (r: Area) {
        match glyph {
            Glyph::Fraction { inner_width } => Area::new(inner_width, 1),
            Glyph::Sqrt { inner_area } => Area::new(
                inner_area.width.wrapping_add(2),
                inner_area.height.wrapping_add(1),
            ),
            Glyph::LeftParenthesis { inner_height } | Glyph::RightParenthesis { inner_height } => Area::new(1, inner_height),
            Glyph::Cursor { height } => Area::new(1, height),
            Glyph::FunctionName { function } => {
                let name = function.render_name();
                proof {
                    reveal_strlit("sin");
                    reveal_strlit("cos");
                    reveal_strlit("gcd");
                }
                assert(name@ =~= name_chars(function));
                Area::new(name.unicode_len() as u64, 1)
            },
            _ => Area::square(1),
        }
    }

    fn init(&mut self, size: Area)
        ensures
            final(self).grid() == blank(size.width as int, size.height as int),
            final(self).shown() == final(self).grid(),
    {
        let mut cells: Vec<Vec<char>> = Vec::new();
        let mut i: u64 = 0;
        while i < size.height
            invariant
                i <= size.height,
                cells@.len() == i,
                forall|k: int| 0 <= k < i ==> (#[trigger] cells@[k])@ =~= Seq::new(size.width as nat, |j: int| ' '),
            decreases size.height - i,
        {
            let mut row: Vec<char> = Vec::new();
            let mut j: u64 = 0;
            while j < size.width
                invariant
                    j <= size.width,
                    row@ =~= Seq::new(j as nat, |k: int| ' '),
                decreases size.width - j,
            {
                row.push(' ');
                j = j + 1;
            }
            cells.push(row);
            i = i + 1;
        }
        self.cells = cells;
        assert(self.grid() =~= blank(size.width as int, size.height as int));
        self.refresh_lines();
    }

    fn draw(&mut self, glyph: ViewportGlyph)
        ensures
            small_glyph(glyph.glyph.glyph) && -0x1000_0000_0000_0000 <= glyph.point.x <= 0x1000_0000_0000_0000
                && -0x1000_0000_0000_0000 <= glyph.point.y <= 0x1000_0000_0000_0000 ==> final(self).grid()
                == put_all(
                old(self).grid(),
                glyph_placements(glyph.glyph.glyph, glyph.point.x as int, glyph.point.y as int),
            ),
            final(self).shown() == final(self).grid(),
    {
        let x = glyph.point.x;
        let y = glyph.point.y;
        let big: i64 = 0x1000_0000_0000_0000;
        let limit: u64 = 0x1000_0000_0000_0000;
        let g = glyph.glyph.glyph;
        let fits = match g {
            Glyph::Fraction { inner_width } => inner_width <= limit,
            Glyph::Sqrt { inner_area } => inner_area.width <= limit && inner_area.height <= limit,
            Glyph::LeftParenthesis { inner_height } | Glyph::RightParenthesis { inner_height } => inner_height <= limit,
            Glyph::Cursor { height } => height <= limit,
            _ => true,
        };
        if !fits || x < -big || x > big || y < -big || y > big {
            self.refresh_lines();
            return;
        }
        let ghost before = self.grid();
        let ghost placements = glyph_placements(g, x as int, y as int);
        match g {
            Glyph::Digit { number } => {
                let first = if number >= 100 {
                    number / 100
                } else if number >= 10 {
                    number / 10
                } else {
                    number
                };
                self.put_char((first + 48) as char, x, y);
                proof { lemma_put_all_one(before, placements[0]); }
            },
            Glyph::Point => {
                self.put_char('.', x, y);
                proof { lemma_put_all_one(before, placements[0]); }
            },
            Glyph::Variable { name } => {
                self.put_char(name, x, y);
                proof { lemma_put_all_one(before, placements[0]); }
            },
            Glyph::Add => {
                self.put_char('+', x, y);
                proof { lemma_put_all_one(before, placements[0]); }
            },
            Glyph::Subtract => {
                self.put_char('-', x, y);
                proof { lemma_put_all_one(before, placements[0]); }
            },
            Glyph::Multiply => {
                self.put_char('*', x, y);
                proof { lemma_put_all_one(before, placements[0]); }
            },
            Glyph::Divide => {
                self.put_char('/', x, y);
                proof { lemma_put_all_one(before, placements[0]); }
            },
            Glyph::Comma => {
                self.put_char(',', x, y);
                proof { lemma_put_all_one(before, placements[0]); }
            },
            Glyph::Placeholder => {
                self.put_char('X', x, y);
                proof { lemma_put_all_one(before, placements[0]); }
            },
            Glyph::Fraction { inner_width } => self.put_run('-', x, y, inner_width, false),
            Glyph::LeftParenthesis { inner_height } => {
                if inner_height == 1 {
                    self.put_char('(', x, y);
                    proof { lemma_put_all_one(before, placements[0]); }
                } else {
                    self.put_column(x, y, inner_height, '/', '|', '\\');
                }
            },
            Glyph::RightParenthesis { inner_height } => {
                if inner_height == 1 {
                    self.put_char(')', x, y);
                    proof { lemma_put_all_one(before, placements[0]); }
                } else {
                    self.put_column(x, y, inner_height, '\\', '|', '/');
                }
            },
            Glyph::Sqrt { inner_area } => {
                let ghost p1 = seq![(x as int, y + inner_area.height, '\\')];
                let ghost p2 = run('|', x + 1, y + 1, inner_area.height as int, true);
                let ghost p3 = seq![(x + 1, y as int, '.')];
                let ghost p4 = run('-', x + 2, y as int, inner_area.width as int, false);
                self.put_char('\\', x, y + inner_area.height as i64);
                proof { lemma_put_all_one(before, p1[0]); }
                let ghost g1 = self.grid();
                self.put_run('|', x + 1, y + 1, inner_area.height, true);
                let ghost g2 = self.grid();
                self.put_char('.', x + 1, y);
                proof { lemma_put_all_one(g2, p3[0]); }
                let ghost g3 = self.grid();
                self.put_run('-', x + 2, y, inner_area.width, false);
                proof {
                    lemma_put_all_concat(before, p1, p2);
                    lemma_put_all_concat(before, p1 + p2, p3);
                    lemma_put_all_concat(before, p1 + p2 + p3, p4);
                }
            },
            Glyph::Cursor { height } => self.put_run('|', x, y, height, true),
            Glyph::FunctionName { function } => {
                let (a, b, c) = match function {
                    Function::Sine => ('s', 'i', 'n'),
                    Function::Cosine => ('c', 'o', 's'),
                    Function::GreatestCommonDenominator => ('g', 'c', 'd'),
                };
                let ghost q = seq![(x as int, y as int, a), (x + 1, y as int, b), (x + 2, y as int, c)];
                assert(placements =~= q);
                self.put_char(a, x, y);
                let ghost g1 = self.grid();
                self.put_char(b, x + 1, y);
                let ghost g2 = self.grid();
                self.put_char(c, x + 2, y);
                proof {
                    lemma_put_all_one(before, q[0]);
                    lemma_put_all_one(g1, q[1]);
                    lemma_put_all_one(g2, q[2]);
                    lemma_put_all_concat(before, seq![q[0]], seq![q[1]]);
                    lemma_put_all_concat(before, seq![q[0], q[1]], seq![q[2]]);
                    assert(seq![q[0]] + seq![q[1]] =~= seq![q[0], q[1]]);
                    assert(seq![q[0], q[1]] + seq![q[2]] =~= q);
                }
            },
        }
        self.refresh_lines();
    }
}

} // verus!
