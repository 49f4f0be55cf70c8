use vstd::prelude::*;
use crate::pixels::{Rgb, RgbFrame};
use crate::text::{color_escape, reset_escape, push_char, push_color_escape, push_reset_escape};

verus! {

/// Index of pixel `(x, y)` in a row-major, one-entry-per-pixel table.
pub open spec fn cell_index(width: nat, x: nat, y: nat) -> int {
    (y * width + x) as int
}

pub proof fn lemma_cell_index_bounds(width: nat, height: nat, x: nat, y: nat)
    requires
        x < width,
        y < height,
    ensures
        0 <= cell_index(width, x, y) < width * height,
{
    assert(y * width + x < width * height) by (nonlinear_arith)
        requires
            x < width,
            y < height,
    ;
}

/// The ramp character for a brightness level; levels past the end of the
/// ramp use its last (brightest) character.
pub open spec fn ramp_char(ramp: Seq<char>, level: usize) -> char {
    if level < ramp.len() {
        ramp[level as int]
    } else {
        ramp[ramp.len() - 1]
    }
}

/// The brightness level recorded for pixel `(x, y)`.
pub open spec fn level_at(img: RgbFrame, levels: Seq<usize>, x: nat, y: nat) -> usize {
    levels[cell_index(img.spec_width(), x, y)]
}

/// Whether a colour escape is written before the cell at column `x`: at the
/// start of the row and wherever the colour differs from the previous cell.
pub open spec fn starts_color_run(img: RgbFrame, x: nat, y: nat) -> bool {
    x == 0 || img.pixel((x - 1) as nat, y) != img.pixel(x, y)
}

/// The text of one cell: its ramp character, preceded in colour mode by an
/// escape wherever a new colour run starts.
pub open spec fn cell_text(
    img: RgbFrame,
    levels: Seq<usize>,
    ramp: Seq<char>,
    x: nat,
    y: nat,
    mono: bool,
) -> Seq<char> {
    let ch = ramp_char(ramp, level_at(img, levels, x, y));
    if !mono && starts_color_run(img, x, y) {
        color_escape(img.pixel(x, y)).push(ch)
    } else {
        seq![ch]
    }
}

/// The text of the first `n` cells of row `y`.
pub open spec fn cells_text(
    img: RgbFrame,
    levels: Seq<usize>,
    ramp: Seq<char>,
    n: nat,
    y: nat,
    mono: bool,
) -> Seq<char>
    decreases n,
{
    if n == 0 {
        Seq::empty()
    } else {
        cells_text(img, levels, ramp, (n - 1) as nat, y, mono) + cell_text(
            img,
            levels,
            ramp,
            (n - 1) as nat,
            y,
            mono,
        )
    }
}

/// One rendered row: the cells, and in colour mode a final reset when at
/// least one colour was set.
pub open spec fn ascii_line(
    img: RgbFrame,
    levels: Seq<usize>,
    y: nat,
    width: nat,
    ramp: Seq<char>,
    mono: bool,
) -> Seq<char> {
    cells_text(img, levels, ramp, width, y, mono) + if !mono && width > 0 {
        reset_escape()
    } else {
        Seq::empty()
    }
}

/// Renders row `y` of an image as ramp characters, one per pixel of the first
/// `width` columns. `levels` holds, for every pixel, its brightness mapped onto
/// the ramp (index 0 darkest). In colour mode each run of equal colours is
/// preceded by one 24-bit foreground escape and the row ends with a reset.
pub fn render_ascii_line(
    img: &RgbFrame,
    levels: &[usize],
    y: u32,
    width: u32,
    ramp: &[char],
    mono: bool,
) -> (line: String)
    requires
        width == 0 || (ramp@.len() > 0 && width <= img.spec_width() && y < img.spec_height()),
        levels@.len() == img.spec_width() * img.spec_height(),
    ensures
        line@ == ascii_line(*img, levels@, y as nat, width as nat, ramp@, mono),
{
    let mut line = String::new();
    let mut last_color: Option<Rgb> = None;
    let img_width = img.width();
    let mut x: u32 = 0;
    while x < width
        invariant
            x <= width,
            width > 0 ==> (ramp@.len() > 0 && width <= img.spec_width() && y < img.spec_height()),
            img_width == img.spec_width(),
            levels@.len() == img.spec_width() * img.spec_height(),
            line@ == cells_text(*img, levels@, ramp@, x as nat, y as nat, mono),
            last_color == (if mono || x == 0 {
                None::<Rgb>
            } else {
                Some(img.pixel((x - 1) as nat, y as nat))
            }),
        decreases width - x,
    {
        let pixel = img.get_pixel(x, y);
        let n = levels.len();
        proof {
            lemma_cell_index_bounds(img_width as nat, img.spec_height(), x as nat, y as nat);
            assert((y as int) * (img_width as int) + (x as int) < n as int);
        }
        let level = levels[(y as usize) * (img_width as usize) + (x as usize)];
        let last_index = ramp.len() - 1;
        let ch = if level < last_index {
            ramp[level]
        } else {
            ramp[last_index]
        };
        let ghost before = line@;
        if !mono {
            if last_color != Some(pixel) {
                push_color_escape(&mut line, pixel);
                last_color = Some(pixel);
            }
            push_char(&mut line, ch);
        } else {
            push_char(&mut line, ch);
        }
        assert(line@ =~= before + cell_text(*img, levels@, ramp@, x as nat, y as nat, mono));
        x = x + 1;
    }
    if !mono && last_color.is_some() {
        push_reset_escape(&mut line);
    }
    line
}


/// Renders the top `height` rows of an image, one string per row.
pub fn render_ascii_frame(
    img: &RgbFrame,
    levels: &[usize],
    width: u32,
    height: u32,
    ramp: &[char],
    mono: bool,
) -> (lines: Vec<String>)
    requires
        height == 0 || width == 0 || (ramp@.len() > 0 && width <= img.spec_width() && height
            <= img.spec_height()),
        levels@.len() == img.spec_width() * img.spec_height(),
    ensures
        lines@.len() == height,
        forall|y: int|
            0 <= y < height ==> #[trigger] lines@[y]@ == ascii_line(
                *img,
                levels@,
                y as nat,
                width as nat,
                ramp@,
                mono,
            ),
{
    let mut lines: Vec<String> = Vec::new();
    let mut y: u32 = 0;
    while y < height
        invariant
            y <= height,
            height == 0 || width == 0 || (ramp@.len() > 0 && width <= img.spec_width() && height
                <= img.spec_height()),
            levels@.len() == img.spec_width() * img.spec_height(),
            lines@.len() == y,
            forall|k: int|
                0 <= k < y ==> #[trigger] lines@[k]@ == ascii_line(
                    *img,
                    levels@,
                    k as nat,
                    width as nat,
                    ramp@,
                    mono,
                ),
        decreases height - y,
    {
        let line = render_ascii_line(img, levels, y, width, ramp, mono);
        lines.push(line);
        y = y + 1;
    }
    lines
}

/// What a terminal shows of a text: every character outside escape
/// sequences, where an escape sequence runs from ESC up to and including the
/// next `m`. `in_escape` says whether the text starts inside one.
pub open spec fn visible_from(s: Seq<char>, in_escape: bool) -> Seq<char>
    decreases s.len(),
{
    if s.len() == 0 {
        Seq::empty()
    } else if in_escape {
        visible_from(s.drop_first(), s[0] != 'm')
    } else if s[0] == '\x1b' {
        visible_from(s.drop_first(), true)
    } else {
        seq![s[0]] + visible_from(s.drop_first(), false)
    }
}

/// Whether a text, read from the given state, ends inside an escape sequence.
pub open spec fn ends_in_escape(s: Seq<char>, in_escape: bool) -> bool
    decreases s.len(),
{
    if s.len() == 0 {
        in_escape
    } else if in_escape {
        ends_in_escape(s.drop_first(), s[0] != 'm')
    } else {
        ends_in_escape(s.drop_first(), s[0] == '\x1b')
    }
}

pub open spec fn visible(s: Seq<char>) -> Seq<char> {
    visible_from(s, false)
}

proof fn lemma_visible_concat(a: Seq<char>, b: Seq<char>, st: bool)
    ensures
        visible_from(a + b, st) == visible_from(a, st) + visible_from(b, ends_in_escape(a, st)),
        ends_in_escape(a + b, st) == ends_in_escape(b, ends_in_escape(a, st)),
    decreases a.len(),
{
    if a.len() == 0 {
        assert(a + b =~= b);
    } else {
        assert((a + b).drop_first() =~= a.drop_first() + b);
        let st2 = if st {
            a[0] != 'm'
        } else {
            a[0] == '\x1b'
        };
        lemma_visible_concat(a.drop_first(), b, st2);
        if !st && a[0] != '\x1b' {
            assert(seq![a[0]] + (visible_from(a.drop_first(), false) + visible_from(
                b,
                ends_in_escape(a.drop_first(), false),
            )) =~= (seq![a[0]] + visible_from(a.drop_first(), false)) + visible_from(
                b,
                ends_in_escape(a.drop_first(), false),
            ));
        }
    }
}

/// A text of digits and separators, none of them an `m`, leaves the escape
/// state as it was and shows nothing while inside an escape.
proof fn lemma_inside_escape(s: Seq<char>)
    requires
        forall|i: int| 0 <= i < s.len() ==> s[i] != 'm',
    ensures
        visible_from(s, true) == Seq::<char>::empty(),
        ends_in_escape(s, true),
    decreases s.len(),
{
    if s.len() > 0 {
        lemma_inside_escape(s.drop_first());
    }
}

proof fn lemma_escape_invisible(c: Rgb)
    ensures
        visible_from(color_escape(c), false) == Seq::<char>::empty(),
        !ends_in_escape(color_escape(c), false),
{
    crate::text::lemma_decimal_round_trip(c.r as nat);
    crate::text::lemma_decimal_round_trip(c.g as nat);
    crate::text::lemma_decimal_round_trip(c.b as nat);
    let e = color_escape(c);
    let body = e.subrange(1, e.len() - 1);
    assert forall|i: int| 0 <= i < body.len() implies body[i] != 'm' by {
        assert(body[i] == e[i + 1]);
        if 6 <= i < 6 + crate::text::decimal(c.r as nat).len() {
            assert(crate::text::is_digit(crate::text::decimal(c.r as nat)[i - 6]));
        }
        let o = 7 + crate::text::decimal(c.r as nat).len();
        if o <= i < o + crate::text::decimal(c.g as nat).len() {
            assert(crate::text::is_digit(crate::text::decimal(c.g as nat)[i - o]));
        }
        let p = o + crate::text::decimal(c.g as nat).len() + 1;
        if p <= i < p + crate::text::decimal(c.b as nat).len() {
            assert(crate::text::is_digit(crate::text::decimal(c.b as nat)[i - p]));
        }
        assert('m' as int == 109);
    }
    lemma_inside_escape(body);
    assert(e =~= seq!['\x1b'] + (body + seq!['m']));
    lemma_visible_concat(seq!['\x1b'], body + seq!['m'], false);
    lemma_visible_concat(body, seq!['m'], true);
    assert(seq!['\x1b'].drop_first() =~= Seq::<char>::empty());
    assert(seq!['m'].drop_first() =~= Seq::<char>::empty());
    reveal_with_fuel(visible_from, 2);
    reveal_with_fuel(ends_in_escape, 2);
    assert(visible_from(seq!['\x1b'], false) =~= Seq::<char>::empty());
    assert(ends_in_escape(seq!['\x1b'], false));
    assert(visible_from(seq!['m'], true) =~= Seq::<char>::empty());
    assert(!ends_in_escape(seq!['m'], true));
}

proof fn lemma_reset_invisible()
    ensures
        visible_from(reset_escape(), false) == Seq::<char>::empty(),
        !ends_in_escape(reset_escape(), false),
{
    let e = reset_escape();
    reveal_with_fuel(visible_from, 5);
    reveal_with_fuel(ends_in_escape, 5);
    assert(e.drop_first() =~= seq!['[', '0', 'm']);
    assert(e.drop_first().drop_first() =~= seq!['0', 'm']);
    assert(e.drop_first().drop_first().drop_first() =~= seq!['m']);
    assert(e.drop_first().drop_first().drop_first().drop_first() =~= Seq::<char>::empty());
}

proof fn lemma_cells_visible(
    img: RgbFrame,
    levels: Seq<usize>,
    ramp: Seq<char>,
    n: nat,
    y: nat,
)
    requires
        forall|i: int| 0 <= i < ramp.len() ==> ramp[i] != '\x1b',
        n == 0 || ramp.len() > 0,
    ensures
        visible(cells_text(img, levels, ramp, n, y, false)) == cells_text(
            img,
            levels,
            ramp,
            n,
            y,
            true,
        ),
        !ends_in_escape(cells_text(img, levels, ramp, n, y, false), false),
    decreases n,
{
    if n > 0 {
        let m = (n - 1) as nat;
        lemma_cells_visible(img, levels, ramp, m, y);
        let ch = ramp_char(ramp, level_at(img, levels, m, y));
        let prefix = cells_text(img, levels, ramp, m, y, false);
        let cell = cell_text(img, levels, ramp, m, y, false);
        lemma_visible_concat(prefix, cell, false);
        assert(ch != '\x1b');
        let single = seq![ch];
        assert(single.drop_first() =~= Seq::<char>::empty());
        assert(visible_from(Seq::<char>::empty(), false) =~= Seq::<char>::empty());
        assert(!ends_in_escape(Seq::<char>::empty(), false));
        assert(visible_from(single, false) =~= seq![ch]);
        assert(!ends_in_escape(single, false));
        if starts_color_run(img, m, y) {
            let e = color_escape(img.pixel(m, y));
            lemma_escape_invisible(img.pixel(m, y));
            assert(cell =~= e + single);
            lemma_visible_concat(e, single, false);
            assert(visible_from(cell, false) =~= seq![ch]);
        }
    }
}

/// The colour rendering of a row shows exactly the characters of the
/// monochrome rendering: the escapes it adds are invisible (provided no ramp
/// character is itself an escape character).
pub proof fn lemma_color_shows_mono(
    img: RgbFrame,
    levels: Seq<usize>,
    y: nat,
    width: nat,
    ramp: Seq<char>,
)
    requires
        forall|i: int| 0 <= i < ramp.len() ==> ramp[i] != '\x1b',
        width == 0 || ramp.len() > 0,
    ensures
        visible(ascii_line(img, levels, y, width, ramp, false)) == ascii_line(
            img,
            levels,
            y,
            width,
            ramp,
            true,
        ),
{
    let cells = cells_text(img, levels, ramp, width, y, false);
    lemma_cells_visible(img, levels, ramp, width, y);
    if width > 0 {
        lemma_reset_invisible();
        lemma_visible_concat(cells, reset_escape(), false);
        assert(visible(ascii_line(img, levels, y, width, ramp, false)) =~= visible(cells));
    } else {
        assert(ascii_line(img, levels, y, width, ramp, false) =~= cells);
    }
    assert(ascii_line(img, levels, y, width, ramp, true) =~= cells_text(
        img,
        levels,
        ramp,
        width,
        y,
        true,
    ));
}

/// A monochrome row holds exactly one ramp character per column.
pub proof fn lemma_mono_line_shape(
    img: RgbFrame,
    levels: Seq<usize>,
    y: nat,
    width: nat,
    ramp: Seq<char>,
)
    ensures
        ascii_line(img, levels, y, width, ramp, true).len() == width,
        forall|x: int|
            0 <= x < width ==> #[trigger] ascii_line(img, levels, y, width, ramp, true)[x]
                == ramp_char(ramp, level_at(img, levels, x as nat, y)),
    decreases width,
{
    if width > 0 {
        lemma_mono_line_shape(img, levels, y, (width - 1) as nat, ramp);
        assert(ascii_line(img, levels, y, width, ramp, true) =~= ascii_line(
            img,
            levels,
            y,
            (width - 1) as nat,
            ramp,
            true,
        ).push(ramp_char(ramp, level_at(img, levels, (width - 1) as nat, y))));
    } else {
        assert(ascii_line(img, levels, y, width, ramp, true) =~= Seq::<char>::empty());
    }
}


/// In colour mode a cell starts with an escape exactly when it is the first
/// of the row or its colour differs, in any of the three channels, from the
/// previous cell's; that escape sets the cell's own colour. In monochrome
/// mode a cell is its ramp character alone.
pub proof fn lemma_escape_marks_colour_changes(
    img: RgbFrame,
    levels: Seq<usize>,
    ramp: Seq<char>,
    x: nat,
    y: nat,
)
    ensures
        (x == 0 || img.pixel((x - 1) as nat, y) != img.pixel(x, y)) ==> cell_text(
            img,
            levels,
            ramp,
            x,
            y,
            false,
        ) == color_escape(img.pixel(x, y)).push(ramp_char(ramp, level_at(img, levels, x, y))),
        (x > 0 && img.pixel((x - 1) as nat, y) == img.pixel(x, y)) ==> cell_text(
            img,
            levels,
            ramp,
            x,
            y,
            false,
        ) == seq![ramp_char(ramp, level_at(img, levels, x, y))],
        cell_text(img, levels, ramp, x, y, true) == seq![ramp_char(ramp, level_at(img, levels, x, y))],
{
}

/// The colour in force at every cell of a colour row is that pixel's own
/// colour: the last cell at or before it that carries an escape sets exactly
/// that colour, and the cells in between carry none.
pub proof fn lemma_colour_in_force(img: RgbFrame, levels: Seq<usize>, ramp: Seq<char>, x: nat, y: nat)
    ensures
        exists|j: nat|
            j <= x && #[trigger] cell_text(img, levels, ramp, j, y, false) == color_escape(
                img.pixel(x, y),
            ).push(ramp_char(ramp, level_at(img, levels, j, y))) && forall|i: nat|
                j < i <= x ==> #[trigger] cell_text(img, levels, ramp, i, y, false) == seq![
                    ramp_char(ramp, level_at(img, levels, i, y)),
                ],
    decreases x,
{
    lemma_escape_marks_colour_changes(img, levels, ramp, x, y);
    if x == 0 || img.pixel((x - 1) as nat, y) != img.pixel(x, y) {
        assert(cell_text(img, levels, ramp, x, y, false) == color_escape(img.pixel(x, y)).push(
            ramp_char(ramp, level_at(img, levels, x, y)),
        ));
    } else {
        let p = (x - 1) as nat;
        lemma_colour_in_force(img, levels, ramp, p, y);
        let j = choose|j: nat|
            j <= p && #[trigger] cell_text(img, levels, ramp, j, y, false) == color_escape(
                img.pixel(p, y),
            ).push(ramp_char(ramp, level_at(img, levels, j, y))) && forall|i: nat|
                j < i <= p ==> #[trigger] cell_text(img, levels, ramp, i, y, false) == seq![
                    ramp_char(ramp, level_at(img, levels, i, y)),
                ];
        assert forall|i: nat| j < i <= x implies #[trigger] cell_text(img, levels, ramp, i, y, false)
            == seq![ramp_char(ramp, level_at(img, levels, i, y))] by {
            if i == x {
                lemma_escape_marks_colour_changes(img, levels, ramp, x, y);
            }
        }
        assert(cell_text(img, levels, ramp, j, y, false) == color_escape(img.pixel(x, y)).push(
            ramp_char(ramp, level_at(img, levels, j, y)),
        ));
    }
}

/// A row is its cells in order, then (in colour mode, for a non-empty row)
/// a reset; each cell holds exactly one ramp character, the one for its
/// level, with levels past the ramp using its last character.
pub proof fn lemma_row_is_cells(
    img: RgbFrame,
    levels: Seq<usize>,
    y: nat,
    width: nat,
    ramp: Seq<char>,
    mono: bool,
)
    ensures
        width > 0 ==> cells_text(img, levels, ramp, width, y, mono) == cells_text(
            img,
            levels,
            ramp,
            (width - 1) as nat,
            y,
            mono,
        ) + cell_text(img, levels, ramp, (width - 1) as nat, y, mono),
        ascii_line(img, levels, y, width, ramp, mono) == cells_text(img, levels, ramp, width, y, mono)
            + (if !mono && width > 0 {
            seq!['\x1b', '[', '0', 'm']
        } else {
            Seq::empty()
        }),
        cell_text(img, levels, ramp, width, y, mono).last() == ramp_char(
            ramp,
            level_at(img, levels, width, y),
        ),
        forall|level: usize| level < ramp.len() ==> #[trigger] ramp_char(ramp, level) == ramp[level as int],
        forall|level: usize|
            level >= ramp.len() && ramp.len() > 0 ==> #[trigger] ramp_char(ramp, level) == ramp.last(),
{
}

} // verus!
