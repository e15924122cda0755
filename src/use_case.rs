use vstd::prelude::*;

use crate::primitive::{whole, Halves, Primitive, RectKind, TextKind};
use crate::text::{byte_len, strip_quotes, text_len, trim, trimmed, without_quotes, MAX_TEXT};

verus! {

/// How far from the origin a use case may be placed.
pub const MAX_POSITION: i64 = 0x1000_0000_0000_0000;

/// The most use cases a context may hold.
pub const MAX_USE_CASES: usize = 1_000_000;

/// A capability inside a context, drawn as an ellipse and addressed by its alias.
pub struct UseCase {
    pub label: String,
    pub alias: String,
    pub x: i64,
    pub y: i64,
    /// The column the use case stands in, counted from 1.
    pub width_number: i32,
    pub width: i64,
}

/// `a / b` rounded toward zero, for a positive `b`.
pub open spec fn trunc_div(a: int, b: int) -> int {
    if a >= 0 { a / b } else { -((-a) / b) }
}

pub fn trunc_div_exec(a: i64, b: i64) -> (r: i64)
    requires
        a > i64::MIN,
        b > 0,
    ensures
        r == trunc_div(a as int, b as int),
{
    if a >= 0 { a / b } else { -((-a) / b) }
}

/// The width of the ellipse of a use case labelled `label`, at least `width`: 12 for each
/// byte of the label, plus 20.
pub open spec fn ellipse_width(label: String, width: int) -> int {
    let text_width = (12 * text_len(label) + 20) as int;
    if width >= text_width { width } else { text_width }
}

/// The ellipse of a use case centred at `(x, y)`, and its label.
pub open spec fn use_case_prims(label: String, x: int, y: int, width: int, height: int) -> Seq<Primitive> {
    seq![
        Primitive::Ellipse { cx: x as i64, cy: y as i64, rx: Halves { twice: ellipse_width(label, width) as i64 }, ry: trunc_div(height, 2) as i64 },
        Primitive::Text { x: whole(x), y: (y + 6) as i64, content: label, kind: TextKind::UseCaseCaption, rotation: None },
    ]
}

impl UseCase {
    /// A use case in the first column; without an alias it is known by its label. Double
    /// quotes in the label and the alias are dropped.
    pub fn new(label: String, alias: Option<String>) -> (r: UseCase)
        ensures
            r.label@ == without_quotes(label@),
            alias is Some ==> r.alias@ == without_quotes(alias->0@),
            alias is None ==> r.alias@ == without_quotes(label@),
            r.x == -1 && r.y == -1,
            r.width_number == 1,
            r.width == 100,
    {
        let label = strip_quotes(&label);
        let alias = match alias {
            Some(a) => strip_quotes(&a),
            None => label.clone(),
        };
        UseCase { label, alias, x: -1, y: -1, width_number: 1, width: 100 }
    }

    pub fn get_use_case_label(&self) -> (r: &String)
        ensures
            *r == self.label,
    {
        &self.label
    }

    pub fn get_use_case_alias(&self) -> (r: &String)
        ensures
            *r == self.alias,
    {
        &self.alias
    }

    pub fn get_x(&self) -> (r: i64)
        ensures
            r == self.x,
    {
        self.x
    }

    pub fn get_y(&self) -> (r: i64)
        ensures
            r == self.y,
    {
        self.y
    }

    pub fn get_width(&self) -> (r: i64)
        ensures
            r == self.width,
    {
        self.width
    }

    pub fn get_width_number(&self) -> (r: i32)
        ensures
            r == self.width_number,
    {
        self.width_number
    }

    pub fn set_width_number(&mut self, width: i32)
        ensures
            *final(self) == (UseCase { width_number: width, ..*old(self) }),
    {
        self.width_number = width;
    }

    /// Draws the use case centred at `(x, y)`, its ellipse at least `width` wide and
    /// `height` high, and records the centre and the ellipse's width.
    pub fn draw(&mut self, doc: &mut Vec<Primitive>, x: i64, y: i64, width: i32, height: i32)
        requires
            text_len(old(self).label) <= MAX_TEXT,
            -MAX_POSITION <= x <= MAX_POSITION,
            -MAX_POSITION <= y <= MAX_POSITION,
        ensures
            *final(self) == (UseCase { x, y, width: ellipse_width(old(self).label, width as int) as i64, ..*old(self) }),
            final(doc)@ == old(doc)@ + use_case_prims(old(self).label, x as int, y as int, width as int, height as int),
    {
        self.x = x;
        self.y = y;
        let text_width = 12 * byte_len(&self.label) as i64 + 20;
        let ellipse = if width as i64 >= text_width { width as i64 } else { text_width };
        self.width = ellipse;
        let ghost d0 = doc@;
        doc.push(Primitive::Ellipse { cx: x, cy: y, rx: Halves { twice: ellipse }, ry: (height / 2) as i64 });
        doc.push(Primitive::Text { x: Halves { twice: 2 * x }, y: y + 6, content: self.label.clone(), kind: TextKind::UseCaseCaption, rotation: None });
        assert(doc@ =~= d0 + use_case_prims(old(self).label, x as int, y as int, width as int, height as int));
    }
}


/// A named group of use cases, drawn as a frame whose width is counted in columns.
pub struct Context {
    pub label: String,
    pub use_cases: Vec<UseCase>,
    pub width_number: i32,
}

/// How many of the first `i` use cases stand in column `c`.
pub open spec fn col_before(ucs: Seq<UseCase>, i: int, c: int) -> nat
    decreases i,
{
    if i <= 0 {
        0
    } else {
        col_before(ucs, i - 1, c) + if ucs[i - 1].width_number == c { 1nat } else { 0nat }
    }
}

/// How many use cases stand in column `c`.
pub open spec fn col_total(ucs: Seq<UseCase>, c: int) -> nat {
    col_before(ucs, ucs.len() as int, c)
}

/// The vertical distance between use cases of a column of `total` in a frame `h` high.
pub open spec fn row_step(h: int, total: int) -> int {
    let s = trunc_div(h, total + 1);
    if s <= 100 { s } else { 100 }
}

/// The height of each use-case ellipse in a frame `h` high that holds `n` use cases.
pub open spec fn use_case_height(h: int, n: int) -> int {
    if n == 0 {
        50
    } else {
        let s = trunc_div(4 * h, 5 * n);
        if s <= 50 { s } else { 50 }
    }
}

/// The centre of column `c` of a frame whose left edge is at `x`.
pub open spec fn column_x(x: int, c: int) -> int {
    x + 175 + (c - 1) * 350
}

/// The row of the `i`-th use case in a frame at `y`, `h` high, of `cols` columns: below the
/// use cases of its column that come before it; one outside the columns takes the row of
/// the use case before it (or the frame's top).
pub open spec fn row_y(ucs: Seq<UseCase>, i: int, y: int, h: int, cols: int) -> int
    decreases i,
{
    let c = ucs[i].width_number as int;
    if 1 <= c <= cols {
        y + (1 + col_before(ucs, i, c)) * row_step(h, col_total(ucs, c) as int)
    } else if i <= 0 {
        y
    } else {
        row_y(ucs, i - 1, y, h, cols)
    }
}

/// The primitives of the first `k` use cases of a frame at `(x, y)`, `h` high, of `cols` columns.
pub open spec fn use_cases_prims(ucs: Seq<UseCase>, k: int, x: int, y: int, h: int, cols: int) -> Seq<Primitive>
    decreases k,
{
    if k <= 0 {
        Seq::empty()
    } else {
        use_cases_prims(ucs, k - 1, x, y, h, cols) + use_case_prims(
            ucs[k - 1].label,
            column_x(x, ucs[k - 1].width_number as int),
            row_y(ucs, k - 1, y, h, cols),
            100,
            use_case_height(h, ucs.len() as int),
        )
    }
}

/// The frame of a context at `(x, y)`, `w` wide and `h` high, with its label centred above.
pub open spec fn frame_prims(label: String, x: int, y: int, w: int, h: int) -> Seq<Primitive> {
    seq![
        Primitive::Text { x: Halves { twice: (2 * x + w) as i64 }, y: (y - 10) as i64, content: label, kind: TextKind::ContextCaption, rotation: None },
        Primitive::Rect { x: x as i64, y: y as i64, width: w as i64, height: h as i64, kind: RectKind::ContextFrame },
    ]
}

/// A use case drawn within half the reach of coordinates, its ellipse at most as wide as
/// the longest label needs.
pub open spec fn placed_within(u: UseCase) -> bool {
    &&& -MAX_POSITION / 2 <= u.x <= MAX_POSITION / 2
    &&& -MAX_POSITION / 2 <= u.y <= MAX_POSITION / 2
    &&& 100 <= u.width <= 12 * MAX_TEXT + 20
}

/// Every label of `ucs` fits the text limit.
pub open spec fn labels_fit(ucs: Seq<UseCase>) -> bool {
    forall|i: int| 0 <= i < ucs.len() ==> text_len(#[trigger] ucs[i].label) <= MAX_TEXT
}

pub proof fn lemma_trunc_div_bound(a: int, b: int)
    requires
        b >= 1,
    ensures
        a >= 0 ==> 0 <= trunc_div(a, b) <= a && b * trunc_div(a, b) <= a,
        a < 0 ==> a <= trunc_div(a, b) <= 0 && b * trunc_div(a, b) >= a,
{
    if a >= 0 {
        assert(0 <= a / b <= a && b * (a / b) <= a) by (nonlinear_arith)
            requires
                a >= 0,
                b >= 1,
        ;
    } else {
        let m = -a;
        let q = m / b;
        assert(0 <= q <= m && b * q <= m) by (nonlinear_arith)
            requires
                m >= 0,
                b >= 1,
                q == m / b,
        ;
        assert(trunc_div(a, b) == -q);
        assert(b * (-q) == -(b * q)) by (nonlinear_arith);
    }
}

proof fn lemma_col_before_bound(ucs: Seq<UseCase>, i: int, c: int)
    requires
        0 <= i <= ucs.len(),
    ensures
        col_before(ucs, i, c) <= i,
        col_before(ucs, i, c) <= col_total(ucs, c),
    decreases ucs.len() - i,
{
    lemma_col_before_le(ucs, i, c);
    if i < ucs.len() {
        lemma_col_before_bound(ucs, i + 1, c);
    }
}

proof fn lemma_col_before_le(ucs: Seq<UseCase>, i: int, c: int)
    requires
        0 <= i,
    ensures
        col_before(ucs, i, c) <= i,
    decreases i,
{
    if i > 0 {
        lemma_col_before_le(ucs, i - 1, c);
    }
}

proof fn lemma_row_offset(k: int, step: int, h: int)
    requires
        1 <= k <= MAX_USE_CASES + 1,
        i32::MIN <= h <= i32::MAX,
        step <= 100,
        step >= -0x8000_0000,
    ensures
        -0x8000_0000 * (MAX_USE_CASES + 1) <= k * step <= 100 * (MAX_USE_CASES + 1),
{
    assert(-0x8000_0000 * (MAX_USE_CASES + 1) <= k * step <= 100 * (MAX_USE_CASES + 1)) by (nonlinear_arith)
        requires
            1 <= k <= MAX_USE_CASES + 1,
            step <= 100,
            step >= -0x8000_0000,
    ;
}

impl Context {
    /// A context; white space around its label is dropped.
    pub fn new(label: String, use_cases: Vec<UseCase>) -> (r: Context)
        ensures
            r.label@ == trimmed(label@),
            r.use_cases == use_cases,
            r.width_number == 1,
    {
        Context { label: trim(&label), use_cases, width_number: 1 }
    }

    pub fn get_context_label(&self) -> (r: &String)
        ensures
            *r == self.label,
    {
        &self.label
    }

    pub fn get_use_cases(&self) -> (r: &Vec<UseCase>)
        ensures
            *r == self.use_cases,
    {
        &self.use_cases
    }

    pub fn get_use_cases_mut(&mut self) -> (r: &mut Vec<UseCase>)
        ensures
            *r == old(self).use_cases,
            final(self).use_cases == *final(r),
            final(self).label == old(self).label,
            final(self).width_number == old(self).width_number,
    {
        &mut self.use_cases
    }

    pub fn get_width_number(&self) -> (r: i32)
        ensures
            r == self.width_number,
    {
        self.width_number
    }

    pub fn set_width_number(&mut self, width: i32)
        ensures
            final(self).width_number == width,
            final(self).label == old(self).label,
            final(self).use_cases == old(self).use_cases,
    {
        self.width_number = width;
    }

    /// Draws the frame at `(x, y)`, `width` wide and `height` high, then each use case in
    /// its column, below those of its column that come before it; records where each went.
    pub fn draw(&mut self, doc: &mut Vec<Primitive>, x: i32, y: i32, width: i32, height: i32)
        requires
            old(self).use_cases@.len() <= MAX_USE_CASES,
            labels_fit(old(self).use_cases@),
        ensures
            final(self).label == old(self).label,
            final(self).width_number == old(self).width_number,
            final(self).use_cases@.len() == old(self).use_cases@.len(),
            forall|i: int| 0 <= i < old(self).use_cases@.len() ==> #[trigger] final(self).use_cases@[i] == (UseCase {
                x: column_x(x as int, old(self).use_cases@[i].width_number as int) as i64,
                y: row_y(old(self).use_cases@, i, y as int, height as int, old(self).width_number as int) as i64,
                width: ellipse_width(old(self).use_cases@[i].label, 100) as i64,
                ..old(self).use_cases@[i]
            }),
            forall|i: int| 0 <= i < final(self).use_cases@.len() ==> placed_within(#[trigger] final(self).use_cases@[i]),
            final(doc)@ == old(doc)@ + frame_prims(old(self).label, x as int, y as int, width as int, height as int)
                + use_cases_prims(old(self).use_cases@, old(self).use_cases@.len() as int, x as int, y as int,
                    height as int, old(self).width_number as int),
    {
        let ghost ucs = self.use_cases@;
        let ghost d0 = doc@;
        let cols = self.width_number;
        let n = self.use_cases.len();
        doc.push(Primitive::Text { x: Halves { twice: 2 * x as i64 + width as i64 }, y: y as i64 - 10, content: self.label.clone(), kind: TextKind::ContextCaption, rotation: None });
        doc.push(Primitive::Rect { x: x as i64, y: y as i64, width: width as i64, height: height as i64, kind: RectKind::ContextFrame });
        assert(doc@ =~= d0 + frame_prims(self.label, x as int, y as int, width as int, height as int));
        let ghost d1 = doc@;
        let slots: usize = if cols >= 1 { cols as usize + 1 } else { 1 };
        let mut totals: Vec<i64> = Vec::new();
        let mut counts: Vec<i64> = Vec::new();
        while totals.len() < slots
            invariant
                totals@.len() == counts@.len() <= slots,
                forall|c: int| 0 <= c < totals@.len() ==> totals@[c] == 0 && counts@[c] == 0,
            decreases slots - totals@.len(),
        {
            totals.push(0);
            counts.push(0);
        }
        let mut i: usize = 0;
        while i < n
            invariant
                n == ucs.len() <= MAX_USE_CASES,
                self.use_cases@ == ucs,
                cols == self.width_number,
                totals@.len() == slots,
                cols >= 1 ==> slots == cols + 1,
                0 <= i <= n,
                forall|c: int| 1 <= c <= cols ==> totals@[c] == col_before(ucs, i as int, c),
            decreases n - i,
        {
            let c = self.use_cases[i].width_number;
            if 1 <= c && c <= cols {
                proof {
                    lemma_col_before_le(ucs, i as int, c as int);
                }
                totals.set(c as usize, totals[c as usize] + 1);
            }
            i += 1;
        }
        proof {
            if n > 0 {
                let a = 4 * height as int;
                let b = 5 * n as int;
                lemma_trunc_div_bound(a, b);
                let q = trunc_div(a, b);
                assert(-0x8000_0000 < q < 0x8000_0000) by (nonlinear_arith)
                    requires
                        b >= 5,
                        a >= 0 ==> 0 <= q && b * q <= a,
                        a < 0 ==> q <= 0 && b * q >= a,
                        -0x2_0000_0000 <= a <= 0x2_0000_0000,
                ;
            }
        }
        let uc_height: i32 = if n == 0 {
            50
        } else {
            let s = trunc_div_exec(4 * height as i64, 5 * n as i64);
            if s <= 50 { s as i32 } else { 50 }
        };
        assert(uc_height == use_case_height(height as int, n as int));
        let mut y_in_column: i64 = y as i64;
        let mut i: usize = 0;
        while i < n
            invariant
                n == ucs.len() <= MAX_USE_CASES,
                labels_fit(ucs),
                self.use_cases@.len() == n,
                self.label == old(self).label,
                cols == self.width_number == old(self).width_number,
                ucs == old(self).use_cases@,
                totals@.len() == slots,
                counts@.len() == slots,
                cols >= 1 ==> slots == cols + 1,
                0 <= i <= n,
                uc_height == use_case_height(height as int, n as int),
                forall|c: int| 1 <= c <= cols ==> totals@[c] == col_total(ucs, c),
                forall|c: int| 1 <= c <= cols ==> counts@[c] == col_before(ucs, i as int, c),
                i == 0 ==> y_in_column == y,
                i > 0 ==> y_in_column == row_y(ucs, i - 1, y as int, height as int, cols as int),
                -MAX_POSITION / 2 <= y_in_column <= MAX_POSITION / 2,
                forall|j: int| 0 <= j < i ==> placed_within(#[trigger] self.use_cases@[j]),
                forall|j: int| i <= j < n ==> #[trigger] self.use_cases@[j] == ucs[j],
                forall|j: int| 0 <= j < i ==> #[trigger] self.use_cases@[j] == (UseCase {
                    x: column_x(x as int, ucs[j].width_number as int) as i64,
                    y: row_y(ucs, j, y as int, height as int, cols as int) as i64,
                    width: ellipse_width(ucs[j].label, 100) as i64,
                    ..ucs[j]
                }),
                doc@ == d1 + use_cases_prims(ucs, i as int, x as int, y as int, height as int, cols as int),
            decreases n - i,
        {
            let c = self.use_cases[i].width_number;
            if 1 <= c && c <= cols {
                proof {
                    lemma_col_before_bound(ucs, i as int, c as int);
                    lemma_col_before_le(ucs, n as int, c as int);
                    lemma_trunc_div_bound(height as int, totals@[c as int] + 1);
                    lemma_row_offset(counts@[c as int] + 1, row_step(height as int, totals@[c as int] as int), height as int);
                }
                let quotient = trunc_div_exec(height as i64, totals[c as usize] + 1);
                let step = if quotient <= 100 { quotient } else { 100 };
                y_in_column = y as i64 + (counts[c as usize] + 1) * step;
                counts.set(c as usize, counts[c as usize] + 1);
            }
            assert(y_in_column == row_y(ucs, i as int, y as int, height as int, cols as int));
            let column_left = x as i64 + 175 + (c as i64 - 1) * 350;
            let ghost before = doc@;
            self.use_cases[i].draw(doc, column_left, y_in_column, 100, uc_height);
            assert(doc@ =~= d1 + use_cases_prims(ucs, i + 1, x as int, y as int, height as int, cols as int));
            i += 1;
        }
        assert(doc@ =~= d0 + frame_prims(old(self).label, x as int, y as int, width as int, height as int)
            + use_cases_prims(ucs, n as int, x as int, y as int, height as int, cols as int));
    }
}

} // verus!
