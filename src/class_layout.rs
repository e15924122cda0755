use vstd::prelude::*;

use crate::class::{box_height, box_width, class_prims, member_at, member_count, member_text, member_width, Class, MAX_CLASSES, MAX_MEMBERS};
use crate::link::{caption_of, class_link_tail, link_prims, spine_type, Link};
use crate::error::DiagramError;
use crate::primitive::Primitive;
use crate::registry::{add_outcome, AliasRegistry, UmlParser};
use crate::text::MAX_TEXT;
use crate::use_case::MAX_POSITION;

verus! {

/// The edge of the square that a class is given on the canvas.
pub const CLASS_SIZE: usize = 600;

/// The left edge of class `k`: even classes stand in the left column, odd ones in the right.
pub open spec fn class_x(k: int) -> int {
    if k % 2 == 0 { 50 } else { 3 * CLASS_SIZE + 50 }
}

/// The top of class `k`: the left column starts at 25, the right one at 50, and each box
/// stands 100 below the one above it in its column.
pub open spec fn class_y(cls: Seq<Class>, k: int) -> int
    decreases k,
{
    if k < 2 {
        if k == 0 { 25 } else { 50 }
    } else {
        class_y(cls, k - 2) + 100 + box_height(cls[k - 2])
    }
}

/// Class `k` once drawn at its place.
pub open spec fn placed(cls: Seq<Class>, k: int) -> Class {
    Class {
        x: class_x(k) as usize,
        y: class_y(cls, k) as usize,
        height: box_height(cls[k]) as usize,
        width: box_width(cls[k], member_count(cls[k])) as usize,
        ..cls[k]
    }
}

/// The primitives of the first `k` classes, drawn at their places with member lines `tt`.
pub open spec fn classes_prims(cls: Seq<Class>, k: int, tt: Seq<Seq<String>>) -> Seq<Primitive>
    decreases k,
{
    if k <= 0 {
        Seq::empty()
    } else {
        classes_prims(cls, k - 1, tt) + class_prims(cls[k - 1], class_x(k - 1), class_y(cls, k - 1), tt[k - 1])
    }
}

/// `tt` holds the member lines of each class of `cls`.
pub open spec fn member_lines(cls: Seq<Class>, tt: Seq<Seq<String>>) -> bool {
    &&& tt.len() == cls.len()
    &&& forall|k: int, m: int| 0 <= k < cls.len() && 0 <= m < tt[k].len() ==> (#[trigger] tt[k][m])@
        == member_text(member_at(cls[k], m).0, member_at(cls[k], m).1)
    &&& forall|k: int| 0 <= k < cls.len() ==> (#[trigger] tt[k]).len() == member_count(cls[k])
}

/// No two classes share a name, each is well formed, and there are not too many.
pub open spec fn classes_ok(cls: Seq<Class>) -> bool {
    &&& cls.len() <= MAX_CLASSES
    &&& forall|k: int| 0 <= k < cls.len() ==> (#[trigger] cls[k]).wf()
    &&& forall|j: int, k: int| 0 <= j < k < cls.len() ==> (#[trigger] cls[j]).name@ != (#[trigger] cls[k]).name@
}

proof fn lemma_class_y_bound(cls: Seq<Class>, k: int)
    requires
        0 <= k <= cls.len() + 1,
        forall|j: int| 0 <= j < cls.len() ==> (#[trigger] cls[j]).wf(),
    ensures
        25 <= class_y(cls, k) <= 50 + k * 500_200,
    decreases k,
{
    if k >= 2 {
        lemma_class_y_bound(cls, k - 2);
        assert(cls[k - 2].wf());
        assert(member_count(cls[k - 2]) <= MAX_MEMBERS);
        assert(box_height(cls[k - 2]) <= 50 * (MAX_MEMBERS + 1) + 50);
    }
}

/// Draws each class at its place and records where it went.
pub fn place_classes(classes: &mut Vec<Class>, doc: &mut Vec<Primitive>)
    requires
        classes_ok(old(classes)@),
    ensures
        final(classes)@.len() == old(classes)@.len(),
        forall|k: int| 0 <= k < old(classes)@.len() ==> #[trigger] final(classes)@[k] == placed(old(classes)@, k),
        exists|tt: Seq<Seq<String>>| member_lines(old(classes)@, tt)
            && final(doc)@ == old(doc)@ + classes_prims(old(classes)@, old(classes)@.len() as int, tt),
{
    let ghost cls = classes@;
    let ghost d0 = doc@;
    let n = classes.len();
    let mut y_column1: usize = 25;
    let mut y_column2: usize = 50;
    let mut k: usize = 0;
    let ghost mut tt: Seq<Seq<String>> = Seq::empty();
    while k < n
        invariant
            n == cls.len(),
            classes_ok(cls),
            classes@.len() == n,
            0 <= k <= n,
            forall|j: int| k <= j < n ==> #[trigger] classes@[j] == cls[j],
            forall|j: int| 0 <= j < k ==> #[trigger] classes@[j] == placed(cls, j),
            k % 2 == 0 ==> y_column1 == class_y(cls, k as int) && y_column2 == class_y(cls, k + 1),
            k % 2 == 1 ==> y_column2 == class_y(cls, k as int) && y_column1 == class_y(cls, k + 1),
            tt.len() == k,
            forall|j: int, m: int| 0 <= j < k && 0 <= m < tt[j].len() ==> (#[trigger] tt[j][m])@
                == member_text(member_at(cls[j], m).0, member_at(cls[j], m).1),
            forall|j: int| 0 <= j < k ==> (#[trigger] tt[j]).len() == member_count(cls[j]),
            doc@ == d0 + classes_prims(cls, k as int, tt),
        decreases n - k,
    {
        proof {
            lemma_class_y_bound(cls, k as int);
            lemma_class_y_bound(cls, k + 1);
            assert(cls[k as int].wf());
        }
        let ghost before = doc@;
        if k % 2 == 0 {
            classes[k].draw(doc, 50, y_column1);
            y_column1 = y_column1 + (100 + classes[k].height);
        } else {
            classes[k].draw(doc, 3 * CLASS_SIZE + 50, y_column2);
            y_column2 = y_column2 + (100 + classes[k].height);
        }
        proof {
            let texts = choose|texts: Seq<String>| {
                &&& texts.len() == member_count(cls[k as int])
                &&& forall|m: int| 0 <= m < texts.len() ==> (#[trigger] texts[m])@ == member_text(member_at(cls[k as int], m).0, member_at(cls[k as int], m).1)
                &&& doc@ == before + class_prims(cls[k as int], class_x(k as int), class_y(cls, k as int), texts)
            };
            let tt2 = tt.push(texts);
            assert(classes_prims(cls, k as int, tt2) =~= classes_prims(cls, k as int, tt)) by {
                lemma_classes_prims_prefix(cls, k as int, tt, tt2);
            }
            tt = tt2;
            assert(doc@ =~= d0 + classes_prims(cls, k + 1, tt));
        }
        k += 1;
    }
    assert(member_lines(cls, tt));
}

proof fn lemma_classes_prims_prefix(cls: Seq<Class>, k: int, a: Seq<Seq<String>>, b: Seq<Seq<String>>)
    requires
        0 <= k <= a.len(),
        k <= b.len(),
        forall|j: int| 0 <= j < k ==> a[j] == b[j],
    ensures
        classes_prims(cls, k, a) == classes_prims(cls, k, b),
    decreases k,
{
    if k > 0 {
        lemma_classes_prims_prefix(cls, k - 1, a, b);
    }
}


/// The most links a diagram may hold.
pub const MAX_LINKS: usize = 1_000_000;

/// Where a link between two classes is drawn: out of its source at `(x1, y1)`, along the
/// spine at `xs`, into its target at `(x2, y2)`.
#[derive(Debug, Clone, Copy, PartialEq, Eq, Structural)]
pub struct ClassLinkRoute {
    /// The index of the link among all links.
    pub link: usize,
    pub x1: i64,
    pub y1: i64,
    pub x2: i64,
    pub y2: i64,
    pub xs: i64,
}

/// How many ends of the first `l` links name `name` (a link to itself counts twice).
pub open spec fn ends_before(links: Seq<Link>, l: int, name: Seq<char>) -> nat
    decreases l,
{
    if l <= 0 {
        0
    } else {
        ends_before(links, l - 1, name) + (if links[l - 1].left_id@ == name { 1nat } else { 0nat })
            + (if links[l - 1].right_id@ == name { 1nat } else { 0nat })
    }
}

pub open spec fn has_class(cls: Seq<Class>, name: Seq<char>) -> bool {
    exists|j: int| 0 <= j < cls.len() && (#[trigger] cls[j]).name@ == name
}

/// The class named `name`.
pub open spec fn class_named(cls: Seq<Class>, name: Seq<char>) -> Class {
    cls[choose|j: int| 0 <= j < cls.len() && (#[trigger] cls[j]).name@ == name]
}

/// Where links leave or enter class `c` horizontally: its right edge in the left column,
/// its left edge in the right one.
pub open spec fn anchor_x(c: Class) -> int {
    if c.x < 900 { c.x + c.width } else { c.x as int }
}

/// Where the `occ`-th of the `count` link ends at class `c` meets it: the ends are spread
/// evenly down the box, the last at 10 above its bottom.
pub open spec fn anchor_y(c: Class, occ: int, count: int) -> int {
    c.y + occ * (c.height - 10) / count
}

/// The ends of links at a class are spread evenly down its box: the `k`-th of `n` lies
/// `k / n` of the way from the top of the box to 10 above its bottom (rounded down), so the
/// last lies exactly there and each lies no higher than the one before.
pub proof fn lemma_anchor_fan_out(c: Class, n: int, k: int)
    requires
        c.height >= 10,
        1 <= k <= n,
    ensures
        c.y <= anchor_y(c, k, n) <= c.y + c.height - 10,
        anchor_y(c, n, n) == c.y + c.height - 10,
        k < n ==> anchor_y(c, k, n) <= anchor_y(c, k + 1, n),
        n * (anchor_y(c, k, n) - c.y) <= k * (c.height - 10) < n * (anchor_y(c, k, n) - c.y + 1),
{
    let h = c.height - 10;
    let q = k * h / n;
    assert(n * q <= k * h < n * (q + 1)) by (nonlinear_arith)
        requires
            n >= 1,
            k * h >= 0,
            q == k * h / n,
    ;
    assert(0 <= q <= h) by (nonlinear_arith)
        requires
            1 <= k <= n,
            h >= 0,
            n * q <= k * h < n * (q + 1),
    ;
    assert(n * h / n == h) by (nonlinear_arith)
        requires
            n >= 1,
    ;
    if k < n {
        let q2 = (k + 1) * h / n;
        assert(q <= q2) by (nonlinear_arith)
            requires
                n >= 1,
                h >= 0,
                q == k * h / n,
                q2 == (k + 1) * h / n,
        ;
    }
}

/// Both ends of link `l` name a class.
pub open spec fn drawable(cls: Seq<Class>, links: Seq<Link>, l: int) -> bool {
    has_class(cls, links[l].left_id@) && has_class(cls, links[l].right_id@)
}

/// How many of the first `l` links are drawn.
pub open spec fn drawn_before(cls: Seq<Class>, links: Seq<Link>, l: int) -> nat
    decreases l,
{
    if l <= 0 {
        0
    } else {
        drawn_before(cls, links, l - 1) + if drawable(cls, links, l - 1) { 1nat } else { 0nat }
    }
}

/// The route of link `l`; its spine lies at `900 + 600 * i / n` for the `i`-th drawn link of `n`.
pub open spec fn route_of(cls: Seq<Class>, links: Seq<Link>, l: int) -> ClassLinkRoute {
    let left = links[l].left_id@;
    let right = links[l].right_id@;
    let lc = class_named(cls, left);
    let rc = class_named(cls, right);
    let total = links.len() as int;
    ClassLinkRoute {
        link: l as usize,
        x1: anchor_x(lc) as i64,
        y1: anchor_y(lc, ends_before(links, l, left) + 1int, ends_before(links, total, left) as int) as i64,
        x2: anchor_x(rc) as i64,
        y2: anchor_y(rc, ends_before(links, l, right) + 1 + (if left == right { 1int } else { 0 }),
            ends_before(links, total, right) as int) as i64,
        xs: (900 + 600 * (drawn_before(cls, links, l) as int) / total) as i64,
    }
}

/// The routes of the drawn links among the first `l`, in order.
pub open spec fn routes(cls: Seq<Class>, links: Seq<Link>, l: int) -> Seq<ClassLinkRoute>
    decreases l,
{
    if l <= 0 {
        Seq::empty()
    } else {
        routes(cls, links, l - 1) + if drawable(cls, links, l - 1) {
            seq![route_of(cls, links, l - 1)]
        } else {
            Seq::empty()
        }
    }
}

/// No two classes share a name, and each has been drawn within bounds.
pub open spec fn placed_ok(cls: Seq<Class>) -> bool {
    &&& cls.len() <= MAX_CLASSES
    &&& forall|j: int, k: int| 0 <= j < k < cls.len() ==> (#[trigger] cls[j]).name@ != (#[trigger] cls[k]).name@
    &&& forall|k: int| 0 <= k < cls.len() ==> 50 <= (#[trigger] cls[k]).height <= 1_000_000
        && cls[k].x <= 3_000_000_000 && cls[k].y <= 3_000_000_000 && cls[k].width <= 100_000_000
}

proof fn lemma_class_named(cls: Seq<Class>, j: int)
    requires
        placed_ok(cls),
        0 <= j < cls.len(),
    ensures
        has_class(cls, cls[j].name@),
        class_named(cls, cls[j].name@) == cls[j],
{
    let name = cls[j].name@;
    assert(0 <= j < cls.len() && cls[j].name@ == name);
    let k = choose|k: int| 0 <= k < cls.len() && (#[trigger] cls[k]).name@ == name;
    if k < j {
        assert(cls[k].name@ != cls[j].name@);
    } else if k > j {
        assert(cls[j].name@ != cls[k].name@);
    }
}

proof fn lemma_ends_before_mono(links: Seq<Link>, l: int, m: int, name: Seq<char>)
    requires
        0 <= l <= m,
    ensures
        ends_before(links, l, name) <= ends_before(links, m, name),
    decreases m - l,
{
    if l < m {
        lemma_ends_before_mono(links, l, m - 1, name);
    }
}

proof fn lemma_anchor_bound(c: Class, occ: int, count: int)
    requires
        50 <= c.height <= 1_000_000,
        c.y <= 3_000_000_000,
        1 <= occ <= count <= 2 * MAX_LINKS,
    ensures
        c.y <= anchor_y(c, occ, count) <= c.y + c.height - 10,
        0 <= occ * (c.height - 10) <= 2_000_000_000_000,
{
    let h = c.height - 10;
    assert(0 <= occ * h <= count * h) by (nonlinear_arith)
        requires
            1 <= occ <= count,
            h >= 40,
    ;
    assert(occ * h / count <= h) by (nonlinear_arith)
        requires
            1 <= occ <= count,
            h >= 40,
            occ * h <= count * h,
    ;
    assert(occ * h <= 2_000_000_000_000) by (nonlinear_arith)
        requires
            1 <= occ <= 2_000_000,
            40 <= h <= 1_000_000,
    ;
}

/// The route of each link whose both ends name a class, in the order of the links: see
/// `route_of`. A link that names no class at one end is left out.
pub fn class_link_routes(classes: &Vec<Class>, links: &Vec<Link>) -> (r: Vec<ClassLinkRoute>)
    requires
        placed_ok(classes@),
        links@.len() <= MAX_LINKS,
    ensures
        r@ == routes(classes@, links@, links@.len() as int),
{
    let ghost cls = classes@;
    let ghost lks = links@;
    let n = classes.len();
    let total = links.len();
    let mut totals: Vec<i64> = Vec::new();
    let mut occ: Vec<i64> = Vec::new();
    while totals.len() < n
        invariant
            totals@.len() == occ@.len() <= n,
            forall|c: int| 0 <= c < totals@.len() ==> totals@[c] == 0 && occ@[c] == 0,
        decreases n - totals@.len(),
    {
        totals.push(0);
        occ.push(0);
    }
    let mut l: usize = 0;
    while l < total
        invariant
            n == cls.len(),
            total == lks.len() <= MAX_LINKS,
            classes@ == cls,
            links@ == lks,
            totals@.len() == n,
            0 <= l <= total,
            forall|c: int| 0 <= c < n ==> totals@[c] == ends_before(lks, l as int, #[trigger] cls[c].name@),
        decreases total - l,
    {
        let mut c: usize = 0;
        while c < n
            invariant
                n == cls.len(),
                total == lks.len() <= MAX_LINKS,
                classes@ == cls,
                links@ == lks,
            classes@ == cls,
            links@ == lks,
                totals@.len() == n,
                0 <= l < total,
                0 <= c <= n,
                forall|k: int| 0 <= k < c ==> totals@[k] == ends_before(lks, l + 1, #[trigger] cls[k].name@),
                forall|k: int| c <= k < n ==> totals@[k] == ends_before(lks, l as int, #[trigger] cls[k].name@),
            decreases n - c,
        {
            proof {
                lemma_ends_before_mono(lks, l as int, total as int, cls[c as int].name@);
                lemma_ends_before_le(lks, total as int, cls[c as int].name@);
            }
            let mut t = totals[c];
            if classes[c].name == links[l].left_id {
                t = t + 1;
            }
            if classes[c].name == links[l].right_id {
                t = t + 1;
            }
            totals.set(c, t);
            c += 1;
        }
        l += 1;
    }
    let mut out: Vec<ClassLinkRoute> = Vec::new();
    let mut link_index: usize = 0;
    let mut l: usize = 0;
    while l < total
        invariant
            n == cls.len(),
            placed_ok(cls),
            classes@ == cls,
            total == lks.len() <= MAX_LINKS,
            classes@ == cls,
            links@ == lks,
            totals@.len() == n,
            occ@.len() == n,
            0 <= l <= total,
            link_index == drawn_before(cls, lks, l as int),
            link_index <= l,
            forall|c: int| 0 <= c < n ==> totals@[c] == ends_before(lks, total as int, #[trigger] cls[c].name@),
            forall|c: int| 0 <= c < n ==> occ@[c] == ends_before(lks, l as int, #[trigger] cls[c].name@),
            out@ == routes(cls, lks, l as int),
        decreases total - l,
    {
        let ghost left = lks[l as int].left_id@;
        let ghost right = lks[l as int].right_id@;
        let mut found_left = false;
        let mut found_right = false;
        let mut x1: i64 = 0;
        let mut y1: i64 = 0;
        let mut x2: i64 = 0;
        let mut y2: i64 = 0;
        let mut c: usize = 0;
        while c < n
            invariant
                n == cls.len(),
                placed_ok(cls),
                classes@ == cls,
                total == lks.len() <= MAX_LINKS,
                classes@ == cls,
                links@ == lks,
            classes@ == cls,
            links@ == lks,
                totals@.len() == n,
                occ@.len() == n,
                0 <= l < total,
                0 <= c <= n,
                left == lks[l as int].left_id@,
                right == lks[l as int].right_id@,
                forall|k: int| 0 <= k < n ==> totals@[k] == ends_before(lks, total as int, #[trigger] cls[k].name@),
                forall|k: int| 0 <= k < c ==> occ@[k] == ends_before(lks, l + 1, #[trigger] cls[k].name@),
                forall|k: int| c <= k < n ==> occ@[k] == ends_before(lks, l as int, #[trigger] cls[k].name@),
                found_left <==> exists|k: int| 0 <= k < c && (#[trigger] cls[k]).name@ == left,
                found_right <==> exists|k: int| 0 <= k < c && (#[trigger] cls[k]).name@ == right,
                found_left ==> x1 == anchor_x(class_named(cls, left)) && y1 == anchor_y(class_named(cls, left),
                    ends_before(lks, l as int, left) + 1int, ends_before(lks, total as int, left) as int),
                found_right ==> x2 == anchor_x(class_named(cls, right)) && y2 == anchor_y(class_named(cls, right),
                    ends_before(lks, l as int, right) + 1 + (if left == right { 1int } else { 0 }),
                    ends_before(lks, total as int, right) as int),
            decreases n - c,
        {
            let ghost name = cls[c as int].name@;
            proof {
                lemma_ends_before_mono(lks, l as int, total as int, name);
                lemma_ends_before_mono(lks, l + 1, total as int, name);
                lemma_ends_before_le(lks, total as int, name);
                lemma_class_named(cls, c as int);
            }
            let cls_c = &classes[c];
            let mut o = occ[c];
            if cls_c.name == links[l].left_id {
                o = o + 1;
                x1 = if cls_c.x < 900 { (cls_c.x + cls_c.width) as i64 } else { cls_c.x as i64 };
                proof {
                    lemma_anchor_bound(*cls_c, o as int, totals@[c as int] as int);
                }
                y1 = cls_c.y as i64 + o * (cls_c.height as i64 - 10) / totals[c];
                found_left = true;
            }
            if cls_c.name == links[l].right_id {
                o = o + 1;
                x2 = if cls_c.x < 900 { (cls_c.x + cls_c.width) as i64 } else { cls_c.x as i64 };
                proof {
                    lemma_anchor_bound(*cls_c, o as int, totals@[c as int] as int);
                }
                y2 = cls_c.y as i64 + o * (cls_c.height as i64 - 10) / totals[c];
                found_right = true;
            }
            occ.set(c, o);
            proof {
                if found_left && name != left {
                    let k = choose|k: int| 0 <= k < c && (#[trigger] cls[k]).name@ == left;
                    assert(0 <= k < c + 1 && cls[k].name@ == left);
                }
                if found_right && name != right {
                    let k = choose|k: int| 0 <= k < c && (#[trigger] cls[k]).name@ == right;
                    assert(0 <= k < c + 1 && cls[k].name@ == right);
                }
                if name == left {
                    assert(0 <= c < c + 1 && cls[c as int].name@ == left);
                }
                if name == right {
                    assert(0 <= c < c + 1 && cls[c as int].name@ == right);
                }
            }
            c += 1;
        }
        proof {
            assert(found_left == has_class(cls, left));
            assert(found_right == has_class(cls, right));
        }
        if found_left && found_right {
            proof {
                assert(600 * link_index <= 600 * MAX_LINKS);
            }
            let xs = (900 + 600 * link_index / total) as i64;
            out.push(ClassLinkRoute { link: l, x1, y1, x2, y2, xs });
            link_index += 1;
        }
        proof {
            assert(out@ =~= routes(cls, lks, l + 1));
        }
        l += 1;
    }
    out
}

proof fn lemma_ends_before_le(links: Seq<Link>, l: int, name: Seq<char>)
    requires
        0 <= l,
    ensures
        ends_before(links, l, name) <= 2 * l,
    decreases l,
{
    if l > 0 {
        lemma_ends_before_le(links, l - 1, name);
    }
}


/// The primitives of a class link drawn along `r` with caption `caption`.
pub open spec fn route_prims(link: Link, r: ClassLinkRoute, caption: String) -> Seq<Primitive> {
    link_prims(link, spine_type(link.link_type), r.xs as int, r.y1 as int, r.xs as int, r.y2 as int, caption)
        + class_link_tail(link.link_type, r.x1 as int, r.y1 as int, r.x2 as int, r.y2 as int, r.xs as int)
}

/// The primitives of the first `k` routes.
pub open spec fn routes_prims(links: Seq<Link>, rs: Seq<ClassLinkRoute>, k: int, captions: Seq<String>) -> Seq<Primitive>
    decreases k,
{
    if k <= 0 {
        Seq::empty()
    } else {
        routes_prims(links, rs, k - 1, captions) + route_prims(links[rs[k - 1].link as int], rs[k - 1], captions[k - 1])
    }
}

/// `captions` holds the caption of the link of each route.
pub open spec fn route_captions(links: Seq<Link>, rs: Seq<ClassLinkRoute>, captions: Seq<String>) -> bool {
    &&& captions.len() == rs.len()
    &&& forall|k: int| 0 <= k < rs.len() ==> (#[trigger] captions[k])@
        == caption_of(links[rs[k].link as int].label@, links[rs[k].link as int].arrow)
}

/// Every route of `rs` is of one of `links` and lies within reach.
pub open spec fn routes_ok(links: Seq<Link>, rs: Seq<ClassLinkRoute>) -> bool {
    forall|k: int| 0 <= k < rs.len() ==> {
        let r = #[trigger] rs[k];
        &&& r.link < links.len()
        &&& -MAX_POSITION <= r.x1 <= MAX_POSITION && -MAX_POSITION <= r.y1 <= MAX_POSITION
        &&& -MAX_POSITION <= r.x2 <= MAX_POSITION && -MAX_POSITION <= r.y2 <= MAX_POSITION
        &&& -MAX_POSITION <= r.xs <= MAX_POSITION
    }
}

proof fn lemma_routes_prims_prefix(links: Seq<Link>, rs: Seq<ClassLinkRoute>, k: int, a: Seq<String>, b: Seq<String>)
    requires
        0 <= k,
        forall|j: int| 0 <= j < k ==> a[j] == b[j],
    ensures
        routes_prims(links, rs, k, a) == routes_prims(links, rs, k, b),
    decreases k,
{
    if k > 0 {
        lemma_routes_prims_prefix(links, rs, k - 1, a, b);
    }
}

/// Draws each link along its route.
pub fn draw_class_links(routes: &Vec<ClassLinkRoute>, links: &Vec<Link>, doc: &mut Vec<Primitive>)
    requires
        routes_ok(links@, routes@),
    ensures
        exists|captions: Seq<String>| route_captions(links@, routes@, captions)
            && final(doc)@ == old(doc)@ + routes_prims(links@, routes@, routes@.len() as int, captions),
{
    let ghost d0 = doc@;
    let ghost mut captions: Seq<String> = Seq::empty();
    let mut k: usize = 0;
    while k < routes.len()
        invariant
            routes_ok(links@, routes@),
            0 <= k <= routes@.len(),
            captions.len() == k,
            forall|j: int| 0 <= j < k ==> (#[trigger] captions[j])@
                == caption_of(links@[routes@[j].link as int].label@, links@[routes@[j].link as int].arrow),
            doc@ == d0 + routes_prims(links@, routes@, k as int, captions),
        decreases routes@.len() - k,
    {
        let r = routes[k];
        let ghost before = doc@;
        links[r.link].draw_class_link(doc, r.x1, r.y1, r.x2, r.y2, r.xs);
        proof {
            let link = links@[r.link as int];
            let caption = choose|caption: String| caption@ == caption_of(link.label@, link.arrow)
                && doc@ == before + link_prims(link, spine_type(link.link_type), r.xs as int, r.y1 as int, r.xs as int, r.y2 as int, caption)
                + class_link_tail(link.link_type, r.x1 as int, r.y1 as int, r.x2 as int, r.y2 as int, r.xs as int);
            let c2 = captions.push(caption);
            lemma_routes_prims_prefix(links@, routes@, k as int, captions, c2);
            captions = c2;
            assert(doc@ =~= d0 + routes_prims(links@, routes@, k + 1, captions));
        }
        k += 1;
    }
    assert(route_captions(links@, routes@, captions));
}

proof fn lemma_box_width_bound(c: Class, k: int)
    requires
        c.wf(),
        0 <= k <= member_count(c),
    ensures
        0 <= box_width(c, k) <= 15 * (2 * MAX_TEXT + 7),
    decreases k,
{
    if k > 0 {
        lemma_box_width_bound(c, k - 1);
        let m = member_at(c, k - 1);
        if k - 1 < c.attributes@.len() {
            assert(c.attributes@[k - 1].name == m.0.name);
        } else {
            assert(c.methods@[k - 1 - c.attributes@.len()].name == m.0.name);
        }
        assert(member_width(m.0, m.1) <= 15 * (2 * MAX_TEXT + 7));
    }
}

/// Lays out a class diagram: registers each class's name, failing on the first one
/// registered before, then places the classes in two columns and routes the links
/// between them. For `n` classes the canvas is `5 * 600` wide and
/// `600 * ceil((n + 1) / 2)` high.
pub fn layout_class_diagram(classes: &mut Vec<Class>, links: &Vec<Link>, aliases: &mut AliasRegistry) -> (r: Result<crate::primitive::Document, DiagramError>)
    requires
        old(aliases).wf(),
        old(classes)@.len() <= MAX_CLASSES,
        forall|k: int| 0 <= k < old(classes)@.len() ==> (#[trigger] old(classes)@[k]).wf(),
        links@.len() <= MAX_LINKS,
    ensures
        final(aliases).wf(),
        r is Ok <==> (old(aliases)@ + Seq::new(old(classes)@.len(), |k: int| old(classes)@[k].name@)).no_duplicates(),
        r is Ok ==> {
            let d = r->Ok_0;
            let placed_all = Seq::new(old(classes)@.len(), |k: int| placed(old(classes)@, k));
            &&& final(aliases)@ == old(aliases)@ + Seq::new(old(classes)@.len(), |k: int| old(classes)@[k].name@)
            &&& final(classes)@ == placed_all
            &&& d.width == 5 * CLASS_SIZE
            &&& d.height == CLASS_SIZE * ((old(classes)@.len() + 2) / 2)
            &&& exists|tt: Seq<Seq<String>>, captions: Seq<String>|
                #![trigger member_lines(old(classes)@, tt), route_captions(links@, routes(placed_all, links@, links@.len() as int), captions)]
                {
                &&& member_lines(old(classes)@, tt)
                &&& route_captions(links@, routes(placed_all, links@, links@.len() as int), captions)
                &&& d.primitives@ == classes_prims(old(classes)@, old(classes)@.len() as int, tt)
                    + routes_prims(links@, routes(placed_all, links@, links@.len() as int),
                        routes(placed_all, links@, links@.len() as int).len() as int, captions)
            }
        },
        r is Err ==> exists|k: int| 0 <= k < old(classes)@.len() && r == Err::<crate::primitive::Document, DiagramError>(
            DiagramError::DuplicateIdentifier(#[trigger] old(classes)@[k].name)),
{
    let ghost cls = classes@;
    let ghost reg0 = aliases@;
    let ghost names = Seq::new(cls.len(), |k: int| cls[k].name@);
    let n = classes.len();
    let mut k: usize = 0;
    while k < n
        invariant
            n == cls.len(),
            names.len() == n,
            names == Seq::new(cls.len(), |j: int| cls[j].name@),
            cls == old(classes)@,
            reg0 == old(aliases)@,
            classes@ == cls,
            aliases.wf(),
            0 <= k <= n,
            aliases@ == reg0 + names.subrange(0, k as int),
            (reg0 + names.subrange(0, k as int)).no_duplicates(),
        decreases n - k,
    {
        let ghost before = aliases@;
        let res = UmlParser::add_alias(aliases, classes[k].name.clone());
        if let Err(_) = res {
            proof {
                assert(names[k as int] == cls[k as int].name@);
                assert(add_outcome(before, names[k as int]) is None);
                let pre = reg0 + names.subrange(0, k as int);
                let all = reg0 + names;
                assert(pre.contains(names[k as int]));
                let idx = choose|i: int| 0 <= i < pre.len() && pre[i] == names[k as int];
                assert(pre[idx] == all[idx]);
                assert(all[reg0.len() + k] == names[k as int]);
                assert(idx != reg0.len() + k);
                assert(!all.no_duplicates());
            }
            return Err(DiagramError::DuplicateIdentifier(classes[k].name.clone()));
        }
        proof {
            assert(reg0 + names.subrange(0, k + 1) =~= before.push(names[k as int]));
        }
        k += 1;
    }
    proof {
        assert(names.subrange(0, n as int) =~= names);
        assert forall|j: int, i: int| 0 <= j < i < cls.len() implies (#[trigger] cls[j]).name@ != (#[trigger] cls[i]).name@ by {
            let all = reg0 + names;
            assert(all[reg0.len() + j] == cls[j].name@);
            assert(all[reg0.len() + i] == cls[i].name@);
        }
    }
    let mut primitives: Vec<Primitive> = Vec::new();
    place_classes(classes, &mut primitives);
    let ghost after_classes = primitives@;
    proof {
        let p = classes@;
        assert forall|k: int| 0 <= k < p.len() implies 50 <= (#[trigger] p[k]).height <= 1_000_000
            && p[k].x <= 3_000_000_000 && p[k].y <= 3_000_000_000 && p[k].width <= 100_000_000 by {
            assert(p[k] == placed(cls, k));
            assert(cls[k].wf());
            lemma_class_y_bound(cls, k);
            lemma_box_width_bound(cls[k], member_count(cls[k]));
        }
        assert forall|j: int, i: int| 0 <= j < i < p.len() implies (#[trigger] p[j]).name@ != (#[trigger] p[i]).name@ by {
            assert(p[j] == placed(cls, j));
            assert(p[i] == placed(cls, i));
        }
        assert(p =~= Seq::new(cls.len(), |k: int| placed(cls, k)));
    }
    let rs = class_link_routes(classes, links);
    proof {
        let p = classes@;
        assert forall|k: int| 0 <= k < rs@.len() implies {
            let r = #[trigger] rs@[k];
            &&& r.link < links@.len()
            &&& -MAX_POSITION <= r.x1 <= MAX_POSITION && -MAX_POSITION <= r.y1 <= MAX_POSITION
            &&& -MAX_POSITION <= r.x2 <= MAX_POSITION && -MAX_POSITION <= r.y2 <= MAX_POSITION
            &&& -MAX_POSITION <= r.xs <= MAX_POSITION
        } by {
            lemma_routes_ok(p, links@, links@.len() as int, k);
        }
    }
    draw_class_links(&rs, links, &mut primitives);
    assert(n <= MAX_CLASSES);
    Ok(crate::primitive::Document { width: 5 * CLASS_SIZE as i64, height: (600 * ((n + 2) / 2)) as i64, primitives })
}

proof fn lemma_routes_ok(p: Seq<Class>, links: Seq<Link>, l: int, k: int)
    requires
        placed_ok(p),
        0 <= l <= links.len() <= MAX_LINKS,
        0 <= k < routes(p, links, l).len(),
    ensures
        ({
            let r = routes(p, links, l)[k];
            &&& r.link < links.len()
            &&& -MAX_POSITION <= r.x1 <= MAX_POSITION && -MAX_POSITION <= r.y1 <= MAX_POSITION
            &&& -MAX_POSITION <= r.x2 <= MAX_POSITION && -MAX_POSITION <= r.y2 <= MAX_POSITION
            &&& -MAX_POSITION <= r.xs <= MAX_POSITION
        }),
    decreases l,
{
    let prev = routes(p, links, l - 1);
    if k < prev.len() {
        lemma_routes_ok(p, links, l - 1, k);
    } else {
        let i = l - 1;
        let left = links[i].left_id@;
        let right = links[i].right_id@;
        let jl = choose|j: int| 0 <= j < p.len() && (#[trigger] p[j]).name@ == left;
        let jr = choose|j: int| 0 <= j < p.len() && (#[trigger] p[j]).name@ == right;
        lemma_class_named(p, jl);
        lemma_class_named(p, jr);
        let total = links.len() as int;
        lemma_ends_before_mono(links, i, i + 1, left);
        lemma_ends_before_mono(links, i + 1, total, left);
        lemma_ends_before_mono(links, i, i + 1, right);
        lemma_ends_before_mono(links, i + 1, total, right);
        lemma_ends_before_le(links, total, left);
        lemma_ends_before_le(links, total, right);
        lemma_anchor_bound(p[jl], ends_before(links, i, left) + 1int, ends_before(links, total, left) as int);
        lemma_anchor_bound(p[jr], ends_before(links, i, right) + 1 + (if left == right { 1int } else { 0 }),
            ends_before(links, total, right) as int);
        lemma_drawn_before_le(p, links, i);
        let d = drawn_before(p, links, i) as int;
        assert(0 <= 600 * d / total <= 600) by (nonlinear_arith)
            requires
                0 <= d <= total,
                total >= 1,
        ;
    }
}

proof fn lemma_drawn_before_le(cls: Seq<Class>, links: Seq<Link>, l: int)
    requires
        0 <= l,
    ensures
        drawn_before(cls, links, l) <= l,
    decreases l,
{
    if l > 0 {
        lemma_drawn_before_le(cls, links, l - 1);
    }
}

} // verus!
