use vstd::prelude::*;
use vstd::string::StringExecFns;

use crate::primitive::{whole, LineKind, MarkerKind, Primitive, Rotation, TextKind};
use crate::text::{half_toward_zero, strip_quotes, without_quotes};
use crate::use_case::MAX_POSITION;

verus! {

/// Which way the arrow printed after a link's label points.
#[derive(Debug, Clone, Copy, PartialEq, Eq, Structural)]
pub enum ArrowType {
    Left,
    Right,
    Missing,
}

/// The style of a link's line.
#[derive(Debug, Clone, Copy, PartialEq, Eq, Structural)]
pub enum LinkType {
    SolidLine,
    DashedLine,
    SolidArrow,
    DashedArrow,
}

impl LinkType {
    pub open spec fn spec_is_dashed(self) -> bool {
        self == LinkType::DashedLine || self == LinkType::DashedArrow
    }

    pub open spec fn spec_is_arrow(self) -> bool {
        self == LinkType::SolidArrow || self == LinkType::DashedArrow
    }

    pub fn is_dashed(self) -> (r: bool)
        ensures
            r == self.spec_is_dashed(),
    {
        self == LinkType::DashedLine || self == LinkType::DashedArrow
    }

    pub fn is_arrow(self) -> (r: bool)
        ensures
            r == self.spec_is_arrow(),
    {
        self == LinkType::SolidArrow || self == LinkType::DashedArrow
    }
}

/// A relation between two identified entities.
pub struct Link {
    pub left_id: String,
    pub right_id: String,
    pub link_type: LinkType,
    pub label: String,
    pub arrow: ArrowType,
}

/// The text shown on a link: its label followed by the arrow it points with, if any.
pub open spec fn caption_of(label: Seq<char>, arrow: ArrowType) -> Seq<char> {
    match arrow {
        ArrowType::Left => label + seq!['\u{25C0}'],
        ArrowType::Right => label + seq!['\u{25B6}'],
        ArrowType::Missing => label,
    }
}

/// The primitives of `link` drawn as a straight line from `(x1, y1)` to `(x2, y2)` in style
/// `t`: an open arrowhead at the end for arrow styles, the caption at the middle, turned
/// along the line, and the line itself.
pub open spec fn link_prims(link: Link, t: LinkType, x1: int, y1: int, x2: int, y2: int, caption: String) -> Seq<Primitive> {
    let cx = half_toward_zero(x1 + x2);
    let cy = half_toward_zero(y1 + y2);
    (if t.spec_is_arrow() {
        seq![Primitive::ArrowHead { x1: x1 as i64, y1: y1 as i64, x2: x2 as i64, y2: y2 as i64 }]
    } else {
        Seq::empty()
    }) + (if link.label@.len() > 0 {
        seq![Primitive::Text {
            x: whole(cx),
            y: (cy - 5) as i64,
            content: caption,
            kind: TextKind::LinkCaption,
            rotation: Some(Rotation { dx: (x2 - x1) as i64, dy: (y2 - y1) as i64, cx: cx as i64, cy: cy as i64 }),
        }]
    } else {
        Seq::empty()
    }) + seq![Primitive::Line {
        x1: whole(x1),
        y1: y1 as i64,
        x2: x2 as i64,
        y2: y2 as i64,
        kind: LineKind::Thin { dashed: t.spec_is_dashed(), arrow_end: false },
    }]
}

impl Link {
    /// A link; double quotes around or in its label are dropped.
    pub fn new(left_id: String, link_type: LinkType, right_id: String, label: String, arrow: ArrowType) -> (r: Link)
        ensures
            r.left_id == left_id,
            r.right_id == right_id,
            r.link_type == link_type,
            r.label@ == without_quotes(label@),
            r.arrow == arrow,
    {
        Link { left_id, right_id, link_type, label: strip_quotes(&label), arrow }
    }

    pub fn get_left_id(&self) -> (r: &String)
        ensures
            *r == self.left_id,
    {
        &self.left_id
    }

    pub fn get_right_id(&self) -> (r: &String)
        ensures
            *r == self.right_id,
    {
        &self.right_id
    }

    pub fn get_link_type(&self) -> (r: &LinkType)
        ensures
            *r == self.link_type,
    {
        &self.link_type
    }

    pub fn get_label(&self) -> (r: &String)
        ensures
            *r == self.label,
    {
        &self.label
    }

    pub fn get_arrow(&self) -> (r: &ArrowType)
        ensures
            *r == self.arrow,
    {
        &self.arrow
    }

    pub fn set_arrow(&mut self, arrow: ArrowType)
        ensures
            final(self).arrow == arrow,
            final(self).left_id == old(self).left_id,
            final(self).right_id == old(self).right_id,
            final(self).link_type == old(self).link_type,
            final(self).label == old(self).label,
    {
        self.arrow = arrow;
    }

    pub fn set_link_type(&mut self, link_type: LinkType)
        ensures
            final(self).link_type == link_type,
            final(self).left_id == old(self).left_id,
            final(self).right_id == old(self).right_id,
            final(self).arrow == old(self).arrow,
            final(self).label == old(self).label,
    {
        self.link_type = link_type;
    }

    /// The label followed by the arrow it points with.
    pub fn caption(&self) -> (r: String)
        ensures
            r@ == caption_of(self.label@, self.arrow),
    {
        let mut text = self.label.clone();
        match self.arrow {
            ArrowType::Left => text.append("\u{25C0}"),
            ArrowType::Right => text.append("\u{25B6}"),
            ArrowType::Missing => {},
        }
        proof {
            reveal_strlit("\u{25C0}");
            reveal_strlit("\u{25B6}");
        }
        text
    }

    /// A thin line from `(x1, y1)` to `(x2, y2)`, dashed when the link is.
    pub fn draw_line(&self, x1: i64, y1: i64, x2: i64, y2: i64) -> (r: Primitive)
        requires
            -MAX_POSITION <= x1 <= MAX_POSITION,
        ensures
            r == (Primitive::Line {
                x1: whole(x1 as int),
                y1: y1,
                x2: x2,
                y2: y2,
                kind: LineKind::Thin { dashed: self.link_type.spec_is_dashed(), arrow_end: false },
            }),
    {
        Primitive::Line {
            x1: crate::primitive::halves_of(x1),
            y1: y1,
            x2: x2,
            y2: y2,
            kind: LineKind::Thin { dashed: self.link_type.is_dashed(), arrow_end: false },
        }
    }

    fn draw_styled(&self, doc: &mut Vec<Primitive>, t: LinkType, x1: i64, y1: i64, x2: i64, y2: i64)
        requires
            -MAX_POSITION <= x1 <= MAX_POSITION,
            -MAX_POSITION <= y1 <= MAX_POSITION,
            -MAX_POSITION <= x2 <= MAX_POSITION,
            -MAX_POSITION <= y2 <= MAX_POSITION,
        ensures
            exists|caption: String| caption@ == caption_of(self.label@, self.arrow)
                && final(doc)@ == old(doc)@ + link_prims(*self, t, x1 as int, y1 as int, x2 as int, y2 as int, caption),
    {
        let cx = crate::text::halve(x1 + x2);
        let cy = crate::text::halve(y1 + y2);
        let ghost d0 = doc@;
        if t.is_arrow() {
            doc.push(Primitive::ArrowHead { x1: x1, y1: y1, x2: x2, y2: y2 });
        }
        let caption = self.caption();
        if !self.label.as_str().is_empty() {
            doc.push(Primitive::Text {
                x: crate::primitive::halves_of(cx),
                y: cy - 5,
                content: caption.clone(),
                kind: TextKind::LinkCaption,
                rotation: Some(Rotation { dx: x2 - x1, dy: y2 - y1, cx, cy }),
            });
        }
        doc.push(Primitive::Line {
            x1: crate::primitive::halves_of(x1),
            y1: y1,
            x2: x2,
            y2: y2,
            kind: LineKind::Thin { dashed: t.is_dashed(), arrow_end: false },
        });
        assert(doc@ =~= d0 + link_prims(*self, t, x1 as int, y1 as int, x2 as int, y2 as int, caption));
    }

    /// Draws the link as a straight line from `(x1, y1)` to `(x2, y2)`.
    pub fn draw(&self, doc: &mut Vec<Primitive>, x1: i64, y1: i64, x2: i64, y2: i64)
        requires
            -MAX_POSITION <= x1 <= MAX_POSITION,
            -MAX_POSITION <= y1 <= MAX_POSITION,
            -MAX_POSITION <= x2 <= MAX_POSITION,
            -MAX_POSITION <= y2 <= MAX_POSITION,
        ensures
            exists|caption: String| caption@ == caption_of(self.label@, self.arrow)
                && final(doc)@ == old(doc)@ + link_prims(*self, self.link_type, x1 as int, y1 as int, x2 as int, y2 as int, caption),
    {
        self.draw_styled(doc, self.link_type, x1, y1, x2, y2);
    }

    /// Draws the link between two class boxes as three orthogonal segments: out of the
    /// source at `y1` to the spine at `xs`, along the spine, and into the target at `y2`,
    /// the last one ending in an arrow for arrow styles.
    pub fn draw_class_link(&self, doc: &mut Vec<Primitive>, x1: i64, y1: i64, x2: i64, y2: i64, xs: i64)
        requires
            -MAX_POSITION <= x1 <= MAX_POSITION,
            -MAX_POSITION <= y1 <= MAX_POSITION,
            -MAX_POSITION <= x2 <= MAX_POSITION,
            -MAX_POSITION <= y2 <= MAX_POSITION,
            -MAX_POSITION <= xs <= MAX_POSITION,
        ensures
            exists|caption: String| caption@ == caption_of(self.label@, self.arrow)
                && final(doc)@ == old(doc)@ + link_prims(*self, spine_type(self.link_type), xs as int, y1 as int, xs as int, y2 as int, caption)
                + class_link_tail(self.link_type, x1 as int, y1 as int, x2 as int, y2 as int, xs as int),
    {
        let spine = if self.link_type == LinkType::DashedArrow {
            LinkType::DashedLine
        } else if self.link_type == LinkType::SolidArrow {
            LinkType::SolidLine
        } else {
            self.link_type
        };
        self.draw_styled(doc, spine, xs, y1, xs, y2);
        let ghost d1 = doc@;
        let dashed = self.link_type.is_dashed();
        let arrow = self.link_type.is_arrow();
        let line1 = Primitive::Line {
            x1: crate::primitive::halves_of(x1),
            y1: y1,
            x2: xs,
            y2: y1,
            kind: LineKind::Thin { dashed, arrow_end: false },
        };
        let line2 = Primitive::Line {
            x1: crate::primitive::halves_of(xs),
            y1: y2,
            x2: x2,
            y2: y2,
            kind: LineKind::Thin { dashed, arrow_end: arrow },
        };
        if arrow {
            doc.push(Primitive::Marker(MarkerKind::ClassLink));
        }
        doc.push(line1);
        doc.push(line2);
        assert(doc@ =~= d1 + class_link_tail(self.link_type, x1 as int, y1 as int, x2 as int, y2 as int, xs as int));
    }
}

/// The style of the spine of a class link: that of the link, without the arrow.
pub open spec fn spine_type(t: LinkType) -> LinkType {
    match t {
        LinkType::DashedArrow => LinkType::DashedLine,
        LinkType::SolidArrow => LinkType::SolidLine,
        _ => t,
    }
}

/// The two horizontal segments of a class link, after its spine.
pub open spec fn class_link_tail(t: LinkType, x1: int, y1: int, x2: int, y2: int, xs: int) -> Seq<Primitive> {
    (if t.spec_is_arrow() { seq![Primitive::Marker(MarkerKind::ClassLink)] } else { Seq::empty() }) + seq![
        Primitive::Line { x1: whole(x1), y1: y1 as i64, x2: xs as i64, y2: y1 as i64, kind: LineKind::Thin { dashed: t.spec_is_dashed(), arrow_end: false } },
        Primitive::Line { x1: whole(xs), y1: y2 as i64, x2: x2 as i64, y2: y2 as i64, kind: LineKind::Thin { dashed: t.spec_is_dashed(), arrow_end: t.spec_is_arrow() } },
    ]
}

} // verus!
