use vstd::prelude::*;

verus! {

/// A coordinate that may fall on a half unit: the value is `twice / 2`.
#[derive(Debug, Clone, Copy, PartialEq, Eq, Structural)]
pub struct Halves {
    pub twice: i64,
}

/// The direction a rotated text follows: the slope `dy / dx`, turned about `(cx, cy)`.
#[derive(Debug, Clone, Copy, PartialEq, Eq, Structural)]
pub struct Rotation {
    pub dx: i64,
    pub dy: i64,
    pub cx: i64,
    pub cy: i64,
}

#[derive(Debug, Clone, Copy, PartialEq, Eq, Structural)]
pub enum RectKind {
    /// The box of a class or interface.
    ClassBox,
    /// The rounded box of an activity step.
    StepBox,
    /// The diamond of a decision, a square turned by 45 degrees about its centre.
    DecisionDiamond,
    /// The rounded frame of a use-case context.
    ContextFrame,
}

#[derive(Debug, Clone, Copy, PartialEq, Eq, Structural)]
pub enum CircleKind {
    /// The head of an actor.
    ActorHead,
    /// The outer ring of an activity's end node.
    EndRing,
    /// The inner dot of an activity's end node.
    EndDot,
    /// The dot of an activity's start node.
    StartDot,
}

#[derive(Debug, Clone, Copy, PartialEq, Eq, Structural)]
pub enum LineKind {
    /// A thin line: link segments and actor limbs; optionally dashed, optionally ending in the
    /// link arrow marker.
    Thin { dashed: bool, arrow_end: bool },
    /// The separators inside a class box.
    Rule,
    /// A thick activity connector ending in the activity arrow marker.
    Activity,
}

#[derive(Debug, Clone, Copy, PartialEq, Eq, Structural)]
pub enum TextKind {
    /// Centred class name.
    ClassTitle,
    /// Centred keyword of an interface, shown in parentheses.
    ClassKeyword,
    /// Left-aligned class attribute or method.
    ClassMember,
    /// Centred activity node caption.
    NodeCaption,
    /// Label of an activity connector.
    ArrowCaption,
    /// Label of a link.
    LinkCaption,
    /// Name under an actor.
    ActorCaption,
    /// Label above a context frame.
    ContextCaption,
    /// Label inside a use-case ellipse.
    UseCaseCaption,
}

#[derive(Debug, Clone, Copy, PartialEq, Eq, Structural)]
pub enum MarkerKind {
    /// The arrowhead that activity connectors end in.
    Activity,
    /// The arrowhead that class links end in.
    ClassLink,
}

/// One drawing primitive of the vector document, in drawing order.
#[derive(Debug, Clone, PartialEq, Eq)]
pub enum Primitive {
    /// A white rectangle that covers the whole canvas.
    Background,
    Rect { x: i64, y: i64, width: i64, height: i64, kind: RectKind },
    Ellipse { cx: i64, cy: i64, rx: Halves, ry: i64 },
    Circle { cx: i64, cy: i64, r: i64, kind: CircleKind },
    Line { x1: Halves, y1: i64, x2: i64, y2: i64, kind: LineKind },
    Text { x: Halves, y: i64, content: String, kind: TextKind, rotation: Option<Rotation> },
    /// A reusable arrowhead definition.
    Marker(MarkerKind),
    /// The open arrowhead of a link that ends at `(x2, y2)` and comes from `(x1, y1)`.
    ArrowHead { x1: i64, y1: i64, x2: i64, y2: i64 },
}

/// The whole value `v` as a coordinate.
pub open spec fn whole(v: int) -> Halves {
    Halves { twice: (2 * v) as i64 }
}

pub fn halves_of(v: i64) -> (h: Halves)
    requires
        i64::MIN / 2 <= v <= i64::MAX / 2,
    ensures
        h == whole(v as int),
{
    Halves { twice: 2 * v }
}

/// A finished drawing: its primitives and the size of its canvas.
pub struct Document {
    pub width: i64,
    pub height: i64,
    pub primitives: Vec<Primitive>,
}

} // verus!
