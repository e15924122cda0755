use vstd::prelude::*;

use crate::primitive::{whole, CircleKind, Halves, LineKind, Primitive, TextKind};

verus! {

/// A participant of a use-case diagram, drawn as a stick figure.
pub struct Actor {
    pub label: String,
    pub alias: String,
    pub x: i32,
    pub y: i32,
}

/// A thin, solid line without arrow.
pub open spec fn figure_line(x1: Halves, y1: int, x2: int, y2: int) -> Primitive {
    Primitive::Line { x1, y1: y1 as i64, x2: x2 as i64, y2: y2 as i64, kind: LineKind::Thin { dashed: false, arrow_end: false } }
}

/// The stick figure of an actor labelled `label` whose head of radius `r` is centred at
/// `(x, y)`: the label above the head, the head, the body from `y + r` to `y + 3r`, the arms
/// from `1.5r` either side at `y + r` down to the body at `y + 2r`, and the legs from `1.5r`
/// either side at `y + 5r` up to the body at `y + 3r`.
pub open spec fn actor_prims(label: String, x: int, y: int, r: int) -> Seq<Primitive> {
    seq![
        Primitive::Text { x: whole(x), y: (y - r - 30) as i64, content: label, kind: TextKind::ActorCaption, rotation: None },
        Primitive::Circle { cx: x as i64, cy: y as i64, r: r as i64, kind: CircleKind::ActorHead },
        figure_line(whole(x), y + r, x, y + 3 * r),
        figure_line(Halves { twice: (2 * x - 3 * r) as i64 }, y + r, x, y + 2 * r),
        figure_line(Halves { twice: (2 * x + 3 * r) as i64 }, y + r, x, y + 2 * r),
        figure_line(Halves { twice: (2 * x - 3 * r) as i64 }, y + 5 * r, x, y + 3 * r),
        figure_line(Halves { twice: (2 * x + 3 * r) as i64 }, y + 5 * r, x, y + 3 * r),
    ]
}

impl Actor {
    /// An actor; without an alias it is known by its label.
    pub fn new(label: String, alias: Option<String>) -> (r: Actor)
        ensures
            r.label == label,
            alias is Some ==> r.alias == alias->0,
            alias is None ==> r.alias == label,
            r.x == -1 && r.y == -1,
    {
        let alias = match alias {
            Some(a) => a,
            None => label.clone(),
        };
        Actor { label, alias, x: -1, y: -1 }
    }

    pub fn get_actor_label(&self) -> (r: &String)
        ensures
            *r == self.label,
    {
        &self.label
    }

    pub fn get_actor_alias(&self) -> (r: &String)
        ensures
            *r == self.alias,
    {
        &self.alias
    }

    pub fn get_x(&self) -> (r: i32)
        ensures
            r == self.x,
    {
        self.x
    }

    pub fn get_y(&self) -> (r: i32)
        ensures
            r == self.y,
    {
        self.y
    }

    /// Draws the actor with its head of radius `r` centred at `(x, y)`, and records that centre.
    pub fn draw(&mut self, doc: &mut Vec<Primitive>, x: i32, y: i32, r: i32)
        ensures
            final(self).x == x && final(self).y == y,
            final(self).label == old(self).label && final(self).alias == old(self).alias,
            final(doc)@ == old(doc)@ + actor_prims(old(self).label, x as int, y as int, r as int),
    {
        self.x = x;
        self.y = y;
        let (x, y, r) = (x as i64, y as i64, r as i64);
        let thin = LineKind::Thin { dashed: false, arrow_end: false };
        let ghost d0 = doc@;
        doc.push(Primitive::Text { x: Halves { twice: 2 * x }, y: y - r - 30, content: self.label.clone(), kind: TextKind::ActorCaption, rotation: None });
        doc.push(Primitive::Circle { cx: x, cy: y, r, kind: CircleKind::ActorHead });
        doc.push(Primitive::Line { x1: Halves { twice: 2 * x }, y1: y + r, x2: x, y2: y + 3 * r, kind: thin });
        doc.push(Primitive::Line { x1: Halves { twice: 2 * x - 3 * r }, y1: y + r, x2: x, y2: y + 2 * r, kind: thin });
        doc.push(Primitive::Line { x1: Halves { twice: 2 * x + 3 * r }, y1: y + r, x2: x, y2: y + 2 * r, kind: thin });
        doc.push(Primitive::Line { x1: Halves { twice: 2 * x - 3 * r }, y1: y + 5 * r, x2: x, y2: y + 3 * r, kind: thin });
        doc.push(Primitive::Line { x1: Halves { twice: 2 * x + 3 * r }, y1: y + 5 * r, x2: x, y2: y + 3 * r, kind: thin });
        assert(doc@ =~= d0 + actor_prims(old(self).label, x as int, y as int, r as int));
    }
}

} // verus!
