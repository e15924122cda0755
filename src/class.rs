use vstd::prelude::*;
use vstd::string::StringExecFns;

use crate::primitive::{whole, LineKind, Primitive, RectKind, TextKind};
use crate::text::{byte_len, text_len, MAX_TEXT};

verus! {

/// The most attributes and methods a class may hold together.
pub const MAX_MEMBERS: usize = 10_000;

/// How far from the origin a class may be drawn.
pub const MAX_CLASS_COORD: usize = 3_000_000_000;

/// The most classes a diagram may hold.
pub const MAX_CLASSES: usize = 5_000;

#[allow(non_camel_case_types)]
#[derive(Debug, Clone, Copy, PartialEq, Eq, Structural)]
pub enum Visibility {
    PRIVATE,
    PROTECTED,
    PUBLIC,
}

/// An attribute or method of a class.
pub struct Component {
    pub name: String,
    pub visibility: Visibility,
    /// The type annotation, empty when there is none.
    pub kind: String,
}

/// A class or interface with its members, and where it was drawn.
pub struct Class {
    pub keyword: String,
    pub interface: bool,
    pub name: String,
    pub attributes: Vec<Component>,
    pub methods: Vec<Component>,
    pub x: usize,
    pub y: usize,
    pub height: usize,
    pub width: usize,
}

/// The sign shown for a visibility.
pub open spec fn visibility_sign(v: Visibility) -> char {
    match v {
        Visibility::PRIVATE => '-',
        Visibility::PROTECTED => '#',
        Visibility::PUBLIC => '+',
    }
}

/// The line shown for a member: its sign, a space, its name, `()` for a method, and
/// ` : ` with its type when it has one.
pub open spec fn member_text(c: Component, method: bool) -> Seq<char> {
    seq![visibility_sign(c.visibility), ' '] + c.name@ + (if method { seq!['(', ')'] } else { Seq::empty() })
        + (if c.kind@.len() > 0 { seq![' ', ':', ' '] + c.kind@ } else { Seq::empty() })
}

/// The width that a member's line takes: 15 for each of its bytes.
pub open spec fn member_width(c: Component, method: bool) -> int {
    15 * (2 + text_len(c.name) + (if method { 2int } else { 0 }) + (if c.kind@.len() > 0 { 3 + text_len(c.kind) } else { 0 }))
}

/// The members of a class in drawing order: attributes, then methods.
pub open spec fn member_at(cls: Class, k: int) -> (Component, bool) {
    if k < cls.attributes@.len() {
        (cls.attributes@[k], false)
    } else {
        (cls.methods@[k - cls.attributes@.len()], true)
    }
}

/// The width of a class box: that of its widest member line, 0 with no members.
pub open spec fn box_width(cls: Class, k: int) -> int
    decreases k,
{
    if k <= 0 {
        0
    } else {
        let w = box_width(cls, k - 1);
        let m = member_at(cls, k - 1);
        let mw = member_width(m.0, m.1);
        if mw > w { mw } else { w }
    }
}

pub open spec fn member_count(cls: Class) -> int {
    (cls.attributes@.len() + cls.methods@.len()) as int
}

/// 50 more for an interface, whose keyword stands above its name.
pub open spec fn title_offset(cls: Class) -> int {
    if cls.interface { 50 } else { 0 }
}

/// The height of a class box: 50 for its name and 50 for each member, plus the
/// interface's keyword.
pub open spec fn box_height(cls: Class) -> int {
    (member_count(cls) + 1) * 50 + title_offset(cls)
}

/// The primitives of a class box at `(x, y)` whose member lines read `texts`: the box,
/// the keyword of an interface, the name, the rule under the name, the rule above the
/// methods, and the member lines.
pub open spec fn class_prims(cls: Class, x: int, y: int, texts: Seq<String>) -> Seq<Primitive> {
    let add = title_offset(cls);
    let width = box_width(cls, member_count(cls));
    seq![Primitive::Rect { x: x as i64, y: y as i64, width: width as i64, height: box_height(cls) as i64, kind: RectKind::ClassBox }]
        + (if cls.interface {
            seq![Primitive::Text { x: whole(x + 200), y: (y + 37) as i64, content: cls.keyword, kind: TextKind::ClassKeyword, rotation: None }]
        } else {
            Seq::empty()
        })
        + seq![
            Primitive::Text { x: whole(x + 200), y: (y + 37 + add) as i64, content: cls.name, kind: TextKind::ClassTitle, rotation: None },
            Primitive::Line { x1: whole(x), y1: (y + 50 + add) as i64, x2: (x + width) as i64, y2: (y + 50 + add) as i64, kind: LineKind::Rule },
            Primitive::Line { x1: whole(x), y1: (y + (cls.methods@.len() + 1) * 50 + add) as i64, x2: (x + width) as i64,
                y2: (y + (cls.methods@.len() + 1) * 50 + add) as i64, kind: LineKind::Rule },
        ]
        + Seq::new(texts.len(), |k: int| Primitive::Text {
            x: whole(x + 15),
            y: (y + add + 87 + k * 50) as i64,
            content: texts[k],
            kind: TextKind::ClassMember,
            rotation: None,
        })
}

impl Component {
    pub fn new(name: String, visibility: Visibility, kind: String) -> (r: Component)
        ensures
            r.name == name,
            r.visibility == visibility,
            r.kind == kind,
    {
        Component { name, visibility, kind }
    }

    pub fn get_name(&self) -> (r: &String)
        ensures
            *r == self.name,
    {
        &self.name
    }

    pub fn get_visibility(&self) -> (r: &Visibility)
        ensures
            *r == self.visibility,
    {
        &self.visibility
    }

    pub fn get_kind(&self) -> (r: &String)
        ensures
            *r == self.kind,
    {
        &self.kind
    }

    /// The line shown for this member, and its width.
    pub fn line(&self, method: bool) -> (r: (String, usize))
        requires
            text_len(self.name) <= MAX_TEXT,
            text_len(self.kind) <= MAX_TEXT,
        ensures
            r.0@ == member_text(*self, method),
            r.1 == member_width(*self, method),
    {
        let mut text = match self.visibility {
            Visibility::PRIVATE => String::from_str("- "),
            Visibility::PROTECTED => String::from_str("# "),
            Visibility::PUBLIC => String::from_str("+ "),
        };
        let mut bytes: usize = 2 + byte_len(&self.name);
        text.append(self.name.as_str());
        if method {
            text.append("()");
            bytes = bytes + 2;
        }
        if !self.kind.as_str().is_empty() {
            text.append(" : ");
            text.append(self.kind.as_str());
            bytes = bytes + 3 + byte_len(&self.kind);
        }
        proof {
            reveal_strlit("- ");
            reveal_strlit("# ");
            reveal_strlit("+ ");
            reveal_strlit("()");
            reveal_strlit(" : ");
            assert(text@ =~= member_text(*self, method));
        }
        (text, 15 * bytes)
    }
}

impl Class {
    /// Every member's name and type fit the text limit, and there are not too many members.
    pub open spec fn wf(&self) -> bool {
        &&& member_count(*self) <= MAX_MEMBERS
        &&& forall|i: int| 0 <= i < self.attributes@.len() ==> text_len(#[trigger] self.attributes@[i].name) <= MAX_TEXT
            && text_len(self.attributes@[i].kind) <= MAX_TEXT
        &&& forall|i: int| 0 <= i < self.methods@.len() ==> text_len(#[trigger] self.methods@[i].name) <= MAX_TEXT
            && text_len(self.methods@[i].kind) <= MAX_TEXT
    }

    /// A class, or an interface, not yet drawn.
    pub fn new(name: String, attributes: Vec<Component>, methods: Vec<Component>, interface: bool) -> (r: Class)
        ensures
            r.name == name,
            r.attributes == attributes,
            r.methods == methods,
            r.interface == interface,
            r.keyword@ == (if interface { "interface"@ } else { "class"@ }),
            r.x == 0 && r.y == 0 && r.height == 0 && r.width == 0,
    {
        let keyword = if interface { String::from_str("interface") } else { String::from_str("class") };
        proof {
            reveal_strlit("interface");
            reveal_strlit("class");
        }
        Class { keyword, interface, name, attributes, methods, x: 0, y: 0, height: 0, width: 0 }
    }

    pub fn get_keyword(&self) -> (r: &String)
        ensures
            *r == self.keyword,
    {
        &self.keyword
    }

    pub fn get_name(&self) -> (r: &String)
        ensures
            *r == self.name,
    {
        &self.name
    }

    pub fn get_attributes(&self) -> (r: &Vec<Component>)
        ensures
            *r == self.attributes,
    {
        &self.attributes
    }

    pub fn get_methods(&self) -> (r: &Vec<Component>)
        ensures
            *r == self.methods,
    {
        &self.methods
    }

    pub fn get_x(&self) -> (r: &usize)
        ensures
            *r == self.x,
    {
        &self.x
    }

    pub fn get_y(&self) -> (r: &usize)
        ensures
            *r == self.y,
    {
        &self.y
    }

    pub fn get_height(&self) -> (r: &usize)
        ensures
            *r == self.height,
    {
        &self.height
    }

    pub fn get_width(&self) -> (r: &usize)
        ensures
            *r == self.width,
    {
        &self.width
    }

    /// Draws the class box with its top left corner at `(x, y)` and records its position,
    /// height and width.
    pub fn draw(&mut self, doc: &mut Vec<Primitive>, x: usize, y: usize)
        requires
            old(self).wf(),
            x <= MAX_CLASS_COORD,
            y <= MAX_CLASS_COORD,
        ensures
            *final(self) == (Class {
                x,
                y,
                height: box_height(*old(self)) as usize,
                width: box_width(*old(self), member_count(*old(self))) as usize,
                ..*old(self)
            }),
            exists|texts: Seq<String>| {
                &&& texts.len() == member_count(*old(self))
                &&& forall|k: int| 0 <= k < texts.len() ==> (#[trigger] texts[k])@ == member_text(member_at(*old(self), k).0, member_at(*old(self), k).1)
                &&& final(doc)@ == old(doc)@ + class_prims(*old(self), x as int, y as int, texts)
            },
    {
        let ghost cls = *self;
        let additional: usize = if self.interface { 50 } else { 0 };
        let na = self.attributes.len();
        let nm = self.methods.len();
        let mut texts: Vec<String> = Vec::new();
        let mut width: usize = 0;
        let mut k: usize = 0;
        while k < na + nm
            invariant
                cls == *self,
                self.wf(),
                na == self.attributes@.len(),
                nm == self.methods@.len(),
                0 <= k <= na + nm,
                texts@.len() == k,
                width == box_width(cls, k as int),
                width <= 15 * (2 * MAX_TEXT + 7),
                forall|j: int| 0 <= j < k ==> (#[trigger] texts@[j])@ == member_text(member_at(cls, j).0, member_at(cls, j).1),
            decreases na + nm - k,
        {
            let (text, w) = if k < na {
                self.attributes[k].line(false)
            } else {
                self.methods[k - na].line(true)
            };
            if w > width {
                width = w;
            }
            texts.push(text);
            k += 1;
        }
        let height = (k + 1) * 50 + additional;
        let (xi, yi, wi, ai) = (x as i64, y as i64, width as i64, additional as i64);
        let ghost d0 = doc@;
        doc.push(Primitive::Rect { x: xi, y: yi, width: wi, height: height as i64, kind: RectKind::ClassBox });
        if self.interface {
            doc.push(Primitive::Text { x: crate::primitive::halves_of(xi + 200), y: yi + 37, content: self.keyword.clone(), kind: TextKind::ClassKeyword, rotation: None });
        }
        doc.push(Primitive::Text { x: crate::primitive::halves_of(xi + 200), y: yi + 37 + ai, content: self.name.clone(), kind: TextKind::ClassTitle, rotation: None });
        doc.push(Primitive::Line { x1: crate::primitive::halves_of(xi), y1: yi + 50 + ai, x2: xi + wi, y2: yi + 50 + ai, kind: LineKind::Rule });
        let rule_y = yi + ((nm + 1) * 50) as i64 + ai;
        doc.push(Primitive::Line { x1: crate::primitive::halves_of(xi), y1: rule_y, x2: xi + wi, y2: rule_y, kind: LineKind::Rule });
        let ghost d1 = doc@;
        let ghost all_texts = texts@;
        let mut j: usize = 0;
        while j < texts.len()
            invariant
                texts@ == all_texts,
                all_texts.len() == na + nm <= MAX_MEMBERS,
                xi == x && yi == y && ai == title_offset(cls),
                x <= MAX_CLASS_COORD,
                y <= MAX_CLASS_COORD,
                0 <= j <= texts@.len(),
                doc@ == d1 + Seq::new(j as nat, |t: int| Primitive::Text {
                    x: whole(x + 15),
                    y: (y + title_offset(cls) + 87 + t * 50) as i64,
                    content: all_texts[t],
                    kind: TextKind::ClassMember,
                    rotation: None,
                }),
            decreases texts@.len() - j,
        {
            let ghost before = doc@;
            doc.push(Primitive::Text {
                x: crate::primitive::halves_of(xi + 15),
                y: yi + ai + 87 + (j as i64) * 50,
                content: texts[j].clone(),
                kind: TextKind::ClassMember,
                rotation: None,
            });
            j += 1;
            assert(doc@ =~= d1 + Seq::new(j as nat, |t: int| Primitive::Text {
                x: whole(x + 15),
                y: (y + title_offset(cls) + 87 + t * 50) as i64,
                content: all_texts[t],
                kind: TextKind::ClassMember,
                rotation: None,
            }));
        }
        assert(doc@ =~= d0 + class_prims(cls, x as int, y as int, all_texts));
        self.x = x;
        self.y = y;
        self.height = height;
        self.width = width;
    }
}

} // verus!
