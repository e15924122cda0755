use vstd::prelude::*;

use crate::activity::{layout_activity_diagram, path_prims, Activity};
use crate::actor::Actor;
use crate::class::Class;
use crate::class_layout::{layout_class_diagram, CLASS_SIZE, MAX_LINKS};
use crate::error::DiagramError;
use crate::link::Link;
use crate::primitive::{Document, Primitive};
use crate::registry::{add_outcome, AliasRegistry, UmlParser};
use crate::use_case::Context;
use crate::use_case_layout::{
    contexts_ok, diagram_height, diagram_width, layout_use_case_diagram, links_resolved, uc_aliases, unresolved_at,
    MAX_ENTITIES,
};

verus! {

/// The entities of one diagram, of one of the three kinds.
pub enum Diagram {
    Class { classes: Vec<Class>, links: Vec<Link> },
    UseCase { contexts: Vec<Context>, actors: Vec<Actor>, links: Vec<Link> },
    Activity(Activity),
}

/// The labels of the contexts, then the aliases of the actors.
pub open spec fn declared_names(contexts: Seq<Context>, actors: Seq<Actor>) -> Seq<Seq<char>> {
    Seq::new(contexts.len(), |i: int| contexts[i].label@) + Seq::new(actors.len(), |i: int| actors[i].alias@)
}

/// `id` is declared in a use-case diagram: a context label, an actor alias or a use-case alias.
pub open spec fn is_declared(contexts: Seq<Context>, actors: Seq<Actor>, id: String) -> bool {
    ||| exists|i: int| 0 <= i < contexts.len() && (#[trigger] contexts[i]).label == id
    ||| exists|k: int| 0 <= k < actors.len() && (#[trigger] actors[k]).alias == id
    ||| exists|i: int, j: int| 0 <= i < contexts.len() && 0 <= j < contexts[i].use_cases@.len()
        && (#[trigger] contexts[i].use_cases@[j]).alias == id
}

/// The entities are within the limits the layouts work in.
pub open spec fn diagram_ok(d: Diagram) -> bool {
    match d {
        Diagram::Class { classes, links } => classes@.len() <= crate::class::MAX_CLASSES
            && (forall|k: int| 0 <= k < classes@.len() ==> (#[trigger] classes@[k]).wf()) && links@.len() <= MAX_LINKS,
        Diagram::UseCase { contexts, actors, links } => contexts_ok(contexts@) && actors@.len() <= MAX_ENTITIES
            && links@.len() <= MAX_LINKS,
        Diagram::Activity(a) => a.wf(),
    }
}

/// Registers `names` in order; fails with `DuplicateIdentifier` on the first one
/// registered before.
fn register_all(names: &Vec<String>, aliases: &mut AliasRegistry) -> (r: Result<(), DiagramError>)
    requires
        old(aliases).wf(),
    ensures
        final(aliases).wf(),
        r is Ok <==> (old(aliases)@ + names@.map_values(|s: String| s@)).no_duplicates(),
        r is Ok ==> final(aliases)@ == old(aliases)@ + names@.map_values(|s: String| s@),
        r is Err ==> exists|k: int| 0 <= k < names@.len()
            && r == Err::<(), DiagramError>(DiagramError::DuplicateIdentifier(#[trigger] names@[k])),
{
    let ghost reg0 = aliases@;
    let ghost all = names@.map_values(|s: String| s@);
    let mut k: usize = 0;
    while k < names.len()
        invariant
            aliases.wf(),
            reg0 == old(aliases)@,
            all == names@.map_values(|s: String| s@),
            0 <= k <= names@.len(),
            aliases@ == reg0 + all.subrange(0, k as int),
        decreases names@.len() - k,
    {
        let ghost before = aliases@;
        let res = UmlParser::add_alias(aliases, names[k].clone());
        if let Err(e) = res {
            proof {
                assert(add_outcome(before, all[k as int]) is None);
                let full = reg0 + all;
                let idx = choose|t: int| 0 <= t < before.len() && before[t] == all[k as int];
                assert(full[idx] == before[idx]);
                assert(full[before.len() as int] == all[k as int]);
                assert(!full.no_duplicates());
            }
            return Err(e);
        }
        proof {
            assert(reg0 + all.subrange(0, k + 1) =~= before.push(all[k as int]));
        }
        k += 1;
    }
    proof {
        assert(all.subrange(0, names@.len() as int) =~= all);
    }
    Ok(())
}

/// Lays out a diagram of any kind, each with an alias registry of its own. A class diagram
/// registers its class names; a use-case diagram registers its context labels, then its
/// actors' aliases, then its use cases' aliases, and checks every link endpoint before
/// drawing; an activity diagram names nothing, so registers nothing, and its canvas is
/// sized to the activity.
pub fn layout_diagram(diagram: Diagram) -> (r: Result<Document, DiagramError>)
    requires
        diagram_ok(diagram),
    ensures
        diagram matches Diagram::Class { classes, links } ==> {
            &&& r is Ok <==> Seq::new(classes@.len(), |k: int| classes@[k].name@).no_duplicates()
            &&& r is Err ==> exists|k: int| 0 <= k < classes@.len()
                && r == Err::<Document, DiagramError>(DiagramError::DuplicateIdentifier((#[trigger] classes@[k]).name))
            &&& r is Ok ==> r->Ok_0.width == 5 * CLASS_SIZE && r->Ok_0.height == CLASS_SIZE * ((classes@.len() + 2) / 2)
        },
        diagram matches Diagram::UseCase { contexts, actors, links } ==> {
            let names = declared_names(contexts@, actors@) + uc_aliases(contexts@, contexts@.len() as int);
            &&& r is Ok <==> names.no_duplicates() && links_resolved(links@, names)
            &&& !names.no_duplicates() ==> exists|id: String| is_declared(contexts@, actors@, id)
                && r == Err::<Document, DiagramError>(DiagramError::DuplicateIdentifier(id))
            &&& names.no_duplicates() && !links_resolved(links@, names) ==> exists|l: int| 0 <= l < links@.len()
                && unresolved_at(links@, l, names, r->Err_0)
            &&& r is Ok ==> r->Ok_0.width == diagram_width(links@, contexts@, contexts@.len() as int) + 10
                && r->Ok_0.height == diagram_height(contexts@.len() as int, actors@.len() as int)
        },
        diagram matches Diagram::Activity(a) ==> {
            &&& r is Ok
            &&& r->Ok_0.width == a.path.spec_max_left() * 250 + a.path.spec_max_right() * 400 + 200
            &&& r->Ok_0.height == a.path.spec_height() + 50
            &&& r->Ok_0.primitives@ == seq![Primitive::Background]
                + path_prims(a.path, (a.path.spec_max_left() * 250 + 100) as int, 25, 0, 0)
        },
{
    let mut aliases = AliasRegistry::new();
    match diagram {
        Diagram::Class { mut classes, links } => {
            let r = layout_class_diagram(&mut classes, &links, &mut aliases);
            proof {
                assert(Seq::<Seq<char>>::empty() + Seq::new(classes@.len(), |k: int| classes@[k].name@)
                    =~= Seq::new(classes@.len(), |k: int| classes@[k].name@));
            }
            r
        },
        Diagram::UseCase { mut contexts, mut actors, links } => {
            let mut names: Vec<String> = Vec::new();
            let mut i: usize = 0;
            while i < contexts.len()
                invariant
                    0 <= i <= contexts@.len(),
                    names@.len() == i,
                    forall|j: int| 0 <= j < i ==> #[trigger] names@[j] == contexts@[j].label,
                decreases contexts@.len() - i,
            {
                names.push(contexts[i].label.clone());
                i += 1;
            }
            let mut k: usize = 0;
            while k < actors.len()
                invariant
                    0 <= k <= actors@.len(),
                    names@.len() == contexts@.len() + k,
                    forall|j: int| 0 <= j < contexts@.len() ==> #[trigger] names@[j] == contexts@[j].label,
                    forall|j: int| 0 <= j < k ==> #[trigger] names@[contexts@.len() + j] == actors@[j].alias,
                decreases actors@.len() - k,
            {
                names.push(actors[k].alias.clone());
                k += 1;
            }
            proof {
                let m = names@.map_values(|s: String| s@);
                assert forall|j: int| 0 <= j < m.len() implies m[j] == declared_names(contexts@, actors@)[j] by {
                    if j >= contexts@.len() {
                        assert(names@[contexts@.len() + (j - contexts@.len())] == names@[j]);
                    }
                }
                assert(m =~= declared_names(contexts@, actors@));
                assert(Seq::<Seq<char>>::empty() + m =~= declared_names(contexts@, actors@));
            }
            let reg = register_all(&names, &mut aliases);
            if let Err(e) = reg {
                proof {
                    let kk = choose|kk: int| 0 <= kk < names@.len()
                        && reg == Err::<(), DiagramError>(DiagramError::DuplicateIdentifier(#[trigger] names@[kk]));
                    if kk < contexts@.len() {
                        assert(contexts@[kk].label == names@[kk]);
                    } else {
                        let a = kk - contexts@.len();
                        assert(names@[contexts@.len() + a] == actors@[a].alias);
                    }
                    assert(is_declared(contexts@, actors@, names@[kk]));
                    let all = declared_names(contexts@, actors@) + uc_aliases(contexts@, contexts@.len() as int);
                    let pre = declared_names(contexts@, actors@);
                    if all.no_duplicates() {
                        assert forall|a: int, b: int| 0 <= a < b < pre.len() implies pre[a] != pre[b] by {
                            assert(all[a] == pre[a] && all[b] == pre[b]);
                        }
                    }
                }
                return Err(e);
            }
            let ghost ctxs0 = contexts@;
            let ghost acts0 = actors@;
            let r = layout_use_case_diagram(&mut contexts, &mut actors, &links, &mut aliases);
            proof {
                assert(Seq::<Seq<char>>::empty() + declared_names(ctxs0, acts0) =~= declared_names(ctxs0, acts0));
                let all = declared_names(ctxs0, acts0) + uc_aliases(ctxs0, ctxs0.len() as int);
                if !all.no_duplicates() {
                    let (i, j) = choose|i: int, j: int| 0 <= i < ctxs0.len() && 0 <= j < ctxs0[i].use_cases@.len()
                        && r == Err::<Document, DiagramError>(DiagramError::DuplicateIdentifier((#[trigger] ctxs0[i].use_cases@[j]).alias));
                    assert(is_declared(ctxs0, acts0, ctxs0[i].use_cases@[j].alias));
                }
            }
            r
        },
        Diagram::Activity(a) => Ok(layout_activity_diagram(&a)),
    }
}

} // verus!
