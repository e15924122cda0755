use vstd::prelude::*;

use crate::actor::{actor_prims, Actor};
use crate::class_layout::MAX_LINKS;
use crate::columns::{column_of, context_columns, lemma_column_of_bounds, widest_column};
use crate::error::DiagramError;
use crate::link::{caption_of, link_prims, Link};
use crate::primitive::{Document, Primitive};
use crate::registry::{add_outcome, AliasRegistry, UmlParser};
use crate::use_case::{
    column_x, ellipse_width, frame_prims, labels_fit, placed_within, row_y, trunc_div, trunc_div_exec, use_cases_prims, Context,
    UseCase, MAX_POSITION, MAX_USE_CASES,
};

verus! {

/// The width and height of the smallest use-case canvas.
pub const INITIAL_SIZE: i64 = 500;

/// The radius of an actor's head.
pub const ACTOR_SIZE: i32 = 20;

/// The height of a context frame.
pub const CONTEXT_HEIGHT: i32 = 350;

/// The most contexts, and the most actors, a diagram may hold.
pub const MAX_ENTITIES: usize = 10_000;

/// The aliases of the use cases of the first `i` contexts, in order.
pub open spec fn uc_aliases(ctxs: Seq<Context>, i: int) -> Seq<Seq<char>>
    decreases i,
{
    if i <= 0 {
        Seq::empty()
    } else {
        uc_aliases(ctxs, i - 1) + Seq::new(ctxs[i - 1].use_cases@.len(), |j: int| ctxs[i - 1].use_cases@[j].alias@)
    }
}

/// Which links are used after assigning columns in the first `i` contexts.
pub open spec fn used_after(links: Seq<Link>, ctxs: Seq<Context>, i: int) -> Seq<bool>
    decreases i,
{
    if i <= 0 {
        Seq::new(links.len(), |k: int| false)
    } else {
        context_columns(links, used_after(links, ctxs, i - 1), ctxs[i - 1].use_cases@, ctxs[i - 1].use_cases@.len() as int).0
    }
}

/// The column assignment of context `i`: its width in columns and the proposals made in it.
pub open spec fn ctx_result(links: Seq<Link>, ctxs: Seq<Context>, i: int) -> (Seq<bool>, int, crate::columns::Proposals) {
    context_columns(links, used_after(links, ctxs, i), ctxs[i].use_cases@, ctxs[i].use_cases@.len() as int)
}

/// The use cases of context `i` in their assigned columns.
pub open spec fn assigned_ucs(links: Seq<Link>, ctxs: Seq<Context>, i: int) -> Seq<UseCase> {
    let ucs = ctxs[i].use_cases@;
    Seq::new(ucs.len(), |j: int| UseCase {
        width_number: column_of(ucs[j].width_number as int, ucs[j].alias@, ctx_result(links, ctxs, i).2) as i32,
        ..ucs[j]
    })
}

/// The width in columns of context `i`: its largest assigned column, at least 1.
pub open spec fn ctx_width(links: Seq<Link>, ctxs: Seq<Context>, i: int) -> int {
    widest_column(assigned_ucs(links, ctxs, i), ctxs[i].use_cases@.len() as int)
}

/// The canvas width the first `i` contexts ask for: 500, widened by 350 for each column
/// of the widest context past the first.
pub open spec fn diagram_width(links: Seq<Link>, ctxs: Seq<Context>, i: int) -> int
    decreases i,
{
    if i <= 0 {
        INITIAL_SIZE as int
    } else {
        let w = diagram_width(links, ctxs, i - 1);
        let c = INITIAL_SIZE + 350 * (ctx_width(links, ctxs, i - 1) - 1);
        if c > w { c } else { w }
    }
}

/// The top of the first actor's head: the actors are centred on the initial canvas.
pub open spec fn first_actor_y(actors: int) -> int {
    trunc_div(500 - 160 * actors, 2) + 20
}

/// The top of the first context frame: a little above the first actor, at most 100.
pub open spec fn first_context_y(actors: int) -> int {
    let a = first_actor_y(actors) - 20;
    if a <= 100 { a } else { 100 }
}

/// The canvas height: room for each context, for each actor, and at least 500.
pub open spec fn diagram_height(contexts: int, actors: int) -> int {
    let c = 450 * contexts;
    let a = 160 * actors;
    let m = if a >= 500 { a } else { 500 };
    if c >= m { c } else { m }
}

/// The use cases of the first `i` contexts, in order.
pub open spec fn flat_ucs(ctxs: Seq<Context>, i: int) -> Seq<UseCase>
    decreases i,
{
    if i <= 0 {
        Seq::empty()
    } else {
        flat_ucs(ctxs, i - 1) + ctxs[i - 1].use_cases@
    }
}

/// The last of the first `k` use cases whose alias is `name`.
pub open spec fn last_use_case(ucs: Seq<UseCase>, name: Seq<char>, k: int) -> Option<UseCase>
    decreases k,
{
    if k <= 0 {
        None
    } else if ucs[k - 1].alias@ == name {
        Some(ucs[k - 1])
    } else {
        last_use_case(ucs, name, k - 1)
    }
}

/// The last of the first `k` actors whose alias is `name`.
pub open spec fn last_actor(actors: Seq<Actor>, name: Seq<char>, k: int) -> Option<Actor>
    decreases k,
{
    if k <= 0 {
        None
    } else if actors[k - 1].alias@ == name {
        Some(actors[k - 1])
    } else {
        last_actor(actors, name, k - 1)
    }
}

/// Where a link leaves the entity `name`: the right edge of its use case, or else a point
/// below and right of its actor's head.
pub open spec fn left_anchor(ucs: Seq<UseCase>, actors: Seq<Actor>, name: Seq<char>) -> Option<(int, int)> {
    match last_use_case(ucs, name, ucs.len() as int) {
        Some(u) => Some((u.x + u.width / 2, u.y as int)),
        None => match last_actor(actors, name, actors.len() as int) {
            Some(a) => Some((a.x + 20, a.y + 40)),
            None => None,
        },
    }
}

/// Where a link enters use case `name`: the left edge of its ellipse.
pub open spec fn right_anchor(ucs: Seq<UseCase>, name: Seq<char>) -> Option<(int, int)> {
    match last_use_case(ucs, name, ucs.len() as int) {
        Some(u) => Some((u.x - u.width / 2, u.y as int)),
        None => None,
    }
}

/// The primitives of the first `l` links between the anchors found among `ucs` and
/// `actors`, with captions `captions`; a link without both anchors is not drawn.
pub open spec fn use_case_links_prims(ucs: Seq<UseCase>, actors: Seq<Actor>, links: Seq<Link>, l: int, captions: Seq<String>) -> Seq<Primitive>
    decreases l,
{
    if l <= 0 {
        Seq::empty()
    } else {
        let link = links[l - 1];
        let rest = use_case_links_prims(ucs, actors, links, l - 1, captions);
        match (left_anchor(ucs, actors, link.left_id@), right_anchor(ucs, link.right_id@)) {
            (Some(a), Some(b)) => rest + link_prims(link, link.link_type, a.0, a.1, b.0, b.1, captions[l - 1]),
            _ => rest,
        }
    }
}

/// The primitives of the first `i` contexts, drawn one below the other from `y0`, each with
/// its use cases in their assigned columns.
pub open spec fn contexts_prims(links: Seq<Link>, ctxs: Seq<Context>, i: int, y0: int) -> Seq<Primitive>
    decreases i,
{
    if i <= 0 {
        Seq::empty()
    } else {
        let k = i - 1;
        let w = ctx_width(links, ctxs, k);
        let y = y0 + 400 * k;
        let ucs = assigned_ucs(links, ctxs, k);
        contexts_prims(links, ctxs, k, y0) + frame_prims(ctxs[k].label, 150int, y, 350 * w, CONTEXT_HEIGHT as int)
            + use_cases_prims(ucs, ucs.len() as int, 150int, y, CONTEXT_HEIGHT as int, w)
    }
}

/// The primitives of the first `k` actors, stacked 160 apart from `y0`.
pub open spec fn actors_prims(actors: Seq<Actor>, k: int, y0: int) -> Seq<Primitive>
    decreases k,
{
    if k <= 0 {
        Seq::empty()
    } else {
        actors_prims(actors, k - 1, y0) + actor_prims(actors[k - 1].label, 75, y0 + 160 * (k - 1), ACTOR_SIZE as int)
    }
}

/// Each endpoint of each link is among `reg`.
pub open spec fn links_resolved(links: Seq<Link>, reg: Seq<Seq<char>>) -> bool {
    forall|l: int| 0 <= l < links.len() ==> reg.contains((#[trigger] links[l]).left_id@) && reg.contains(links[l].right_id@)
}

/// `e` reports an endpoint of link `l` that is not among `reg`.
pub open spec fn unresolved_at(links: Seq<Link>, l: int, reg: Seq<Seq<char>>, e: DiagramError) -> bool {
    ||| e == DiagramError::UnknownReference(links[l].left_id) && !reg.contains(links[l].left_id@)
    ||| e == DiagramError::UnknownReference(links[l].right_id) && !reg.contains(links[l].right_id@)
}

/// Fails with `UnknownReference` for the first link endpoint that was never registered.
pub fn check_links(links: &Vec<Link>, aliases: &AliasRegistry) -> (r: Result<(), DiagramError>)
    ensures
        r is Ok <==> links_resolved(links@, aliases@),
        r is Err ==> exists|l: int| 0 <= l < links@.len() && unresolved_at(links@, l, aliases@, r->Err_0),
{
    let mut l: usize = 0;
    while l < links.len()
        invariant
            0 <= l <= links@.len(),
            forall|k: int| 0 <= k < l ==> aliases@.contains((#[trigger] links@[k]).left_id@) && aliases@.contains(links@[k].right_id@),
        decreases links@.len() - l,
    {
        let a = UmlParser::check_alias(aliases, links[l].left_id.clone());
        if let Err(e) = a {
            assert(unresolved_at(links@, l as int, aliases@, e));
            return Err(e);
        }
        let b = UmlParser::check_alias(aliases, links[l].right_id.clone());
        if let Err(e) = b {
            assert(unresolved_at(links@, l as int, aliases@, e));
            return Err(e);
        }
        l += 1;
    }
    Ok(())
}

/// Registers the aliases of all use cases, context by context; fails with
/// `DuplicateIdentifier` on the first one registered before.
pub fn register_use_cases(contexts: &Vec<Context>, aliases: &mut AliasRegistry) -> (r: Result<(), DiagramError>)
    requires
        old(aliases).wf(),
    ensures
        final(aliases).wf(),
        r is Ok <==> (old(aliases)@ + uc_aliases(contexts@, contexts@.len() as int)).no_duplicates(),
        r is Ok ==> final(aliases)@ == old(aliases)@ + uc_aliases(contexts@, contexts@.len() as int),
        r is Err ==> exists|i: int, j: int| 0 <= i < contexts@.len() && 0 <= j < contexts@[i].use_cases@.len()
            && r == Err::<(), DiagramError>(DiagramError::DuplicateIdentifier((#[trigger] contexts@[i].use_cases@[j]).alias)),
{
    let ghost reg0 = aliases@;
    let ghost ctxs = contexts@;
    let n = contexts.len();
    let mut i: usize = 0;
    while i < n
        invariant
            n == ctxs.len(),
            contexts@ == ctxs,
            reg0 == old(aliases)@,
            aliases.wf(),
            0 <= i <= n,
            aliases@ == reg0 + uc_aliases(ctxs, i as int),
        decreases n - i,
    {
        let m = contexts[i].use_cases.len();
        let ghost ucs = ctxs[i as int].use_cases@;
        let ghost block = Seq::new(ucs.len(), |j: int| ucs[j].alias@);
        let mut j: usize = 0;
        while j < m
            invariant
                n == ctxs.len(),
                contexts@ == ctxs,
                0 <= i < n,
                m == ucs.len(),
                ucs == ctxs[i as int].use_cases@,
                block == Seq::new(ucs.len(), |k: int| ucs[k].alias@),
                reg0 == old(aliases)@,
                aliases.wf(),
                0 <= j <= m,
                aliases@ == reg0 + uc_aliases(ctxs, i as int) + block.subrange(0, j as int),
            decreases m - j,
        {
            let ghost before = aliases@;
            let res = UmlParser::add_alias(aliases, contexts[i].use_cases[j].alias.clone());
            if let Err(e) = res {
                proof {
                    assert(block[j as int] == ucs[j as int].alias@);
                    assert(add_outcome(before, block[j as int]) is None);
                    lemma_uc_aliases_prefix(ctxs, i as int + 1, n as int);
                    let full = reg0 + uc_aliases(ctxs, n as int);
                    let pre = reg0 + uc_aliases(ctxs, i + 1);
                    assert(uc_aliases(ctxs, i + 1) == uc_aliases(ctxs, i as int) + block);
                    assert(before =~= pre.subrange(0, before.len() as int));
                    let idx = choose|t: int| 0 <= t < before.len() && before[t] == block[j as int];
                    assert(pre[idx] == block[j as int]);
                    assert(pre[before.len() as int] == block[j as int]);
                    assert(full[idx] == pre[idx]);
                    assert(full[before.len() as int] == pre[before.len() as int]);
                    assert(!full.no_duplicates());
                }
                return Err(e);
            }
            proof {
                assert(reg0 + uc_aliases(ctxs, i as int) + block.subrange(0, j + 1) =~= before.push(block[j as int]));
            }
            j += 1;
        }
        proof {
            assert(block.subrange(0, m as int) =~= block);
            assert(uc_aliases(ctxs, i + 1) == uc_aliases(ctxs, i as int) + block);
            assert(reg0 + uc_aliases(ctxs, i as int) + block =~= reg0 + uc_aliases(ctxs, i + 1));
        }
        i += 1;
    }
    Ok(())
}

proof fn lemma_uc_aliases_prefix(ctxs: Seq<Context>, i: int, n: int)
    requires
        0 <= i <= n,
    ensures
        uc_aliases(ctxs, n).subrange(0, uc_aliases(ctxs, i).len() as int) == uc_aliases(ctxs, i),
        uc_aliases(ctxs, i).len() <= uc_aliases(ctxs, n).len(),
    decreases n - i,
{
    if i < n {
        lemma_uc_aliases_prefix(ctxs, i, n - 1);
        let a = uc_aliases(ctxs, n - 1);
        let b = uc_aliases(ctxs, n);
        assert(b.subrange(0, a.len() as int) =~= a);
        assert(b.subrange(0, uc_aliases(ctxs, i).len() as int) =~= a.subrange(0, uc_aliases(ctxs, i).len() as int));
    } else {
        assert(uc_aliases(ctxs, n).subrange(0, uc_aliases(ctxs, n).len() as int) =~= uc_aliases(ctxs, n));
    }
}


proof fn lemma_last_use_case_prefix(a: Seq<UseCase>, b: Seq<UseCase>, name: Seq<char>, k: int)
    requires
        0 <= k <= a.len(),
        k <= b.len(),
        forall|j: int| 0 <= j < k ==> a[j] == b[j],
    ensures
        last_use_case(a, name, k) == last_use_case(b, name, k),
    decreases k,
{
    if k > 0 {
        lemma_last_use_case_prefix(a, b, name, k - 1);
    }
}

proof fn lemma_links_prims_prefix(ucs: Seq<UseCase>, actors: Seq<Actor>, links: Seq<Link>, l: int, a: Seq<String>, b: Seq<String>)
    requires
        0 <= l,
        forall|j: int| 0 <= j < l ==> a[j] == b[j],
    ensures
        use_case_links_prims(ucs, actors, links, l, a) == use_case_links_prims(ucs, actors, links, l, b),
    decreases l,
{
    if l > 0 {
        lemma_links_prims_prefix(ucs, actors, links, l - 1, a, b);
    }
}

/// Each context is within bounds: not too many use cases, labels that fit, and use cases
/// that stand in a column no further than there can be links.
pub open spec fn contexts_ok(ctxs: Seq<Context>) -> bool {
    &&& ctxs.len() <= MAX_ENTITIES
    &&& forall|i: int| 0 <= i < ctxs.len() ==> (#[trigger] ctxs[i]).use_cases@.len() <= MAX_USE_CASES
        && labels_fit(ctxs[i].use_cases@)
        && forall|j: int| 0 <= j < ctxs[i].use_cases@.len() ==> 1 <= (#[trigger] ctxs[i].use_cases@[j]).width_number <= MAX_LINKS + 1
}

/// Context `i` after layout: its use cases in their columns, drawn in its frame at `y`.
pub open spec fn laid_out(links: Seq<Link>, ctxs: Seq<Context>, i: int, y: int, after: Context) -> bool {
    let w = ctx_width(links, ctxs, i);
    let ucs = assigned_ucs(links, ctxs, i);
    &&& after.label == ctxs[i].label
    &&& after.width_number == w
    &&& after.use_cases@.len() == ucs.len()
    &&& forall|j: int| 0 <= j < ucs.len() ==> #[trigger] after.use_cases@[j] == (UseCase {
        x: column_x(150, ucs[j].width_number as int) as i64,
        y: row_y(ucs, j, y, CONTEXT_HEIGHT as int, w) as i64,
        width: ellipse_width(ucs[j].label, 100) as i64,
        ..ucs[j]
    })
}

/// Lays out a use-case diagram whose contexts and actors have been registered: registers
/// the use cases, assigns their columns, checks every link endpoint, then draws the
/// contexts one below the other, the actors in a column at the left, and the links.
pub fn layout_use_case_diagram(
    contexts: &mut Vec<Context>,
    actors: &mut Vec<Actor>,
    links: &Vec<Link>,
    aliases: &mut AliasRegistry,
) -> (r: Result<Document, DiagramError>)
    requires
        old(aliases).wf(),
        contexts_ok(old(contexts)@),
        old(actors)@.len() <= MAX_ENTITIES,
        links@.len() <= MAX_LINKS,
    ensures
        final(aliases).wf(),
        r is Ok <==> (old(aliases)@ + uc_aliases(old(contexts)@, old(contexts)@.len() as int)).no_duplicates()
            && links_resolved(links@, old(aliases)@ + uc_aliases(old(contexts)@, old(contexts)@.len() as int)),
        !(old(aliases)@ + uc_aliases(old(contexts)@, old(contexts)@.len() as int)).no_duplicates() ==> exists|i: int, j: int|
            0 <= i < old(contexts)@.len() && 0 <= j < old(contexts)@[i].use_cases@.len()
            && r == Err::<Document, DiagramError>(DiagramError::DuplicateIdentifier((#[trigger] old(contexts)@[i].use_cases@[j]).alias)),
        r is Err && (old(aliases)@ + uc_aliases(old(contexts)@, old(contexts)@.len() as int)).no_duplicates() ==> exists|l: int|
            0 <= l < links@.len() && unresolved_at(links@, l, old(aliases)@ + uc_aliases(old(contexts)@, old(contexts)@.len() as int), r->Err_0),
        r is Ok ==> {
            let ctxs = old(contexts)@;
            let n = ctxs.len() as int;
            let na = old(actors)@.len() as int;
            let d = r->Ok_0;
            &&& final(contexts)@.len() == n
            &&& forall|i: int| 0 <= i < n ==> laid_out(links@, ctxs, i, first_context_y(na) + 400 * i,
                #[trigger] final(contexts)@[i])
            &&& final(actors)@.len() == na
            &&& forall|k: int| 0 <= k < na ==> #[trigger] final(actors)@[k] == (Actor {
                x: 75,
                y: (first_actor_y(na) + 160 * k) as i32,
                ..old(actors)@[k]
            })
            &&& d.width == diagram_width(links@, ctxs, n) + 10
            &&& d.height == diagram_height(n, na)
            &&& exists|captions: Seq<String>| {
                &&& captions.len() == links@.len()
                &&& forall|l: int| 0 <= l < links@.len() ==> (#[trigger] captions[l])@ == caption_of(links@[l].label@, links@[l].arrow)
                &&& d.primitives@ == contexts_prims(links@, ctxs, n, first_context_y(na))
                    + actors_prims(old(actors)@, na, first_actor_y(na))
                    + use_case_links_prims(flat_ucs(final(contexts)@, n), final(actors)@, links@, links@.len() as int, captions)
            }
        },
{
    let ghost ctxs = contexts@;
    let ghost acts = actors@;
    let ghost reg0 = aliases@;
    let n = contexts.len();
    let na = actors.len();
    let total = links.len();
    let reg = register_use_cases(contexts, aliases);
    if let Err(e) = reg {
        return Err(e);
    }
    let mut used: Vec<bool> = Vec::new();
    while used.len() < total
        invariant
            used@.len() <= total,
            forall|k: int| 0 <= k < used@.len() ==> !used@[k],
        decreases total - used@.len(),
    {
        used.push(false);
    }
    proof {
        assert(used@ =~= used_after(links@, ctxs, 0));
        assert forall|k: int| 0 <= k < n implies 1 <= #[trigger] ctx_width(links@, ctxs, k) <= MAX_LINKS + 1 by {
            lemma_ctx_width_bounds(links@, ctxs, k);
        }
    }
    let mut width: i64 = INITIAL_SIZE;
    let mut i: usize = 0;
    while i < n
        invariant
            n == ctxs.len(),
            contexts_ok(ctxs),
            contexts@.len() == n,
            total == links@.len() <= MAX_LINKS,
            0 <= i <= n,
            used@ == used_after(links@, ctxs, i as int),
            width == diagram_width(links@, ctxs, i as int),
            INITIAL_SIZE <= width <= INITIAL_SIZE + 350 * MAX_LINKS,
            forall|k: int| i <= k < n ==> #[trigger] contexts@[k] == ctxs[k],
            forall|k: int| 0 <= k < i ==> {
                &&& (#[trigger] contexts@[k]).label == ctxs[k].label
                &&& contexts@[k].width_number == ctx_width(links@, ctxs, k)
                &&& contexts@[k].use_cases@ == assigned_ucs(links@, ctxs, k)
            },
        decreases n - i,
    {
        proof {
            lemma_used_after_len(links@, ctxs, i as int);
        }
        let w = contexts[i].assign_columns(links, &mut used);
        proof {
            crate::columns::lemma_context_columns_bounds(links@, used_after(links@, ctxs, i as int), ctxs[i as int].use_cases@,
                ctxs[i as int].use_cases@.len() as int);
            assert(contexts@[i as int].use_cases@ =~= assigned_ucs(links@, ctxs, i as int));
            lemma_ctx_width_bounds(links@, ctxs, i as int);
        }
        let c = INITIAL_SIZE + 350 * (w as i64 - 1);
        if c > width {
            width = c;
        }
        i += 1;
    }
    let chk = check_links(links, aliases);
    if let Err(e) = chk {
        proof {
            let l = choose|l: int| 0 <= l < links@.len() && unresolved_at(links@, l, aliases@, chk->Err_0);
            assert(unresolved_at(links@, l, reg0 + uc_aliases(ctxs, ctxs.len() as int), e));
            assert(reg0 == old(aliases)@ && ctxs == old(contexts)@);
            let rr = Err::<Document, DiagramError>(e);
            assert(unresolved_at(links@, l, old(aliases)@ + uc_aliases(old(contexts)@, old(contexts)@.len() as int), rr->Err_0));
        }
        return Err(e);
    }
    proof {
        assert(n <= MAX_ENTITIES);
        assert(forall|k: int| 0 <= k < n ==> 1 <= #[trigger] ctx_width(links@, ctxs, k) <= MAX_LINKS + 1);
        crate::use_case::lemma_trunc_div_bound(500 - 160 * na, 2);
    }
    let all_actors = 8 * ACTOR_SIZE as i64 * na as i64;
    let by_contexts = 450 * n as i64;
    let least = if all_actors >= INITIAL_SIZE { all_actors } else { INITIAL_SIZE };
    let height = if by_contexts >= least { by_contexts } else { least };
    let mut y_actor: i32 = (trunc_div_exec(INITIAL_SIZE - all_actors, 2) + ACTOR_SIZE as i64) as i32;
    let mut y_context: i32 = if y_actor - ACTOR_SIZE <= 100 { y_actor - ACTOR_SIZE } else { 100 };
    let ghost ya0 = y_actor as int;
    let ghost yc0 = y_context as int;
    proof {
        assert(ya0 == first_actor_y(na as int));
        assert(yc0 == first_context_y(na as int));
    }
    let mut primitives: Vec<Primitive> = Vec::new();
    let mut i: usize = 0;
    while i < n
        invariant
            n == ctxs.len(),
            contexts_ok(ctxs),
            contexts@.len() == n,
            total == links@.len() <= MAX_LINKS,
            0 <= i <= n,
            y_context == yc0 + 400 * i,
            -1_000_000 <= yc0 <= 100,
            forall|k: int| i <= k < n ==> {
                &&& (#[trigger] contexts@[k]).label == ctxs[k].label
                &&& contexts@[k].width_number == ctx_width(links@, ctxs, k)
                &&& contexts@[k].use_cases@ == assigned_ucs(links@, ctxs, k)
            },
            forall|k: int| 0 <= k < n ==> 1 <= #[trigger] ctx_width(links@, ctxs, k) <= MAX_LINKS + 1,
            forall|k: int| 0 <= k < i ==> laid_out(links@, ctxs, k, yc0 + 400 * k, #[trigger] contexts@[k]),
            forall|k: int, j: int| 0 <= k < i && 0 <= j < contexts@[k].use_cases@.len() ==> placed_within(#[trigger] contexts@[k].use_cases@[j]),
            primitives@ == contexts_prims(links@, ctxs, i as int, yc0),
        decreases n - i,
    {
        let w = contexts[i].width_number;
        let ghost before = primitives@;
        proof {
            assert(ctxs[i as int].use_cases@.len() <= MAX_USE_CASES && labels_fit(ctxs[i as int].use_cases@));
            assert(labels_fit(assigned_ucs(links@, ctxs, i as int)));
        }
        contexts[i].draw(&mut primitives, 2 * 75, y_context, 350 * w, CONTEXT_HEIGHT);
        y_context = y_context + CONTEXT_HEIGHT + 50;
        i += 1;
    }
    assert(all_placed(contexts@));
    let ghost after_contexts = primitives@;
    let mut k: usize = 0;
    while k < na
        invariant
            na == acts.len() <= MAX_ENTITIES,
            actors@.len() == na,
            0 <= k <= na,
            ya0 == first_actor_y(na as int),
            y_actor == ya0 + 160 * k,
            -1_000_000 <= ya0 <= 1_000,
            forall|j: int| k <= j < na ==> #[trigger] actors@[j] == acts[j],
            forall|j: int| 0 <= j < k ==> #[trigger] actors@[j] == (Actor { x: 75, y: (ya0 + 160 * j) as i32, ..acts[j] }),
            primitives@ == after_contexts + actors_prims(acts, k as int, ya0),
        decreases na - k,
    {
        actors[k].draw(&mut primitives, 75, y_actor, ACTOR_SIZE);
        y_actor = y_actor + 8 * ACTOR_SIZE;
        k += 1;
    }
    let ghost after_actors = primitives@;
    let ghost final_ucs = flat_ucs(contexts@, n as int);
    let ghost mut captions: Seq<String> = Seq::empty();
    let mut l: usize = 0;
    while l < total
        invariant
            total == links@.len(),
            0 <= l <= total,
            n == contexts@.len(),
            all_placed(contexts@),
            final_ucs == flat_ucs(contexts@, n as int),
            captions.len() == l,
            forall|j: int| 0 <= j < l ==> (#[trigger] captions[j])@ == caption_of(links@[j].label@, links@[j].arrow),
            primitives@ == after_actors + use_case_links_prims(final_ucs, actors@, links@, l as int, captions),
        decreases total - l,
    {
        let ghost before = primitives@;
        let caption = links[l].caption();
        let left = resolve_left(contexts, actors, &links[l].left_id);
        let right = resolve_right(contexts, &links[l].right_id);
        if let (Some((x1, y1)), Some((x2, y2))) = (left, right) {
            links[l].draw(&mut primitives, x1, y1, x2, y2);
        }
        proof {
            let link = links@[l as int];
            let cap = if left is Some && right is Some {
                choose|cap: String| cap@ == caption_of(link.label@, link.arrow)
                    && primitives@ == before + link_prims(link, link.link_type, (left->0).0 as int, (left->0).1 as int,
                        (right->0).0 as int, (right->0).1 as int, cap)
            } else {
                caption
            };
            let c2 = captions.push(cap);
            lemma_links_prims_prefix(final_ucs, actors@, links@, l as int, captions, c2);
            captions = c2;
            assert(primitives@ =~= after_actors + use_case_links_prims(final_ucs, actors@, links@, l + 1, captions));
        }
        l += 1;
    }
    Ok(Document { width: width + 10, height, primitives })
}


proof fn lemma_last_use_case_push(s: Seq<UseCase>, u: UseCase, name: Seq<char>)
    ensures
        last_use_case(s.push(u), name, s.len() + 1int) == if u.alias@ == name { Some(u) } else { last_use_case(s, name, s.len() as int) },
{
    lemma_last_use_case_prefix(s, s.push(u), name, s.len() as int);
}

proof fn lemma_flat_ucs_step(ctxs: Seq<Context>, i: int)
    requires
        0 <= i,
    ensures
        flat_ucs(ctxs, i + 1) == flat_ucs(ctxs, i) + ctxs[i].use_cases@,
{
}

/// The centre and width of the last use case named `name`, if any.
fn find_use_case(contexts: &Vec<Context>, name: &String) -> (r: Option<(i64, i64, i64)>)
    ensures
        ({
            let found = last_use_case(flat_ucs(contexts@, contexts@.len() as int), name@,
                flat_ucs(contexts@, contexts@.len() as int).len() as int);
            &&& r is None <==> found is None
            &&& r is Some ==> r->0 == (found->0.x, found->0.y, found->0.width)
        }),
{
    let ghost ctxs = contexts@;
    let mut found: Option<(i64, i64, i64)> = None;
    let mut i: usize = 0;
    while i < contexts.len()
        invariant
            contexts@ == ctxs,
            0 <= i <= ctxs.len(),
            ({
                let f = last_use_case(flat_ucs(ctxs, i as int), name@, flat_ucs(ctxs, i as int).len() as int);
                &&& found is None <==> f is None
                &&& found is Some ==> found->0 == (f->0.x, f->0.y, f->0.width)
            }),
        decreases ctxs.len() - i,
    {
        let ghost base = flat_ucs(ctxs, i as int);
        let ucs = &contexts[i].use_cases;
        let mut j: usize = 0;
        while j < ucs.len()
            invariant
                contexts@ == ctxs,
                0 <= i < ctxs.len(),
                *ucs == ctxs[i as int].use_cases,
                base == flat_ucs(ctxs, i as int),
                0 <= j <= ucs@.len(),
                ({
                    let s = base + ucs@.subrange(0, j as int);
                    let f = last_use_case(s, name@, s.len() as int);
                    &&& found is None <==> f is None
                    &&& found is Some ==> found->0 == (f->0.x, f->0.y, f->0.width)
                }),
            decreases ucs@.len() - j,
        {
            let u = &ucs[j];
            proof {
                let s = base + ucs@.subrange(0, j as int);
                lemma_last_use_case_push(s, ucs@[j as int], name@);
                assert(base + ucs@.subrange(0, j + 1) =~= s.push(ucs@[j as int]));
            }
            if u.alias == *name {
                found = Some((u.x, u.y, u.width));
            }
            j += 1;
        }
        proof {
            assert(ucs@.subrange(0, ucs@.len() as int) =~= ucs@);
            lemma_flat_ucs_step(ctxs, i as int);
        }
        i += 1;
    }
    found
}

/// The centre of the last actor named `name`, if any.
fn find_actor(actors: &Vec<Actor>, name: &String) -> (r: Option<(i32, i32)>)
    ensures
        ({
            let found = last_actor(actors@, name@, actors@.len() as int);
            &&& r is None <==> found is None
            &&& r is Some ==> r->0 == (found->0.x, found->0.y)
        }),
{
    let mut found: Option<(i32, i32)> = None;
    let mut k: usize = 0;
    while k < actors.len()
        invariant
            0 <= k <= actors@.len(),
            ({
                let f = last_actor(actors@, name@, k as int);
                &&& found is None <==> f is None
                &&& found is Some ==> found->0 == (f->0.x, f->0.y)
            }),
        decreases actors@.len() - k,
    {
        if actors[k].alias == *name {
            found = Some((actors[k].x, actors[k].y));
        }
        k += 1;
    }
    found
}

/// Every use case of `ctxs` has been placed within bounds.
pub open spec fn all_placed(ctxs: Seq<Context>) -> bool {
    forall|k: int, j: int| 0 <= k < ctxs.len() && 0 <= j < ctxs[k].use_cases@.len() ==> placed_within(#[trigger] ctxs[k].use_cases@[j])
}

proof fn lemma_flat_placed(ctxs: Seq<Context>, i: int)
    requires
        all_placed(ctxs),
        0 <= i <= ctxs.len(),
    ensures
        forall|j: int| 0 <= j < flat_ucs(ctxs, i).len() ==> placed_within(#[trigger] flat_ucs(ctxs, i)[j]),
    decreases i,
{
    if i > 0 {
        lemma_flat_placed(ctxs, i - 1);
        let a = flat_ucs(ctxs, i - 1);
        let b = ctxs[i - 1].use_cases@;
        assert forall|j: int| 0 <= j < flat_ucs(ctxs, i).len() implies placed_within(#[trigger] flat_ucs(ctxs, i)[j]) by {
            if j >= a.len() {
                assert(flat_ucs(ctxs, i)[j] == b[j - a.len()]);
            } else {
                assert(flat_ucs(ctxs, i)[j] == a[j]);
            }
        }
    }
}

proof fn lemma_last_use_case_in(ucs: Seq<UseCase>, name: Seq<char>, k: int)
    requires
        0 <= k <= ucs.len(),
    ensures
        last_use_case(ucs, name, k) is Some ==> exists|j: int| 0 <= j < k && ucs[j] == last_use_case(ucs, name, k)->0,
    decreases k,
{
    if k > 0 {
        lemma_last_use_case_in(ucs, name, k - 1);
        if ucs[k - 1].alias@ == name {
            assert(ucs[k - 1] == last_use_case(ucs, name, k)->0);
        }
    }
}

/// Where a link leaves the entity `name`; see `left_anchor`.
fn resolve_left(contexts: &Vec<Context>, actors: &Vec<Actor>, name: &String) -> (r: Option<(i64, i64)>)
    requires
        all_placed(contexts@),
    ensures
        ({
            let a = left_anchor(flat_ucs(contexts@, contexts@.len() as int), actors@, name@);
            &&& r is None <==> a is None
            &&& r is Some ==> a->0 == ((r->0).0 as int, (r->0).1 as int)
                && -MAX_POSITION <= (r->0).0 <= MAX_POSITION && -MAX_POSITION <= (r->0).1 <= MAX_POSITION
        }),
{
    proof {
        let f = flat_ucs(contexts@, contexts@.len() as int);
        lemma_flat_placed(contexts@, contexts@.len() as int);
        lemma_last_use_case_in(f, name@, f.len() as int);
    }
    match find_use_case(contexts, name) {
        Some((x, y, w)) => Some((x + w / 2, y)),
        None => match find_actor(actors, name) {
            Some((x, y)) => Some((x as i64 + ACTOR_SIZE as i64, y as i64 + 2 * ACTOR_SIZE as i64)),
            None => None,
        },
    }
}

/// Where a link enters use case `name`; see `right_anchor`.
fn resolve_right(contexts: &Vec<Context>, name: &String) -> (r: Option<(i64, i64)>)
    requires
        all_placed(contexts@),
    ensures
        ({
            let a = right_anchor(flat_ucs(contexts@, contexts@.len() as int), name@);
            &&& r is None <==> a is None
            &&& r is Some ==> a->0 == ((r->0).0 as int, (r->0).1 as int)
                && -MAX_POSITION <= (r->0).0 <= MAX_POSITION && -MAX_POSITION <= (r->0).1 <= MAX_POSITION
        }),
{
    proof {
        let f = flat_ucs(contexts@, contexts@.len() as int);
        lemma_flat_placed(contexts@, contexts@.len() as int);
        lemma_last_use_case_in(f, name@, f.len() as int);
    }
    match find_use_case(contexts, name) {
        Some((x, y, w)) => Some((x - w / 2, y)),
        None => None,
    }
}


proof fn lemma_used_after_len(links: Seq<Link>, ctxs: Seq<Context>, i: int)
    requires
        0 <= i <= ctxs.len(),
    ensures
        used_after(links, ctxs, i).len() == links.len(),
    decreases i,
{
    if i > 0 {
        lemma_used_after_len(links, ctxs, i - 1);
        crate::columns::lemma_context_columns_bounds(links, used_after(links, ctxs, i - 1), ctxs[i - 1].use_cases@,
            ctxs[i - 1].use_cases@.len() as int);
    }
}

/// Laying out the same diagram twice gives the same result: a context laid out twice from
/// the same contexts and links, at the same place, ends with the same use cases in the same
/// places, the same width in columns and the same label.
pub proof fn lemma_layout_is_repeatable(links: Seq<Link>, ctxs: Seq<Context>, i: int, y: int, a: Context, b: Context)
    requires
        laid_out(links, ctxs, i, y, a),
        laid_out(links, ctxs, i, y, b),
    ensures
        a.use_cases@ == b.use_cases@,
        a.width_number == b.width_number,
        a.label == b.label,
{
    assert(a.use_cases@ =~= b.use_cases@);
}


proof fn lemma_widest_bounds(ucs: Seq<UseCase>, k: int, top: int)
    requires
        0 <= k <= ucs.len(),
        top >= 1,
        forall|j: int| 0 <= j < k ==> 1 <= (#[trigger] ucs[j]).width_number <= top,
    ensures
        1 <= widest_column(ucs, k) <= top,
    decreases k,
{
    if k > 0 {
        lemma_widest_bounds(ucs, k - 1, top);
    }
}

proof fn lemma_ctx_width_bounds(links: Seq<Link>, ctxs: Seq<Context>, i: int)
    requires
        contexts_ok(ctxs),
        links.len() <= MAX_LINKS,
        0 <= i < ctxs.len(),
    ensures
        1 <= ctx_width(links, ctxs, i) <= MAX_LINKS + 1,
{
    lemma_used_after_len(links, ctxs, i);
    crate::columns::lemma_context_columns_bounds(links, used_after(links, ctxs, i), ctxs[i].use_cases@,
        ctxs[i].use_cases@.len() as int);
    let ucs = assigned_ucs(links, ctxs, i);
    let props = ctx_result(links, ctxs, i).2;
    assert forall|j: int| 0 <= j < ucs.len() implies 1 <= (#[trigger] ucs[j]).width_number <= MAX_LINKS + 1 by {
        let u = ctxs[i].use_cases@[j];
        lemma_column_of_bounds(u.width_number as int, u.alias@, props, links.len() + 1 as int);
    }
    lemma_widest_bounds(ucs, ucs.len() as int, MAX_LINKS + 1);
}

} // verus!
