use vstd::prelude::*;

use crate::link::Link;
use crate::use_case::{Context, UseCase};

verus! {

/// Column proposals: an alias reached by a chain of links and the column it would take.
pub type Proposals = Seq<(Seq<char>, int)>;

/// The proposals held in `m`.
pub open spec fn proposals_of(m: Seq<(String, i32)>) -> Proposals {
    m.map_values(|p: (String, i32)| (p.0@, p.1 as int))
}

/// How many links are still unused.
pub open spec fn unused_count(used: Seq<bool>) -> nat
    decreases used.len(),
{
    if used.len() == 0 {
        0
    } else {
        unused_count(used.drop_last()) + if used.last() { 0nat } else { 1nat }
    }
}

/// One pass over the links from the `k`-th on, following the chain that has reached `left`
/// at column `w`: each unused link out of the current alias is used, moves the chain one
/// column on, and proposes that column for its target. Gives the links' use afterwards, the
/// column reached, the proposals in order, and whether any link was used.
pub open spec fn scan(links: Seq<Link>, used: Seq<bool>, left: Seq<char>, w: int, k: int) -> (Seq<bool>, int, Proposals, bool)
    decreases links.len() - k,
{
    if k < 0 || k >= links.len() {
        (used, w, Seq::empty(), false)
    } else if links[k].left_id@ == left && !used[k] {
        let r = scan(links, used.update(k, true), links[k].right_id@, w + 1, k + 1);
        (r.0, r.1, seq![(links[k].right_id@, w + 1)] + r.2, true)
    } else {
        scan(links, used, left, w, k + 1)
    }
}

/// Passes over the links from use case `alias` until one uses no link, keeping the widest
/// column reached in `max_w` and gathering the proposals.
pub open spec fn explore(links: Seq<Link>, used: Seq<bool>, alias: Seq<char>, max_w: int, props: Proposals) -> (Seq<bool>, int, Proposals)
    decreases unused_count(used),
{
    let r = scan(links, used, alias, 1, 0);
    if r.3 && unused_count(r.0) < unused_count(used) {
        explore(links, r.0, alias, if r.1 > max_w { r.1 } else { max_w }, props + r.2)
    } else {
        (used, max_w, props)
    }
}

/// The state after exploring from each of the first `i` use cases of a context in turn:
/// the links' use, the context's width in columns, and the proposals.
pub open spec fn context_columns(links: Seq<Link>, used: Seq<bool>, ucs: Seq<UseCase>, i: int) -> (Seq<bool>, int, Proposals)
    decreases i,
{
    if i <= 0 {
        (used, 1, Seq::empty())
    } else {
        let p = context_columns(links, used, ucs, i - 1);
        explore(links, p.0, ucs[i - 1].alias@, p.1, p.2)
    }
}

/// The column of a use case that stood in column `wn`: the largest of `wn` and the columns
/// proposed for its alias.
pub open spec fn column_of(wn: int, alias: Seq<char>, props: Proposals) -> int
    decreases props.len(),
{
    if props.len() == 0 {
        wn
    } else {
        let w0 = column_of(wn, alias, props.drop_last());
        let m = props.last();
        if m.0 == alias && w0 < m.1 { m.1 } else { w0 }
    }
}

/// The largest column among the first `k` use cases of `ucs`, at least 1.
pub open spec fn widest_column(ucs: Seq<UseCase>, k: int) -> int
    decreases k,
{
    if k <= 0 {
        1
    } else {
        let w = widest_column(ucs, k - 1);
        let c = ucs[k - 1].width_number as int;
        if c > w { c } else { w }
    }
}

/// Every proposal of `props` is for a column from 2 to `top`.
pub open spec fn proposals_within(props: Proposals, top: int) -> bool {
    forall|j: int| 0 <= j < props.len() ==> 2 <= (#[trigger] props[j]).1 <= top
}

proof fn lemma_unused_update(used: Seq<bool>, k: int)
    requires
        0 <= k < used.len(),
        !used[k],
    ensures
        unused_count(used.update(k, true)) + 1 == unused_count(used),
    decreases used.len(),
{
    let u = used.update(k, true);
    if k < used.len() - 1 {
        assert(u.drop_last() =~= used.drop_last().update(k, true));
        lemma_unused_update(used.drop_last(), k);
    } else {
        assert(u.drop_last() =~= used.drop_last());
    }
}

proof fn lemma_scan(links: Seq<Link>, used: Seq<bool>, left: Seq<char>, w: int, k: int)
    requires
        used.len() == links.len(),
        0 <= k <= links.len(),
        w >= 1,
    ensures
        ({
            let r = scan(links, used, left, w, k);
            &&& r.0.len() == links.len()
            &&& r.3 ==> unused_count(r.0) < unused_count(used)
            &&& !r.3 ==> r.0 == used && r.1 == w && r.2.len() == 0
            &&& w <= r.1 <= w + (links.len() - k)
            &&& proposals_within(r.2, r.1)
            &&& forall|j: int| 0 <= j < r.2.len() ==> w < (#[trigger] r.2[j]).1
        }),
    decreases links.len() - k,
{
    if k < links.len() {
        if links[k].left_id@ == left && !used[k] {
            lemma_unused_update(used, k);
            lemma_scan(links, used.update(k, true), links[k].right_id@, w + 1, k + 1);
            let r = scan(links, used.update(k, true), links[k].right_id@, w + 1, k + 1);
            let props = seq![(links[k].right_id@, w + 1)] + r.2;
            assert forall|j: int| 0 <= j < props.len() implies 2 <= (#[trigger] props[j]).1 <= r.1 && w < props[j].1 by {
                if j > 0 {
                    assert(props[j] == r.2[j - 1]);
                }
            }
        } else {
            lemma_scan(links, used, left, w, k + 1);
        }
    }
}

proof fn lemma_explore(links: Seq<Link>, used: Seq<bool>, alias: Seq<char>, max_w: int, props: Proposals)
    requires
        used.len() == links.len(),
        1 <= max_w <= links.len() + 1,
        proposals_within(props, links.len() + 1 as int),
    ensures
        ({
            let r = explore(links, used, alias, max_w, props);
            &&& r.0.len() == links.len()
            &&& max_w <= r.1 <= links.len() + 1
            &&& proposals_within(r.2, links.len() + 1 as int)
        }),
    decreases unused_count(used),
{
    lemma_scan(links, used, alias, 1, 0);
    let r = scan(links, used, alias, 1, 0);
    if r.3 && unused_count(r.0) < unused_count(used) {
        let all = props + r.2;
        assert forall|j: int| 0 <= j < all.len() implies 2 <= (#[trigger] all[j]).1 <= links.len() + 1 by {
            if j >= props.len() {
                assert(all[j] == r.2[j - props.len()]);
            }
        }
        lemma_explore(links, r.0, alias, if r.1 > max_w { r.1 } else { max_w }, all);
    }
}

pub proof fn lemma_context_columns_bounds(links: Seq<Link>, used: Seq<bool>, ucs: Seq<UseCase>, i: int)
    requires
        used.len() == links.len(),
        0 <= i <= ucs.len(),
    ensures
        ({
            let r = context_columns(links, used, ucs, i);
            &&& r.0.len() == links.len()
            &&& 1 <= r.1 <= links.len() + 1
            &&& proposals_within(r.2, links.len() + 1 as int)
        }),
    decreases i,
{
    if i > 0 {
        lemma_context_columns_bounds(links, used, ucs, i - 1);
        let p = context_columns(links, used, ucs, i - 1);
        lemma_explore(links, p.0, ucs[i - 1].alias@, p.1, p.2);
    }
}

pub proof fn lemma_column_of_bounds(wn: int, alias: Seq<char>, props: Proposals, top: int)
    requires
        proposals_within(props, top),
    ensures
        wn <= column_of(wn, alias, props),
        column_of(wn, alias, props) == wn || column_of(wn, alias, props) <= top,
    decreases props.len(),
{
    if props.len() > 0 {
        let p = props.drop_last();
        assert(proposals_within(p, top)) by {
            assert forall|j: int| 0 <= j < p.len() implies 2 <= (#[trigger] p[j]).1 <= top by {
                assert(p[j] == props[j]);
            }
        }
        lemma_column_of_bounds(wn, alias, p, top);
        assert(props.last() == props[props.len() - 1]);
    }
}

/// One pass over the links from use case `start`; see `scan`.
fn scan_links(links: &Vec<Link>, used: &mut Vec<bool>, start: &String, props: &mut Vec<(String, i32)>) -> (r: (i32, bool))
    requires
        old(used)@.len() == links@.len(),
        links@.len() < i32::MAX,
    ensures
        ({
            let s = scan(links@, old(used)@, start@, 1, 0);
            &&& final(used)@ == s.0
            &&& r.0 == s.1
            &&& r.1 == s.3
            &&& proposals_of(final(props)@) == proposals_of(old(props)@) + s.2
        }),
{
    let ghost s0 = scan(links@, used@, start@, 1, 0);
    let ghost p0 = proposals_of(props@);
    let mut left: String = start.clone();
    let mut width: i32 = 1;
    let mut changed = false;
    let mut k: usize = 0;
    proof {
        lemma_scan(links@, used@, start@, 1, 0);
    }
    while k < links.len()
        invariant
            used@.len() == links@.len() < i32::MAX,
            0 <= k <= links@.len(),
            1 <= width <= 1 + k,
            ({
                let sk = scan(links@, used@, left@, width as int, k as int);
                &&& s0.0 == sk.0
                &&& s0.1 == sk.1
                &&& s0.3 == (changed || sk.3)
                &&& proposals_of(props@) + sk.2 == p0 + s0.2
            }),
        decreases links@.len() - k,
    {
        let ghost pk = proposals_of(props@);
        if links[k].left_id == left && !used[k] {
            width = width + 1;
            used.set(k, true);
            props.push((links[k].right_id.clone(), width));
            left = links[k].right_id.clone();
            changed = true;
            proof {
                assert(proposals_of(props@) =~= pk.push((left@, width as int)));
                let r = scan(links@, used@, left@, width as int, k + 1);
                assert(pk.push((left@, width as int)) + r.2 =~= pk + (seq![(left@, width as int)] + r.2));
            }
        }
        k += 1;
    }
    proof {
        assert(proposals_of(props@) + Seq::<(Seq<char>, int)>::empty() =~= proposals_of(props@));
    }
    (width, changed)
}

impl Context {
    /// Assigns each use case its column: from every use case in turn, chains of links not yet
    /// used are followed, each link used once at most across all contexts, and a use case
    /// reached by a chain is proposed the column that the chain has reached there. A use case
    /// takes the largest column proposed for it (or keeps its own, if larger); the context
    /// is as wide as the largest column among its own use cases, at least 1. Gives that width.
    pub fn assign_columns(&mut self, links: &Vec<Link>, used: &mut Vec<bool>) -> (max_width: i32)
        requires
            old(used)@.len() == links@.len(),
            links@.len() < i32::MAX,
        ensures
            ({
                let r = context_columns(links@, old(used)@, old(self).use_cases@, old(self).use_cases@.len() as int);
                &&& final(used)@ == r.0
                &&& max_width == widest_column(final(self).use_cases@, final(self).use_cases@.len() as int)
                &&& final(self).width_number == max_width
                &&& final(self).label == old(self).label
                &&& final(self).use_cases@.len() == old(self).use_cases@.len()
                &&& forall|j: int| 0 <= j < old(self).use_cases@.len() ==> #[trigger] final(self).use_cases@[j] == (UseCase {
                    width_number: column_of(old(self).use_cases@[j].width_number as int, old(self).use_cases@[j].alias@, r.2) as i32,
                    ..old(self).use_cases@[j]
                })
            }),
    {
        let ghost ucs = self.use_cases@;
        let ghost used0 = used@;
        let n = self.use_cases.len();
        let mut max_width: i32 = 1;
        let mut props: Vec<(String, i32)> = Vec::new();
        let mut i: usize = 0;
        proof {
            assert(proposals_of(props@) =~= Seq::<(Seq<char>, int)>::empty());
        }
        while i < n
            invariant
                n == ucs.len(),
                self.use_cases@ == ucs,
                used0.len() == links@.len(),
                used@.len() == links@.len() < i32::MAX,
                0 <= i <= n,
                ({
                    let r = context_columns(links@, used0, ucs, i as int);
                    &&& used@ == r.0
                    &&& max_width == r.1
                    &&& proposals_of(props@) == r.2
                }),
            decreases n - i,
        {
            proof {
                lemma_context_columns_bounds(links@, used0, ucs, i as int);
            }
            let alias = &self.use_cases[i].alias;
            let ghost target = explore(links@, used@, alias@, max_width as int, proposals_of(props@));
            loop
                invariant
                    used@.len() == links@.len() < i32::MAX,
                    1 <= max_width <= links@.len() + 1,
                    proposals_within(proposals_of(props@), links@.len() + 1 as int),
                    explore(links@, used@, alias@, max_width as int, proposals_of(props@)) == target,
                ensures
                    target == (used@, max_width as int, proposals_of(props@)),
                decreases unused_count(used@),
            {
                let ghost u = used@;
                let ghost p = proposals_of(props@);
                let ghost old_max = max_width;
                proof {
                    lemma_scan(links@, used@, alias@, 1, 0);
                    lemma_explore(links@, used@, alias@, max_width as int, p);
                }
                let (width, changed) = scan_links(links, used, alias, &mut props);
                if !changed {
                    proof {
                        assert(proposals_of(props@) =~= p);
                    }
                    break;
                }
                if width > max_width {
                    max_width = width;
                }
                proof {
                    let r = scan(links@, u, alias@, 1, 0);
                    assert(explore(links@, u, alias@, old_max as int, p) == explore(links@, r.0, alias@,
                        if r.1 > old_max { r.1 } else { old_max as int }, p + r.2));
                    let all = p + r.2;
                    assert forall|j: int| 0 <= j < all.len() implies 2 <= (#[trigger] all[j]).1 <= links@.len() + 1 by {
                        if j >= p.len() {
                            assert(all[j] == r.2[j - p.len()]);
                        }
                    }
                }
            }
            i += 1;
        }
        let ghost r = context_columns(links@, used0, ucs, n as int);
        proof {
            lemma_context_columns_bounds(links@, used0, ucs, n as int);
        }
        let mut j: usize = 0;
        while j < n
            invariant
                n == ucs.len(),
                self.use_cases@.len() == n,
                self.label == old(self).label,
                proposals_of(props@) == r.2,
                proposals_within(r.2, links@.len() + 1 as int),
                links@.len() < i32::MAX,
                0 <= j <= n,
                forall|t: int| j <= t < n ==> #[trigger] self.use_cases@[t] == ucs[t],
                forall|t: int| 0 <= t < j ==> #[trigger] self.use_cases@[t] == (UseCase {
                    width_number: column_of(ucs[t].width_number as int, ucs[t].alias@, r.2) as i32,
                    ..ucs[t]
                }),
            decreases n - j,
        {
            let mut m: usize = 0;
            while m < props.len()
                invariant
                    n == ucs.len(),
                    self.use_cases@.len() == n,
                    self.label == old(self).label,
                    proposals_of(props@) == r.2,
                    proposals_within(r.2, links@.len() + 1 as int),
                    links@.len() < i32::MAX,
                    0 <= j < n,
                    0 <= m <= props@.len(),
                    forall|t: int| j < t < n ==> #[trigger] self.use_cases@[t] == ucs[t],
                    forall|t: int| 0 <= t < j ==> #[trigger] self.use_cases@[t] == (UseCase {
                        width_number: column_of(ucs[t].width_number as int, ucs[t].alias@, r.2) as i32,
                        ..ucs[t]
                    }),
                    self.use_cases@[j as int] == (UseCase {
                        width_number: column_of(ucs[j as int].width_number as int, ucs[j as int].alias@, r.2.subrange(0, m as int)) as i32,
                        ..ucs[j as int]
                    }),
                decreases props@.len() - m,
            {
                proof {
                    let sub = r.2.subrange(0, m + 1);
                    assert(sub.drop_last() =~= r.2.subrange(0, m as int));
                    assert(proposals_within(r.2.subrange(0, m as int), links@.len() + 1 as int));
                    lemma_column_of_bounds(ucs[j as int].width_number as int, ucs[j as int].alias@, r.2.subrange(0, m as int), links@.len() + 1 as int);
                    assert(r.2[m as int] == (props@[m as int].0@, props@[m as int].1 as int));
                }
                if self.use_cases[j].alias == props[m].0 && self.use_cases[j].width_number < props[m].1 {
                    self.use_cases[j].width_number = props[m].1;
                }
                m += 1;
            }
            proof {
                assert(r.2.subrange(0, props@.len() as int) =~= r.2);
            }
            j += 1;
        }
        let mut widest: i32 = 1;
        let mut j: usize = 0;
        while j < n
            invariant
                n == self.use_cases@.len(),
                0 <= j <= n,
                widest == widest_column(self.use_cases@, j as int),
            decreases n - j,
        {
            if self.use_cases[j].width_number > widest {
                widest = self.use_cases[j].width_number;
            }
            j += 1;
        }
        self.width_number = widest;
        widest
    }
}

} // verus!
