use vstd::prelude::*;

use crate::error::DiagramError;

verus! {

/// The set of identifiers declared in one diagram: class and interface names,
/// actor aliases, context labels and use-case aliases, in order of declaration.
pub struct AliasRegistry {
    names: Vec<String>,
}

/// The registry after `alias` is added to `reg`, or `None` when it is already there.
pub open spec fn add_outcome(reg: Seq<Seq<char>>, alias: Seq<char>) -> Option<Seq<Seq<char>>> {
    if reg.contains(alias) {
        None
    } else {
        Some(reg.push(alias))
    }
}

/// Registers `names` one after another, starting from `reg`; `None` as soon as one is a duplicate.
pub open spec fn register_sequence(reg: Seq<Seq<char>>, names: Seq<Seq<char>>) -> Option<Seq<Seq<char>>>
    decreases names.len(),
{
    if names.len() == 0 {
        Some(reg)
    } else {
        match add_outcome(reg, names[0]) {
            None => None,
            Some(next) => register_sequence(next, names.drop_first()),
        }
    }
}

impl View for AliasRegistry {
    type V = Seq<Seq<char>>;

    closed spec fn view(&self) -> Seq<Seq<char>> {
        self.names@.map_values(|s: String| s@)
    }
}

impl AliasRegistry {
    /// No identifier is held twice.
    pub open spec fn wf(&self) -> bool {
        self@.no_duplicates()
    }

    pub fn new() -> (r: AliasRegistry)
        ensures
            r@ == Seq::<Seq<char>>::empty(),
            r.wf(),
    {
        let r = AliasRegistry { names: Vec::new() };
        assert(r@ =~= Seq::<Seq<char>>::empty());
        r
    }

    pub fn len(&self) -> (n: usize)
        ensures
            n == self@.len(),
    {
        self.names.len()
    }

    pub fn contains(&self, alias: &String) -> (b: bool)
        ensures
            b == self@.contains(alias@),
    {
        let mut i: usize = 0;
        while i < self.names.len()
            invariant
                0 <= i <= self.names@.len(),
                forall|j: int| 0 <= j < i ==> self@[j] != alias@,
            decreases self.names@.len() - i,
        {
            if self.names[i] == *alias {
                assert(self@[i as int] == alias@);
                return true;
            }
            i += 1;
        }
        proof {
            if self@.contains(alias@) {
                let k = choose|k: int| 0 <= k < self@.len() && self@[k] == alias@;
                assert(self@[k] == alias@);
            }
        }
        false
    }
}

/// The registry's operations, as the diagram builder uses them.
pub struct UmlParser {}

impl UmlParser {
    /// Registers `alias`; fails with `DuplicateIdentifier` when it was registered before,
    /// and then leaves the registry as it was.
    pub fn add_alias(list: &mut AliasRegistry, alias: String) -> (r: Result<(), DiagramError>)
        requires
            old(list).wf(),
        ensures
            final(list).wf(),
            add_outcome(old(list)@, alias@) is None <==> r is Err,
            r is Err ==> r == Err::<(), DiagramError>(DiagramError::DuplicateIdentifier(alias))
                && final(list)@ == old(list)@,
            r is Ok ==> Some(final(list)@) == add_outcome(old(list)@, alias@),
    {
        if list.contains(&alias) {
            Err(DiagramError::DuplicateIdentifier(alias))
        } else {
            let ghost before = list@;
            list.names.push(alias);
            assert(list@ =~= before.push(alias@));
            Ok(())
        }
    }

    /// Succeeds exactly when `alias` was registered; fails with `UnknownReference` otherwise.
    pub fn check_alias(list: &AliasRegistry, alias: String) -> (r: Result<(), DiagramError>)
        ensures
            r is Ok <==> list@.contains(alias@),
            r is Err ==> r == Err::<(), DiagramError>(DiagramError::UnknownReference(alias)),
    {
        if list.contains(&alias) {
            Ok(())
        } else {
            Err(DiagramError::UnknownReference(alias))
        }
    }
}

/// Registering an identifier a second time fails, whatever the registry held.
pub proof fn lemma_second_registration_fails(reg: Seq<Seq<char>>, alias: Seq<char>)
    requires
        add_outcome(reg, alias) is Some,
    ensures
        add_outcome(add_outcome(reg, alias)->0, alias) is None,
{
    assert(reg.push(alias)[reg.len() as int] == alias);
}

/// Registering distinct identifiers into an empty registry succeeds and leaves
/// exactly those identifiers, as many as were given.
pub proof fn lemma_distinct_registrations_succeed(names: Seq<Seq<char>>)
    requires
        names.no_duplicates(),
    ensures
        register_sequence(Seq::empty(), names) == Some(names),
        register_sequence(Seq::empty(), names)->0.len() == names.len(),
{
    lemma_register_prefix(Seq::empty(), names);
    assert(Seq::<Seq<char>>::empty() + names =~= names);
}

proof fn lemma_register_prefix(reg: Seq<Seq<char>>, names: Seq<Seq<char>>)
    requires
        (reg + names).no_duplicates(),
    ensures
        register_sequence(reg, names) == Some(reg + names),
    decreases names.len(),
{
    if names.len() == 0 {
        assert(reg + names =~= reg);
    } else {
        let a = names[0];
        assert((reg + names)[reg.len() as int] == a);
        if reg.contains(a) {
            let k = choose|k: int| 0 <= k < reg.len() && reg[k] == a;
            assert((reg + names)[k] == a);
        }
        assert(reg.push(a) + names.drop_first() =~= reg + names);
        lemma_register_prefix(reg.push(a), names.drop_first());
    }
}

} // verus!
