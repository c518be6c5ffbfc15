//! Names of the font families that a style's family stack refers to.

use vstd::prelude::*;

verus! {

/// Number of a font family in the font collection.
#[derive(Clone, Copy, Debug, PartialEq, Eq, Structural)]
pub struct FamilyId {
    pub raw: u64,
}

/// The hash map that holds the names, keyed by family number.
#[verifier::external_body]
pub struct FamilyTable {
    map: hashbrown::HashMap<u64, String>,
}

/// What the hash map of a table holds: each key with the characters of its value.
pub uninterp spec fn family_table_names(table: FamilyTable) -> Map<u64, Seq<char>>;

/// The table without any name.
pub open spec fn no_names() -> Map<u64, Seq<char>> {
    Map::empty()
}

/// `hashbrown::HashMap::new`: the new map holds no key.
#[verifier::external_body]
fn table_new() -> (table: FamilyTable)
    ensures
        family_table_names(table) == no_names(),
{
    FamilyTable { map: hashbrown::HashMap::new() }
}

/// `hashbrown::HashMap::insert`: afterwards the key has the given value, any
/// earlier value of that key is gone, and all other keys are as they were.
#[verifier::external_body]
fn table_insert(table: &mut FamilyTable, key: u64, name: String)
    ensures
        family_table_names(*final(table)) == family_table_names(*old(table)).insert(key, name@),
{
    table.map.insert(key, name);
}

/// `hashbrown::HashMap::get`: the value of the key, or nothing where the map
/// does not hold the key.
#[verifier::external_body]
fn table_get(table: &FamilyTable, key: u64) -> (name: Option<&String>)
    ensures
        name is Some <==> family_table_names(*table).contains_key(key),
        name is Some ==> name->0@ == family_table_names(*table)[key],
{
    table.map.get(&key)
}

/// Snapshot of family number to family name for the families referenced by the
/// style table.
pub struct MacFamilyNames {
    names: FamilyTable,
}

impl View for MacFamilyNames {
    type V = Map<u64, Seq<char>>;

    closed spec fn view(&self) -> Map<u64, Seq<char>> {
        family_table_names(self.names)
    }
}

impl Default for MacFamilyNames {
    fn default() -> (families: Self)
        ensures
            families@ == no_names(),
    {
        MacFamilyNames { names: table_new() }
    }
}

impl MacFamilyNames {
    /// Records `name` as the name of family `id`, in place of any earlier one.
    pub fn insert(&mut self, id: FamilyId, name: &str)
        ensures
            final(self)@ == old(self)@.insert(id.raw, name@),
    {
        table_insert(&mut self.names, id.raw, name.to_owned());
    }

    /// The name of family `id`, where one was recorded.
    pub fn get(&self, id: FamilyId) -> (name: Option<&str>)
        ensures
            name is Some <==> self@.contains_key(id.raw),
            name is Some ==> name->0@ == self@[id.raw],
    {
        match table_get(&self.names, id.raw) {
            Some(name) => Some(name.as_str()),
            None => None,
        }
    }
}

/// A name that was recorded is the one that is found, until another one is
/// recorded for the same family; what is recorded for one family changes
/// nothing for the others.
pub proof fn law_recorded_name_is_found(
    families: Map<u64, Seq<char>>,
    id: FamilyId,
    name: Seq<char>,
    other: FamilyId,
    later: Seq<char>,
)
    requires
        other != id,
    ensures
        families.insert(id.raw, name).contains_key(id.raw),
        families.insert(id.raw, name)[id.raw] == name,
        families.insert(id.raw, name).insert(id.raw, later) == families.insert(id.raw, later),
        families.insert(id.raw, name).contains_key(other.raw) == families.contains_key(other.raw),
        families.contains_key(other.raw) ==> families.insert(id.raw, name)[other.raw]
            == families[other.raw],
{
    assert(families.insert(id.raw, name).insert(id.raw, later) =~= families.insert(id.raw, later));
}

/// The families of a stack; none where the stack is not known.
pub open spec fn stack_ids(stack: Option<Vec<FamilyId>>) -> Seq<FamilyId> {
    match stack {
        Some(ids) => ids@,
        None => Seq::empty(),
    }
}

/// The names of those families that have one, in the order of the stack.
pub open spec fn known_names(ids: Seq<FamilyId>, families: Map<u64, Seq<char>>) -> Seq<Seq<char>> {
    ids.filter(|id: FamilyId| families.contains_key(id.raw)).map_values(
        |id: FamilyId| families[id.raw],
    )
}

/// A stack whose families all have names resolves to one name for each family,
/// in order.
pub proof fn law_named_stack_keeps_every_family(
    ids: Seq<FamilyId>,
    families: Map<u64, Seq<char>>,
)
    requires
        forall|i: int| 0 <= i < ids.len() ==> families.contains_key((#[trigger] ids[i]).raw),
    ensures
        known_names(ids, families) == ids.map_values(|id: FamilyId| families[id.raw]),
{
    let known = |id: FamilyId| families.contains_key(id.raw);
    lemma_filter_keeps_all(ids, known);
}

proof fn lemma_filter_keeps_all(ids: Seq<FamilyId>, pred: spec_fn(FamilyId) -> bool)
    requires
        forall|i: int| 0 <= i < ids.len() ==> pred(#[trigger] ids[i]),
    ensures
        ids.filter(pred) == ids,
    decreases ids.len(),
{
    reveal(Seq::filter);
    if ids.len() > 0 {
        let rest = ids.drop_last();
        assert forall|i: int| 0 <= i < rest.len() implies pred(#[trigger] rest[i]) by {
            assert(rest[i] == ids[i]);
        }
        lemma_filter_keeps_all(rest, pred);
        assert(ids[ids.len() - 1] == ids.last());
        assert(rest.push(ids.last()) =~= ids);
    }
}

/// The characters of each string.
pub open spec fn texts(names: Seq<String>) -> Seq<Seq<char>> {
    names.map_values(|name: String| name@)
}

/// Resolves a family stack to the names of its families. A family without a
/// recorded name is left out; a stack that is not known has no families.
pub fn family_names(stack: &Option<Vec<FamilyId>>, families: &MacFamilyNames) -> (names: Vec<
    String,
>)
    ensures
        texts(names@) == known_names(stack_ids(*stack), families@),
{
    let mut names: Vec<String> = Vec::new();
    if let Some(ids) = stack {
        let ghost known = |id: FamilyId| families@.contains_key(id.raw);
        let ghost name_of = |id: FamilyId| families@[id.raw];
        for i in 0..ids.len()
            invariant
                known == (|id: FamilyId| families@.contains_key(id.raw)),
                name_of == (|id: FamilyId| families@[id.raw]),
                texts(names@) == ids@.take(i as int).filter(known).map_values(name_of),
        {
            let ghost before = names@;
            let ghost taken = ids@.take(i as int);
            proof {
                reveal(Seq::filter);
                assert(ids@.take(i + 1).drop_last() =~= taken);
                assert(ids@.take(i + 1).last() == ids@[i as int]);
            }
            if let Some(name) = families.get(ids[i]) {
                names.push(name.to_owned());
                proof {
                    assert(texts(names@) =~= texts(before).push(families@[ids@[i as int].raw]));
                    assert(taken.filter(known).push(ids@[i as int]).map_values(name_of)
                        =~= taken.filter(known).map_values(name_of).push(
                        families@[ids@[i as int].raw],
                    ));
                }
            }
        }
        proof {
            assert(ids@.take(ids@.len() as int) =~= ids@);
        }
    }
    proof {
        if *stack is None {
            reveal(Seq::filter);
            assert(texts(names@) =~= known_names(stack_ids(*stack), families@));
        }
    }
    names
}

/// The family that is asked for where no family of the stack has a name.
pub open spec fn fallback_family() -> Seq<char> {
    "Helvetica"@
}

/// The first of the names, or the fallback family where there is none.
pub open spec fn primary_name(names: Seq<Seq<char>>) -> Seq<char> {
    if names.len() > 0 {
        names[0]
    } else {
        fallback_family()
    }
}

/// The family of the primary font.
pub fn primary_family(names: &[String]) -> (family: String)
    ensures
        family@ == primary_name(texts(names@)),
{
    if names.len() > 0 {
        names[0].clone()
    } else {
        "Helvetica".to_owned()
    }
}

/// The names after the first one; none where there is no name at all.
pub open spec fn names_after_primary(names: Seq<Seq<char>>) -> Seq<Seq<char>> {
    if names.len() > 0 {
        names.drop_first()
    } else {
        Seq::empty()
    }
}

/// The families after the primary one, in the order of the stack. Where no
/// family has a name, nothing follows the fallback family.
pub fn cascade_names(names: &[String]) -> (rest: Vec<String>)
    ensures
        texts(rest@) == names_after_primary(texts(names@)),
{
    let mut rest: Vec<String> = Vec::new();
    if names.len() == 0 {
        proof {
            assert(texts(rest@) =~= names_after_primary(texts(names@)));
        }
        return rest;
    }
    for i in 1..names.len()
        invariant
            names@.len() > 0,
            texts(rest@) == texts(names@).subrange(1, i as int),
    {
        let ghost before = rest@;
        rest.push(names[i].clone());
        proof {
            assert(texts(rest@) =~= texts(before).push(texts(names@)[i as int]));
            assert(texts(names@).subrange(1, i + 1) =~= texts(names@).subrange(1, i as int).push(
                texts(names@)[i as int],
            ));
        }
    }
    rest
}

/// The primary family and the cascade are together the whole stack: no name is
/// lost, repeated or moved.
pub proof fn law_primary_and_cascade_are_the_stack(names: Seq<Seq<char>>)
    requires
        names.len() > 0,
    ensures
        seq![primary_name(names)] + names_after_primary(names) == names,
{
    assert(seq![primary_name(names)] + names_after_primary(names) =~= names);
}

} // verus!
