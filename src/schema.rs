//! Merging schema fragments into a [`ValidatorSchema`]: the aggregate
//! declaration lists, the closure of both hierarchies, and the checks for
//! duplicate declarations, shapes, cycles and undeclared references.
use crate::closure::{
    closure_has_cycle, descends, indices_in_range, is_closure_of, on_cycle, parents_rel, transitive_closure, Rel,
};
use crate::names::{
    contains_key, index_of, insert_key, lemma_strings_push, strings_view, views, EntityType,
    EntityUID, EntityUidView, Ident, Name, NameView,
};
use crate::types::{
    common_types_defined, declared_refers_to, defined_once, defines, denotes_record,
    lemma_resolved_record, lemma_resolved_refers, refers_to, refers_to_common, resolves_to,
    AttributeType, SchemaType, Type,
};
use vstd::prelude::*;
use vstd::string::StringExecFns;

verus! {

/// Whether actions may carry attributes of their own.
#[derive(PartialEq, Eq, Structural, Clone, Copy)]
pub enum ActionBehavior {
    /// Declaring attributes on an action is an error.
    ProhibitAttributes,
    /// Actions may carry attributes.
    PermitAttributes,
}

impl Default for ActionBehavior {
    fn default() -> (r: ActionBehavior)
        ensures
            r == ActionBehavior::ProhibitAttributes,
    {
        ActionBehavior::ProhibitAttributes
    }
}

/// A literal value of an action attribute.
pub enum Literal {
    Bool(bool),
    Long(i64),
    String(String),
}

/// The principal and resource types an action applies to.
pub struct ValidatorApplySpec {
    pub principal_types: Vec<EntityType>,
    pub resource_types: Vec<EntityType>,
}

/// An entity type as one namespace declares it.
pub struct EntityTypeFragment {
    pub name: Name,
    /// The entity types this one is a member of.
    pub parents: Vec<Name>,
    /// The declared shape, which must denote a record.
    pub shape: SchemaType,
}

/// An action as one namespace declares it.
pub struct ActionFragment {
    pub name: EntityUID,
    /// The actions this one is a member of.
    pub parents: Vec<EntityUID>,
    pub applies_to: ValidatorApplySpec,
    /// The declared context, which must denote a record.
    pub context: SchemaType,
    pub attributes: Vec<(String, Literal)>,
}

/// The declarations of one namespace, with every name already qualified.
pub struct ValidatorNamespaceDef {
    pub namespace: Option<Name>,
    pub type_defs: Vec<(Name, Type)>,
    pub entity_types: Vec<EntityTypeFragment>,
    pub actions: Vec<ActionFragment>,
}

/// A schema fragment: the declarations of one or more namespaces.
pub struct ValidatorSchemaFragment(pub Vec<ValidatorNamespaceDef>);

/// The namespaces of all fragments, in order.
pub open spec fn namespaces_of(frags: Seq<ValidatorSchemaFragment>) -> Seq<ValidatorNamespaceDef>
    decreases frags.len(),
{
    if frags.len() == 0 {
        Seq::empty()
    } else {
        frags[0].0@ + namespaces_of(frags.drop_first())
    }
}

/// The common-type definitions of all namespaces, in order.
pub open spec fn common_types_of(ns: Seq<ValidatorNamespaceDef>) -> Seq<(Name, Type)>
    decreases ns.len(),
{
    if ns.len() == 0 {
        Seq::empty()
    } else {
        ns[0].type_defs@ + common_types_of(ns.drop_first())
    }
}

/// The entity-type declarations of all namespaces, in order.
pub open spec fn entity_types_of(ns: Seq<ValidatorNamespaceDef>) -> Seq<EntityTypeFragment>
    decreases ns.len(),
{
    if ns.len() == 0 {
        Seq::empty()
    } else {
        ns[0].entity_types@ + entity_types_of(ns.drop_first())
    }
}

/// The action declarations of all namespaces, in order.
pub open spec fn actions_of(ns: Seq<ValidatorNamespaceDef>) -> Seq<ActionFragment>
    decreases ns.len(),
{
    if ns.len() == 0 {
        Seq::empty()
    } else {
        ns[0].actions@ + actions_of(ns.drop_first())
    }
}

/// All declarations of all fragments, gathered into three lists.
fn merge_fragments(fragments: Vec<ValidatorSchemaFragment>) -> (r: (
    Vec<(Name, Type)>,
    Vec<EntityTypeFragment>,
    Vec<ActionFragment>,
))
    ensures
        r.0@ == common_types_of(namespaces_of(fragments@)),
        r.1@ == entity_types_of(namespaces_of(fragments@)),
        r.2@ == actions_of(namespaces_of(fragments@)),
{
    let ghost all = namespaces_of(fragments@);
    let mut frags = fragments;
    let mut nss: Vec<ValidatorNamespaceDef> = Vec::new();
    while frags.len() > 0
        invariant
            all == nss@ + namespaces_of(frags@),
        decreases frags.len(),
    {
        let ghost before = frags@;
        let mut f = frags.remove(0);
        proof {
            assert(before.drop_first() =~= frags@);
            assert(all =~= (nss@ + f.0@) + namespaces_of(frags@));
        }
        nss.append(&mut f.0);
    }
    assert(all =~= nss@);
    let mut defs: Vec<(Name, Type)> = Vec::new();
    let mut ents: Vec<EntityTypeFragment> = Vec::new();
    let mut acts: Vec<ActionFragment> = Vec::new();
    while nss.len() > 0
        invariant
            common_types_of(all) == defs@ + common_types_of(nss@),
            entity_types_of(all) == ents@ + entity_types_of(nss@),
            actions_of(all) == acts@ + actions_of(nss@),
        decreases nss.len(),
    {
        let ghost before = nss@;
        let mut ns = nss.remove(0);
        proof {
            assert(before.drop_first() =~= nss@);
            assert(common_types_of(all) =~= (defs@ + ns.type_defs@) + common_types_of(nss@));
            assert(entity_types_of(all) =~= (ents@ + ns.entity_types@) + entity_types_of(nss@));
            assert(actions_of(all) =~= (acts@ + ns.actions@) + actions_of(nss@));
        }
        defs.append(&mut ns.type_defs);
        ents.append(&mut ns.entity_types);
        acts.append(&mut ns.actions);
    }
    proof {
        assert(defs@ =~= common_types_of(all));
        assert(ents@ =~= entity_types_of(all));
        assert(acts@ =~= actions_of(all));
    }
    (defs, ents, acts)
}

/// The names that the common-type definitions define, in order.
pub open spec fn common_keys(defs: Seq<(Name, Type)>) -> Seq<NameView> {
    defs.map_values(|d: (Name, Type)| d.0@)
}

/// The names of the entity-type declarations, in order.
pub open spec fn entity_keys(ents: Seq<EntityTypeFragment>) -> Seq<NameView> {
    ents.map_values(|e: EntityTypeFragment| e.name@)
}

/// The ids of the action declarations, in order.
pub open spec fn action_keys(acts: Seq<ActionFragment>) -> Seq<EntityUidView> {
    acts.map_values(|a: ActionFragment| a.name@)
}

/// The hierarchy over declarations `0..keys.len()` in which declaration `b`
/// is a child of declaration `a` when `b` lists the key of `a` among its parents.
pub open spec fn member_rel<V>(keys: Seq<V>, parents: Seq<Seq<V>>) -> Rel {
    |a: int, b: int| 0 <= a < keys.len() && 0 <= b < keys.len() && parents[b].contains(keys[a])
}

/// The entity-type hierarchy of the declarations `ents`.
pub open spec fn entity_rel(ents: Seq<EntityTypeFragment>) -> Rel {
    member_rel(entity_keys(ents), ents.map_values(|e: EntityTypeFragment| views(e.parents@)))
}

/// The action hierarchy of the declarations `acts`.
pub open spec fn action_rel(acts: Seq<ActionFragment>) -> Rel {
    member_rel(action_keys(acts), acts.map_values(|a: ActionFragment| views(a.parents@)))
}

/// The position of the first key equal to an earlier one, if any.
fn first_repeat<K: Ident>(keys: &Vec<K>) -> (r: Option<usize>)
    ensures
        r is None <==> views(keys@).no_duplicates(),
        r matches Some(i) ==> i < keys.len() && views(keys@).subrange(0, i as int).no_duplicates()
            && exists|j: int| 0 <= j < i && (#[trigger] keys@[j])@ == keys@[i as int]@,
{
    let mut i: usize = 0;
    while i < keys.len()
        invariant
            i <= keys.len(),
            forall|a: int, b: int| 0 <= a < b < i ==> keys@[a]@ != keys@[b]@,
        decreases keys.len() - i,
    {
        let mut j: usize = 0;
        while j < i
            invariant
                i < keys.len(),
                j <= i,
                forall|a: int, b: int| 0 <= a < b < i ==> keys@[a]@ != keys@[b]@,
                forall|a: int| 0 <= a < j ==> keys@[a]@ != keys@[i as int]@,
            decreases i - j,
        {
            if keys[j].same_as(&keys[i]) {
                proof {
                    assert(views(keys@)[j as int] == views(keys@)[i as int]);
                    assert forall|a: int, b: int|
                        0 <= a < i && 0 <= b < i && a != b implies views(keys@).subrange(0, i as int)[a]
                        != views(keys@).subrange(0, i as int)[b] by {
                        if a < b {
                            assert(keys@[a]@ != keys@[b]@);
                        } else {
                            assert(keys@[b]@ != keys@[a]@);
                        }
                    }
                }
                return Some(i);
            }
            j = j + 1;
        }
        i = i + 1;
    }
    proof {
        assert forall|a: int, b: int|
            0 <= a < views(keys@).len() && 0 <= b < views(keys@).len() && a != b implies views(
            keys@,
        )[a] != views(keys@)[b] by {
            if a < b {
                assert(keys@[a]@ != keys@[b]@);
            } else {
                assert(keys@[b]@ != keys@[a]@);
            }
        }
    }
    None
}

/// The positions in `keys` of the parents in `parents`; each parent not among
/// `keys` is added to `dangling`.
fn parent_indices<K: Ident>(keys: &Vec<K>, parents: &Vec<K>, dangling: &mut Vec<K>) -> (r: Vec<usize>)
    requires
        views(keys@).no_duplicates(),
    ensures
        forall|k: int| 0 <= k < r.len() ==> (r@[k] as int) < keys.len(),
        forall|i: int|
            0 <= i < keys.len() ==> (r@.contains(i as usize) <==> views(parents@).contains(
                keys@[i]@,
            )),
        forall|m: K::V|
            #![trigger views(final(dangling)@).contains(m)]
            views(final(dangling)@).contains(m) <==> (views(old(dangling)@).contains(m) || (views(
                parents@,
            ).contains(m) && !views(keys@).contains(m))),
        views(old(dangling)@).no_duplicates() ==> views(final(dangling)@).no_duplicates(),
{
    let ghost start = dangling@;
    let mut r: Vec<usize> = Vec::new();
    let mut k: usize = 0;
    while k < parents.len()
        invariant
            views(keys@).no_duplicates(),
            k <= parents.len(),
            forall|x: int| 0 <= x < r.len() ==> (r@[x] as int) < keys.len(),
            forall|i: int|
                0 <= i < keys.len() ==> (r@.contains(i as usize) <==> views(
                    parents@.subrange(0, k as int),
                ).contains(keys@[i]@)),
            forall|m: K::V|
                #![trigger views(dangling@).contains(m)]
                views(dangling@).contains(m) <==> (views(start).contains(m) || (views(
                    parents@.subrange(0, k as int),
                ).contains(m) && !views(keys@).contains(m))),
            views(start).no_duplicates() ==> views(dangling@).no_duplicates(),
        decreases parents.len() - k,
    {
        let ghost rb = r@;
        let ghost pre = views(parents@.subrange(0, k as int));
        proof {
            assert(views(parents@.subrange(0, k as int + 1)) =~= pre.push(parents@[k as int]@));
        }
        match index_of(keys, &parents[k]) {
            Some(i) => {
                r.push(i);
                proof {
                    assert forall|x: int|
                        0 <= x < keys.len() implies (r@.contains(x as usize) <==> pre.push(
                        parents@[k as int]@,
                    ).contains(keys@[x]@)) by {
                        if x == i as int {
                            assert(r@[rb.len() as int] == i);
                            assert(pre.push(parents@[k as int]@)[pre.len() as int] == keys@[x]@);
                        } else {
                            assert(views(keys@)[x] != views(keys@)[i as int]);
                            if r@.contains(x as usize) {
                                let y = choose|y: int| 0 <= y < r.len() && r@[y] == x as usize;
                                assert(rb[y] == x as usize);
                            }
                            if rb.contains(x as usize) {
                                let y = choose|y: int| 0 <= y < rb.len() && rb[y] == x as usize;
                                assert(r@[y] == x as usize);
                            }
                            if pre.push(parents@[k as int]@).contains(keys@[x]@) {
                                let y = choose|y: int|
                                    0 <= y < pre.len() + 1 && pre.push(parents@[k as int]@)[y]
                                        == keys@[x]@;
                                assert(pre[y] == keys@[x]@);
                            }
                            if pre.contains(keys@[x]@) {
                                let y = choose|y: int| 0 <= y < pre.len() && pre[y] == keys@[x]@;
                                assert(pre.push(parents@[k as int]@)[y] == keys@[x]@);
                            }
                        }
                    }
                    assert forall|m: K::V| #![trigger views(dangling@).contains(m)]
                        views(dangling@).contains(m) <==> (views(start).contains(m) || (pre.push(
                        parents@[k as int]@,
                    ).contains(m) && !views(keys@).contains(m))) by {
                        if pre.push(parents@[k as int]@).contains(m) && !pre.contains(m) {
                            let y = choose|y: int|
                                0 <= y < pre.len() + 1 && pre.push(parents@[k as int]@)[y] == m;
                            assert(y == pre.len());
                            assert(views(keys@)[i as int] == m);
                        }
                        if pre.contains(m) {
                            let y = choose|y: int| 0 <= y < pre.len() && pre[y] == m;
                            assert(pre.push(parents@[k as int]@)[y] == m);
                        }
                    }
                }
            },
            None => {
                let p = parents[k].duplicate();
                insert_key(dangling, p);
                proof {
                    assert forall|x: int|
                        0 <= x < keys.len() implies (r@.contains(x as usize) <==> pre.push(
                        parents@[k as int]@,
                    ).contains(keys@[x]@)) by {
                        assert(views(keys@)[x] == keys@[x]@);
                        if pre.push(parents@[k as int]@).contains(keys@[x]@) {
                            let y = choose|y: int|
                                0 <= y < pre.len() + 1 && pre.push(parents@[k as int]@)[y]
                                    == keys@[x]@;
                            if y < pre.len() {
                                assert(pre[y] == keys@[x]@);
                            }
                        }
                        if pre.contains(keys@[x]@) {
                            let y = choose|y: int| 0 <= y < pre.len() && pre[y] == keys@[x]@;
                            assert(pre.push(parents@[k as int]@)[y] == keys@[x]@);
                        }
                    }
                    assert forall|m: K::V| #![trigger views(dangling@).contains(m)]
                        views(dangling@).contains(m) <==> (views(start).contains(m) || (pre.push(
                        parents@[k as int]@,
                    ).contains(m) && !views(keys@).contains(m))) by {
                        if pre.push(parents@[k as int]@).contains(m) && !pre.contains(m) {
                            let y = choose|y: int|
                                0 <= y < pre.len() + 1 && pre.push(parents@[k as int]@)[y] == m;
                            assert(y == pre.len());
                        }
                        if pre.contains(m) {
                            let y = choose|y: int| 0 <= y < pre.len() && pre[y] == m;
                            assert(pre.push(parents@[k as int]@)[y] == m);
                        }
                        if m == parents@[k as int]@ {
                            assert(pre.push(parents@[k as int]@)[pre.len() as int] == m);
                        }
                    }
                }
            },
        }
        k = k + 1;
    }
    proof {
        assert(parents@.subrange(0, parents.len() as int) =~= parents@);
    }
    r
}

/// The parent lists of the entity-type declarations.
pub open spec fn entity_parents(ents: Seq<EntityTypeFragment>) -> Seq<Seq<NameView>> {
    ents.map_values(|e: EntityTypeFragment| views(e.parents@))
}

/// The parent lists of the action declarations.
pub open spec fn action_parents(acts: Seq<ActionFragment>) -> Seq<Seq<EntityUidView>> {
    acts.map_values(|a: ActionFragment| views(a.parents@))
}

/// `m` is listed as a parent but is not among the declared `keys`.
pub open spec fn undeclared_parent<V>(keys: Seq<V>, parents: Seq<Seq<V>>, m: V) -> bool {
    !keys.contains(m) && exists|i: int| 0 <= i < parents.len() && (#[trigger] parents[i]).contains(m)
}

/// The parent indices of each entity-type declaration; each undeclared parent
/// is added to `dangling`.
fn entity_hierarchy(ents: &Vec<EntityTypeFragment>, keys: &Vec<Name>, dangling: &mut Vec<Name>) -> (r:
    Vec<Vec<usize>>)
    requires
        views(keys@) == entity_keys(ents@),
        views(keys@).no_duplicates(),
    ensures
        r.len() == ents.len(),
        indices_in_range(r@),
        parents_rel(r@) == entity_rel(ents@),
        forall|m: NameView|
            #![trigger views(final(dangling)@).contains(m)]
            views(final(dangling)@).contains(m) <==> (views(old(dangling)@).contains(m)
                || undeclared_parent(entity_keys(ents@), entity_parents(ents@), m)),
        views(old(dangling)@).no_duplicates() ==> views(final(dangling)@).no_duplicates(),
{
    let ghost start = dangling@;
    let ghost ps = entity_parents(ents@);
    let ghost ks = entity_keys(ents@);
    let mut r: Vec<Vec<usize>> = Vec::new();
    let mut b: usize = 0;
    while b < ents.len()
        invariant
            views(keys@) == ks,
            ks == entity_keys(ents@),
            ps == entity_parents(ents@),
            views(keys@).no_duplicates(),
            b <= ents.len(),
            r.len() == b,
            forall|x: int, k: int| 0 <= x < b && 0 <= k < r@[x]@.len() ==> (r@[x]@[k] as int) < keys.len(),
            forall|x: int, a: int|
                0 <= x < b && 0 <= a < keys.len() ==> (r@[x]@.contains(a as usize) <==> ps[x].contains(
                    ks[a],
                )),
            forall|m: NameView|
                #![trigger views(dangling@).contains(m)]
                views(dangling@).contains(m) <==> (views(start).contains(m) || undeclared_parent(
                    ks,
                    ps.subrange(0, b as int),
                    m,
                )),
            views(start).no_duplicates() ==> views(dangling@).no_duplicates(),
        decreases ents.len() - b,
    {
        let ghost db = dangling@;
        let idx = parent_indices(keys, &ents[b].parents, dangling);
        proof {
            assert(ps[b as int] == views(ents@[b as int].parents@));
            assert forall|a: int| 0 <= a < keys.len() implies ks[a] == keys@[a]@ by {
                assert(views(keys@)[a] == keys@[a]@);
            }
            assert forall|m: NameView| #![trigger views(dangling@).contains(m)]
                views(dangling@).contains(m) <==> (views(start).contains(m) || undeclared_parent(
                    ks,
                    ps.subrange(0, b as int + 1),
                    m,
                )) by {
                if undeclared_parent(ks, ps.subrange(0, b as int + 1), m) {
                    let i = choose|i: int|
                        0 <= i < b + 1 && (#[trigger] ps.subrange(0, b as int + 1)[i]).contains(m);
                    if i < b {
                        assert(ps.subrange(0, b as int)[i] == ps[i]);
                        assert(undeclared_parent(ks, ps.subrange(0, b as int), m));
                    }
                }
                if undeclared_parent(ks, ps.subrange(0, b as int), m) {
                    let i = choose|i: int|
                        0 <= i < b && (#[trigger] ps.subrange(0, b as int)[i]).contains(m);
                    assert(ps.subrange(0, b as int + 1)[i] == ps[i]);
                }
                if views(ents@[b as int].parents@).contains(m) && !ks.contains(m) {
                    assert(ps.subrange(0, b as int + 1)[b as int] == ps[b as int]);
                }
            }
        }
        r.push(idx);
        b = b + 1;
    }
    proof {
        assert(ps.subrange(0, ents.len() as int) =~= ps);
        assert(views(keys@).len() == keys.len());
        assert(ks.len() == ents.len() && views(keys@).len() == keys.len() && ps.len() == ents.len());
        assert(parents_rel(r@) =~= entity_rel(ents@)) by {
            assert forall|a: int, c: int| #[trigger] parents_rel(r@)(a, c) == entity_rel(ents@)(a, c) by {
                if 0 <= a < keys.len() && 0 <= c < keys.len() {
                    assert(r@[c]@.contains(a as usize) == ps[c].contains(ks[a]));
                }
            }
        }
    }
    r
}

/// The parent indices of each action declaration; each undeclared parent
/// is added to `dangling`.
fn action_hierarchy(acts: &Vec<ActionFragment>, keys: &Vec<EntityUID>, dangling: &mut Vec<EntityUID>) -> (r:
    Vec<Vec<usize>>)
    requires
        views(keys@) == action_keys(acts@),
        views(keys@).no_duplicates(),
    ensures
        r.len() == acts.len(),
        indices_in_range(r@),
        parents_rel(r@) == action_rel(acts@),
        forall|m: EntityUidView|
            #![trigger views(final(dangling)@).contains(m)]
            views(final(dangling)@).contains(m) <==> (views(old(dangling)@).contains(m)
                || undeclared_parent(action_keys(acts@), action_parents(acts@), m)),
        views(old(dangling)@).no_duplicates() ==> views(final(dangling)@).no_duplicates(),
{
    let ghost start = dangling@;
    let ghost ps = action_parents(acts@);
    let ghost ks = action_keys(acts@);
    let mut r: Vec<Vec<usize>> = Vec::new();
    let mut b: usize = 0;
    while b < acts.len()
        invariant
            views(keys@) == ks,
            ks == action_keys(acts@),
            ps == action_parents(acts@),
            views(keys@).no_duplicates(),
            b <= acts.len(),
            r.len() == b,
            forall|x: int, k: int| 0 <= x < b && 0 <= k < r@[x]@.len() ==> (r@[x]@[k] as int) < keys.len(),
            forall|x: int, a: int|
                0 <= x < b && 0 <= a < keys.len() ==> (r@[x]@.contains(a as usize) <==> ps[x].contains(
                    ks[a],
                )),
            forall|m: EntityUidView|
                #![trigger views(dangling@).contains(m)]
                views(dangling@).contains(m) <==> (views(start).contains(m) || undeclared_parent(
                    ks,
                    ps.subrange(0, b as int),
                    m,
                )),
            views(start).no_duplicates() ==> views(dangling@).no_duplicates(),
        decreases acts.len() - b,
    {
        let ghost db = dangling@;
        let idx = parent_indices(keys, &acts[b].parents, dangling);
        proof {
            assert(ps[b as int] == views(acts@[b as int].parents@));
            assert forall|a: int| 0 <= a < keys.len() implies ks[a] == keys@[a]@ by {
                assert(views(keys@)[a] == keys@[a]@);
            }
            assert forall|m: EntityUidView| #![trigger views(dangling@).contains(m)]
                views(dangling@).contains(m) <==> (views(start).contains(m) || undeclared_parent(
                    ks,
                    ps.subrange(0, b as int + 1),
                    m,
                )) by {
                if undeclared_parent(ks, ps.subrange(0, b as int + 1), m) {
                    let i = choose|i: int|
                        0 <= i < b + 1 && (#[trigger] ps.subrange(0, b as int + 1)[i]).contains(m);
                    if i < b {
                        assert(ps.subrange(0, b as int)[i] == ps[i]);
                        assert(undeclared_parent(ks, ps.subrange(0, b as int), m));
                    }
                }
                if undeclared_parent(ks, ps.subrange(0, b as int), m) {
                    let i = choose|i: int|
                        0 <= i < b && (#[trigger] ps.subrange(0, b as int)[i]).contains(m);
                    assert(ps.subrange(0, b as int + 1)[i] == ps[i]);
                }
                if views(acts@[b as int].parents@).contains(m) && !ks.contains(m) {
                    assert(ps.subrange(0, b as int + 1)[b as int] == ps[b as int]);
                }
            }
        }
        r.push(idx);
        b = b + 1;
    }
    proof {
        assert(ps.subrange(0, acts.len() as int) =~= ps);
        assert(views(keys@).len() == keys.len());
        assert(ks.len() == acts.len() && views(keys@).len() == keys.len() && ps.len() == acts.len());
        assert(parents_rel(r@) =~= action_rel(acts@)) by {
            assert forall|a: int, c: int| #[trigger] parents_rel(r@)(a, c) == action_rel(acts@)(a, c) by {
                if 0 <= a < keys.len() && 0 <= c < keys.len() {
                    assert(r@[c]@.contains(a as usize) == ps[c].contains(ks[a]));
                }
            }
        }
    }
    r
}

/// Where a declared type had to denote a record.
pub enum ContextOrShape {
    /// The context of an action.
    ActionContext(EntityUID),
    /// The shape of an entity type.
    EntityTypeShape(Name),
}

/// Features a schema may use only when asked for.
pub enum UnsupportedFeature {
    /// The ids of the actions that declare attributes.
    ActionAttributes(Vec<String>),
}

/// Why a schema could not be built.
pub enum SchemaError {
    /// A common type is defined twice.
    DuplicateCommonType(Name),
    /// An entity type is declared twice.
    DuplicateEntityType(Name),
    /// An action is declared twice.
    DuplicateAction(EntityUID),
    /// A declared type names a common type that is not defined.
    UndeclaredCommonType(Name),
    /// A shape or a context does not denote a record.
    ContextOrShapeNotRecord(ContextOrShape),
    /// Some action is, directly or not, a member of itself.
    CycleInActionHierarchy,
    /// Every entity type that is named but not declared.
    UndeclaredEntityTypes(Vec<Name>),
    /// Every action that is named as a parent but not declared.
    UndeclaredActions(Vec<EntityUID>),
    /// The schema uses a feature that was not enabled.
    UnsupportedFeature(UnsupportedFeature),
    /// An entity type named `Action` is declared where actions may not
    /// carry attributes.
    ActionEntityTypeDeclared,
}

/// The declared type `s` resolves against `defs` and denotes a record.
pub open spec fn shape_ok(s: SchemaType, defs: Seq<(Name, Type)>) -> bool {
    common_types_defined(s, defs) && denotes_record(s, defs)
}

/// `e` is the error for the declared shape or context `s`, which fails
/// `shape_ok`, at place `at`.
pub open spec fn shape_error(s: SchemaType, defs: Seq<(Name, Type)>, at: ContextOrShape, e: SchemaError) -> bool {
    if !common_types_defined(s, defs) {
        e matches SchemaError::UndeclaredCommonType(n) && refers_to_common(s, n@) && !defines(defs, n@)
    } else {
        &&& e matches SchemaError::ContextOrShapeNotRecord(p)
        &&& match (p, at) {
            (ContextOrShape::EntityTypeShape(x), ContextOrShape::EntityTypeShape(y)) => x@ == y@,
            (ContextOrShape::ActionContext(x), ContextOrShape::ActionContext(y)) => x@ == y@,
            _ => false,
        }
    }
}

/// Resolves one declared shape or context; `at` names it in the error.
fn resolve_record(s: &SchemaType, defs: &Vec<(Name, Type)>, at: ContextOrShape) -> (r: Result<Type, SchemaError>)
    requires
        defined_once(defs@),
    ensures
        r is Ok <==> shape_ok(*s, defs@),
        r matches Ok(t) ==> resolves_to(*s, defs@, t) && t is Record,
        r matches Err(e) ==> shape_error(*s, defs@, at, e),
{
    match s.resolve_type_defs(defs) {
        Ok(t) => {
            proof {
                lemma_resolved_record(*s, defs@, t);
            }
            if matches!(t, Type::Record { .. }) {
                Ok(t)
            } else {
                let ghost at_v = at;
                let e = SchemaError::ContextOrShapeNotRecord(at);
                proof {
                    match at_v {
                        ContextOrShape::EntityTypeShape(_) => {},
                        ContextOrShape::ActionContext(_) => {},
                    }
                }
                Err(e)
            }
        },
        Err(n) => Err(SchemaError::UndeclaredCommonType(n)),
    }
}

/// The resolved shape of each entity-type declaration, or the error of the
/// first one whose shape fails.
fn resolve_shapes(ents: &Vec<EntityTypeFragment>, defs: &Vec<(Name, Type)>) -> (r: Result<Vec<Type>, SchemaError>)
    requires
        defined_once(defs@),
    ensures
        r is Ok <==> forall|i: int| 0 <= i < ents.len() ==> shape_ok(#[trigger] ents@[i].shape, defs@),
        r matches Ok(ts) ==> ts.len() == ents.len() && forall|i: int|
            0 <= i < ents.len() ==> resolves_to(#[trigger] ents@[i].shape, defs@, ts@[i]) && ts@[i] is Record,
        r matches Err(e) ==> exists|i: int|
            0 <= i < ents.len() && !shape_ok(#[trigger] ents@[i].shape, defs@) && shape_error(
                ents@[i].shape,
                defs@,
                ContextOrShape::EntityTypeShape(ents@[i].name),
                e,
            ) && forall|j: int| 0 <= j < i ==> shape_ok(#[trigger] ents@[j].shape, defs@),
{
    let mut ts: Vec<Type> = Vec::new();
    let mut i: usize = 0;
    while i < ents.len()
        invariant
            defined_once(defs@),
            i <= ents.len(),
            ts.len() == i,
            forall|k: int| 0 <= k < i ==> shape_ok(#[trigger] ents@[k].shape, defs@),
            forall|k: int|
                0 <= k < i ==> resolves_to(#[trigger] ents@[k].shape, defs@, ts@[k]) && ts@[k] is Record,
        decreases ents.len() - i,
    {
        let e = &ents[i];
        match resolve_record(&e.shape, defs, ContextOrShape::EntityTypeShape(e.name.clone())) {
            Ok(t) => ts.push(t),
            Err(err) => {
                proof {
                    assert(!shape_ok(ents@[i as int].shape, defs@));
                }
                return Err(err);
            },
        }
        i = i + 1;
    }
    Ok(ts)
}

/// The resolved context of each action declaration, or the error of the
/// first one whose context fails.
fn resolve_contexts(acts: &Vec<ActionFragment>, defs: &Vec<(Name, Type)>) -> (r: Result<Vec<Type>, SchemaError>)
    requires
        defined_once(defs@),
    ensures
        r is Ok <==> forall|i: int| 0 <= i < acts.len() ==> shape_ok(#[trigger] acts@[i].context, defs@),
        r matches Ok(ts) ==> ts.len() == acts.len() && forall|i: int|
            0 <= i < acts.len() ==> resolves_to(#[trigger] acts@[i].context, defs@, ts@[i]) && ts@[i] is Record,
        r matches Err(e) ==> exists|i: int|
            0 <= i < acts.len() && !shape_ok(#[trigger] acts@[i].context, defs@) && shape_error(
                acts@[i].context,
                defs@,
                ContextOrShape::ActionContext(acts@[i].name),
                e,
            ) && forall|j: int| 0 <= j < i ==> shape_ok(#[trigger] acts@[j].context, defs@),
{
    let mut ts: Vec<Type> = Vec::new();
    let mut i: usize = 0;
    while i < acts.len()
        invariant
            defined_once(defs@),
            i <= acts.len(),
            ts.len() == i,
            forall|k: int| 0 <= k < i ==> shape_ok(#[trigger] acts@[k].context, defs@),
            forall|k: int|
                0 <= k < i ==> resolves_to(#[trigger] acts@[k].context, defs@, ts@[k]) && ts@[k] is Record,
        decreases acts.len() - i,
    {
        let e = &acts[i];
        match resolve_record(&e.context, defs, ContextOrShape::ActionContext(e.name.clone())) {
            Ok(t) => ts.push(t),
            Err(err) => {
                proof {
                    assert(!shape_ok(acts@[i as int].context, defs@));
                }
                return Err(err);
            },
        }
        i = i + 1;
    }
    Ok(ts)
}

/// Some type of `ts` names entity type `m`.
pub open spec fn some_type_refers_to(ts: Seq<Type>, m: NameView) -> bool {
    exists|k: int| 0 <= k < ts.len() && refers_to(#[trigger] ts[k], m)
}

/// `m` is a concrete entity type of `v`.
pub open spec fn lists_entity_type(v: Seq<EntityType>, m: NameView) -> bool {
    views(v).contains(Some(m))
}

/// The action `a` applies to principals or resources of type `m`.
pub open spec fn applies_to_type(a: ActionFragment, m: NameView) -> bool {
    lists_entity_type(a.applies_to.principal_types@, m) || lists_entity_type(a.applies_to.resource_types@, m)
}

/// Some action of `acts` applies to entity type `m`.
pub open spec fn some_action_applies_to(acts: Seq<ActionFragment>, m: NameView) -> bool {
    exists|k: int| 0 <= k < acts.len() && applies_to_type(#[trigger] acts[k], m)
}

/// Adds to `undeclared` each type of `ts` that names an entity type not in `declared`.
fn check_types(ts: &Vec<Type>, declared: &Vec<Name>, undeclared: &mut Vec<Name>)
    ensures
        forall|m: NameView|
            #![trigger views(final(undeclared)@).contains(m)]
            views(final(undeclared)@).contains(m) <==> (views(old(undeclared)@).contains(m) || (
            some_type_refers_to(ts@, m) && !views(declared@).contains(m))),
        views(old(undeclared)@).no_duplicates() ==> views(final(undeclared)@).no_duplicates(),
{
    let ghost start = undeclared@;
    let mut i: usize = 0;
    while i < ts.len()
        invariant
            i <= ts.len(),
            forall|m: NameView|
                #![trigger views(undeclared@).contains(m)]
                views(undeclared@).contains(m) <==> (views(start).contains(m) || (
                some_type_refers_to(ts@.subrange(0, i as int), m) && !views(declared@).contains(m))),
            views(start).no_duplicates() ==> views(undeclared@).no_duplicates(),
        decreases ts.len() - i,
    {
        let ghost before = undeclared@;
        ts[i].check_undeclared_in_type(declared, undeclared);
        proof {
            assert forall|m: NameView| #![trigger views(undeclared@).contains(m)]
                views(undeclared@).contains(m) <==> (views(start).contains(m) || (
                some_type_refers_to(ts@.subrange(0, i as int + 1), m) && !views(declared@).contains(m))) by {
                if some_type_refers_to(ts@.subrange(0, i as int + 1), m) {
                    let k = choose|k: int|
                        0 <= k < i + 1 && refers_to(#[trigger] ts@.subrange(0, i as int + 1)[k], m);
                    if k < i {
                        assert(ts@.subrange(0, i as int)[k] == ts@[k]);
                        assert(some_type_refers_to(ts@.subrange(0, i as int), m));
                    }
                }
                if some_type_refers_to(ts@.subrange(0, i as int), m) {
                    let k = choose|k: int| 0 <= k < i && refers_to(#[trigger] ts@.subrange(0, i as int)[k], m);
                    assert(ts@.subrange(0, i as int + 1)[k] == ts@[k]);
                }
                if refers_to(ts@[i as int], m) {
                    assert(ts@.subrange(0, i as int + 1)[i as int] == ts@[i as int]);
                }
            }
        }
        i = i + 1;
    }
    proof {
        assert(ts@.subrange(0, ts.len() as int) =~= ts@);
    }
}

/// Adds to `undeclared` each concrete entity type of `v` not in `declared`.
fn check_entity_types(v: &Vec<EntityType>, declared: &Vec<Name>, undeclared: &mut Vec<Name>)
    ensures
        forall|m: NameView|
            #![trigger views(final(undeclared)@).contains(m)]
            views(final(undeclared)@).contains(m) <==> (views(old(undeclared)@).contains(m) || (
            lists_entity_type(v@, m) && !views(declared@).contains(m))),
        views(old(undeclared)@).no_duplicates() ==> views(final(undeclared)@).no_duplicates(),
{
    let ghost start = undeclared@;
    let mut i: usize = 0;
    while i < v.len()
        invariant
            i <= v.len(),
            forall|m: NameView|
                #![trigger views(undeclared@).contains(m)]
                views(undeclared@).contains(m) <==> (views(start).contains(m) || (lists_entity_type(
                    v@.subrange(0, i as int),
                    m,
                ) && !views(declared@).contains(m))),
            views(start).no_duplicates() ==> views(undeclared@).no_duplicates(),
        decreases v.len() - i,
    {
        let ghost pre = views(v@.subrange(0, i as int));
        proof {
            assert(views(v@.subrange(0, i as int + 1)) =~= pre.push(v@[i as int]@));
        }
        match &v[i] {
            EntityType::Concrete(n) => {
                if !contains_key(declared, n) {
                    insert_key(undeclared, n.clone());
                }
            },
            EntityType::Unspecified => {},
        }
        proof {
            assert forall|m: NameView| #![trigger views(undeclared@).contains(m)]
                views(undeclared@).contains(m) <==> (views(start).contains(m) || (lists_entity_type(
                    v@.subrange(0, i as int + 1),
                    m,
                ) && !views(declared@).contains(m))) by {
                let q = pre.push(v@[i as int]@);
                if q.contains(Some(m)) && !pre.contains(Some(m)) {
                    let k = choose|k: int| 0 <= k < q.len() && q[k] == Some(m);
                    assert(k == pre.len());
                }
                if pre.contains(Some(m)) {
                    let k = choose|k: int| 0 <= k < pre.len() && pre[k] == Some(m);
                    assert(q[k] == Some(m));
                }
                if v@[i as int]@ == Some(m) {
                    assert(q[pre.len() as int] == Some(m));
                }
            }
        }
        i = i + 1;
    }
    proof {
        assert(v@.subrange(0, v.len() as int) =~= v@);
    }
}

/// Adds to `undeclared` each entity type that an action of `acts` applies to
/// and that `declared` does not hold.
fn check_applies_to(acts: &Vec<ActionFragment>, declared: &Vec<Name>, undeclared: &mut Vec<Name>)
    ensures
        forall|m: NameView|
            #![trigger views(final(undeclared)@).contains(m)]
            views(final(undeclared)@).contains(m) <==> (views(old(undeclared)@).contains(m) || (
            some_action_applies_to(acts@, m) && !views(declared@).contains(m))),
        views(old(undeclared)@).no_duplicates() ==> views(final(undeclared)@).no_duplicates(),
{
    let ghost start = undeclared@;
    let mut i: usize = 0;
    while i < acts.len()
        invariant
            i <= acts.len(),
            forall|m: NameView|
                #![trigger views(undeclared@).contains(m)]
                views(undeclared@).contains(m) <==> (views(start).contains(m) || (
                some_action_applies_to(acts@.subrange(0, i as int), m) && !views(declared@).contains(m))),
            views(start).no_duplicates() ==> views(undeclared@).no_duplicates(),
        decreases acts.len() - i,
    {
        check_entity_types(&acts[i].applies_to.principal_types, declared, undeclared);
        check_entity_types(&acts[i].applies_to.resource_types, declared, undeclared);
        proof {
            let q = acts@.subrange(0, i as int + 1);
            let p = acts@.subrange(0, i as int);
            assert forall|m: NameView| #![trigger views(undeclared@).contains(m)]
                views(undeclared@).contains(m) <==> (views(start).contains(m) || (
                some_action_applies_to(q, m) && !views(declared@).contains(m))) by {
                if some_action_applies_to(q, m) {
                    let k = choose|k: int| 0 <= k < i + 1 && applies_to_type(#[trigger] q[k], m);
                    if k < i {
                        assert(p[k] == q[k]);
                        assert(some_action_applies_to(p, m));
                    }
                }
                if some_action_applies_to(p, m) {
                    let k = choose|k: int| 0 <= k < i && applies_to_type(#[trigger] p[k], m);
                    assert(q[k] == p[k]);
                }
                if applies_to_type(acts@[i as int], m) {
                    assert(q[i as int] == acts@[i as int]);
                }
            }
        }
        i = i + 1;
    }
    proof {
        assert(acts@.subrange(0, acts.len() as int) =~= acts@);
    }
}

/// `m` is an entity type that is named but not declared: an undeclared
/// parent, or a type not in `declared` that a shape or a context names or
/// that an action applies to.
pub open spec fn missing_entity_type(
    declared: Seq<NameView>,
    shapes: Seq<Type>,
    undeclared_parents: Seq<NameView>,
    acts: Seq<ActionFragment>,
    contexts: Seq<Type>,
    m: NameView,
) -> bool {
    ||| undeclared_parents.contains(m)
    ||| !declared.contains(m) && (some_type_refers_to(shapes, m) || some_type_refers_to(contexts, m)
        || some_action_applies_to(acts, m))
}

/// Checks that every entity type and every action that is named is declared.
/// Entity types come first: all missing ones are reported together; then
/// all undeclared parent actions.
pub fn check_for_undeclared(
    entity_keys: &Vec<Name>,
    shapes: &Vec<Type>,
    undeclared_parent_entities: Vec<Name>,
    acts: &Vec<ActionFragment>,
    contexts: &Vec<Type>,
    undeclared_parent_actions: Vec<EntityUID>,
) -> (r: Result<(), SchemaError>)
    requires
        views(undeclared_parent_entities@).no_duplicates(),
        views(undeclared_parent_actions@).no_duplicates(),
    ensures
        (exists|m: NameView|
            missing_entity_type(
                views(entity_keys@),
                shapes@,
                views(undeclared_parent_entities@),
                acts@,
                contexts@,
                m,
            )) ==> (r matches Err(SchemaError::UndeclaredEntityTypes(v)) && views(v@).no_duplicates()
            && forall|m: NameView|
            views(v@).contains(m) <==> missing_entity_type(
                views(entity_keys@),
                shapes@,
                views(undeclared_parent_entities@),
                acts@,
                contexts@,
                m,
            )),
        (forall|m: NameView|
            !missing_entity_type(
                views(entity_keys@),
                shapes@,
                views(undeclared_parent_entities@),
                acts@,
                contexts@,
                m,
            )) ==> if undeclared_parent_actions.len() > 0 {
            r == Err::<(), SchemaError>(SchemaError::UndeclaredActions(undeclared_parent_actions))
        } else {
            r is Ok
        },
{
    let ghost ek = views(entity_keys@);
    let ghost upe = views(undeclared_parent_entities@);
    let mut undeclared_e = undeclared_parent_entities;
    check_types(shapes, entity_keys, &mut undeclared_e);
    check_types(contexts, entity_keys, &mut undeclared_e);
    check_applies_to(acts, entity_keys, &mut undeclared_e);
    proof {
        assert forall|m: NameView|
            views(undeclared_e@).contains(m) <==> #[trigger] missing_entity_type(ek, shapes@, upe, acts@, contexts@, m) by {}
    }
    if undeclared_e.len() > 0 {
        proof {
            assert(views(undeclared_e@)[0] == undeclared_e@[0]@);
            assert(missing_entity_type(ek, shapes@, upe, acts@, contexts@, undeclared_e@[0]@));
        }
        return Err(SchemaError::UndeclaredEntityTypes(undeclared_e));
    }
    proof {
        assert forall|m: NameView| !#[trigger] missing_entity_type(ek, shapes@, upe, acts@, contexts@, m) by {
            if missing_entity_type(ek, shapes@, upe, acts@, contexts@, m) {
                assert(views(undeclared_e@).contains(m));
            }
        }
    }
    if undeclared_parent_actions.len() > 0 {
        return Err(SchemaError::UndeclaredActions(undeclared_parent_actions));
    }
    Ok(())
}

/// The keys at positions `idx`, in that order.
fn keys_at<K: Ident>(keys: &Vec<K>, idx: &Vec<usize>) -> (r: Vec<K>)
    requires
        forall|k: int| 0 <= k < idx.len() ==> (idx@[k] as int) < keys.len(),
    ensures
        views(keys@).no_duplicates() && idx@.no_duplicates() ==> views(r@).no_duplicates(),
        forall|m: K::V|
            #![trigger views(r@).contains(m)]
            views(r@).contains(m) <==> exists|j: int|
                0 <= j < keys.len() && idx@.contains(j as usize) && (#[trigger] keys@[j])@ == m,
{
    let mut r: Vec<K> = Vec::new();
    let mut k: usize = 0;
    while k < idx.len()
        invariant
            forall|x: int| 0 <= x < idx.len() ==> (idx@[x] as int) < keys.len(),
            k <= idx.len(),
            r.len() == k,
            forall|x: int| 0 <= x < k ==> r@[x]@ == keys@[idx@[x] as int]@,
        decreases idx.len() - k,
    {
        r.push(keys[idx[k]].duplicate());
        k = k + 1;
    }
    proof {
        assert forall|m: K::V| #![trigger views(r@).contains(m)]
            views(r@).contains(m) <==> exists|j: int|
                0 <= j < keys.len() && idx@.contains(j as usize) && (#[trigger] keys@[j])@ == m by {
            if views(r@).contains(m) {
                let x = choose|x: int| 0 <= x < views(r@).len() && views(r@)[x] == m;
                let j = idx@[x] as int;
                assert(idx@.contains(j as usize));
                assert(keys@[j]@ == m);
            }
            if exists|j: int| 0 <= j < keys.len() && idx@.contains(j as usize) && (#[trigger] keys@[j])@ == m {
                let j = choose|j: int|
                    0 <= j < keys.len() && idx@.contains(j as usize) && (#[trigger] keys@[j])@ == m;
                let x = choose|x: int| 0 <= x < idx.len() && idx@[x] == j as usize;
                assert(views(r@)[x] == m);
            }
        }
        if views(keys@).no_duplicates() && idx@.no_duplicates() {
            assert forall|a: int, b: int|
                0 <= a < views(r@).len() && 0 <= b < views(r@).len() && a != b implies views(r@)[a]
                != views(r@)[b] by {
                assert(idx@[a] != idx@[b]);
                assert(views(keys@)[idx@[a] as int] != views(keys@)[idx@[b] as int]);
            }
        }
    }
    r
}

/// An entity type of a schema: its attributes, and every entity type that
/// is, directly or not, a member of it.
pub struct ValidatorEntityType {
    pub name: Name,
    pub descendants: Vec<Name>,
    pub attributes: Vec<(String, AttributeType)>,
}

/// An action of a schema.
pub struct ValidatorActionId {
    pub name: EntityUID,
    pub applies_to: ValidatorApplySpec,
    /// Every action that is, directly or not, a member of this one.
    pub descendants: Vec<EntityUID>,
    /// The attributes of the context, a closed record.
    pub context: Vec<(String, AttributeType)>,
    pub attributes: Vec<(String, Literal)>,
}

/// A schema: its entity types and its actions.
pub struct ValidatorSchema {
    pub entity_types: Vec<ValidatorEntityType>,
    pub action_ids: Vec<ValidatorActionId>,
}

/// The names of the entity types of a schema, in order.
pub open spec fn entity_type_names(s: ValidatorSchema) -> Seq<NameView> {
    s.entity_types@.map_values(|e: ValidatorEntityType| e.name@)
}

/// The ids of the actions of a schema, in order.
pub open spec fn action_id_names(s: ValidatorSchema) -> Seq<EntityUidView> {
    s.action_ids@.map_values(|a: ValidatorActionId| a.name@)
}

impl ValidatorSchema {
    /// No entity type and no action occurs twice.
    pub open spec fn well_formed(self) -> bool {
        entity_type_names(self).no_duplicates() && action_id_names(self).no_duplicates()
    }
}

/// The common-type definitions of all fragments.
pub open spec fn merged_defs(frags: Seq<ValidatorSchemaFragment>) -> Seq<(Name, Type)> {
    common_types_of(namespaces_of(frags))
}

/// The entity-type declarations of all fragments.
pub open spec fn merged_entities(frags: Seq<ValidatorSchemaFragment>) -> Seq<EntityTypeFragment> {
    entity_types_of(namespaces_of(frags))
}

/// The action declarations of all fragments.
pub open spec fn merged_actions(frags: Seq<ValidatorSchemaFragment>) -> Seq<ActionFragment> {
    actions_of(namespaces_of(frags))
}

/// `m` is an entity type that the declarations name but do not declare: as
/// a parent, inside a shape or a context, or as a type an action applies to.
pub open spec fn undeclared_entity_type(
    defs: Seq<(Name, Type)>,
    ents: Seq<EntityTypeFragment>,
    acts: Seq<ActionFragment>,
    m: NameView,
) -> bool {
    ||| undeclared_parent(entity_keys(ents), entity_parents(ents), m)
    ||| !entity_keys(ents).contains(m) && (
    (exists|i: int| 0 <= i < ents.len() && declared_refers_to(#[trigger] ents[i].shape, defs, m))
        || (exists|i: int| 0 <= i < acts.len() && declared_refers_to(#[trigger] acts[i].context, defs, m))
        || some_action_applies_to(acts, m))
}

/// The descendants `desc` are the keys of exactly the declarations below
/// declaration `i` in hierarchy `g`, each once.
pub open spec fn descendants_are<V>(keys: Seq<V>, g: Rel, i: int, desc: Seq<V>) -> bool {
    &&& desc.no_duplicates()
    &&& forall|m: V|
        #![trigger desc.contains(m)]
        desc.contains(m) <==> exists|j: int| 0 <= j < keys.len() && keys[j] == m && descends(g, i, j)
}

/// `et` is the entity type built from the `i`th entity-type declaration.
pub open spec fn entity_type_built(
    defs: Seq<(Name, Type)>,
    ents: Seq<EntityTypeFragment>,
    i: int,
    et: ValidatorEntityType,
) -> bool {
    &&& et.name@ == ents[i].name@
    &&& exists|open: bool| resolves_to(ents[i].shape, defs, Type::Record { attrs: et.attributes, open })
    &&& descendants_are(entity_keys(ents), entity_rel(ents), i, views(et.descendants@))
}

/// `a` is the action built from the `i`th action declaration.
pub open spec fn action_built(
    defs: Seq<(Name, Type)>,
    acts: Seq<ActionFragment>,
    i: int,
    a: ValidatorActionId,
) -> bool {
    &&& a.name@ == acts[i].name@
    &&& a.applies_to == acts[i].applies_to
    &&& a.attributes == acts[i].attributes
    &&& exists|open: bool| resolves_to(acts[i].context, defs, Type::Record { attrs: a.context, open })
    &&& descendants_are(action_keys(acts), action_rel(acts), i, views(a.descendants@))
}

/// `s` holds one entity type per declaration and one action per
/// declaration, each built from it.
pub open spec fn schema_built(
    defs: Seq<(Name, Type)>,
    ents: Seq<EntityTypeFragment>,
    acts: Seq<ActionFragment>,
    s: ValidatorSchema,
) -> bool {
    &&& s.entity_types.len() == ents.len()
    &&& s.action_ids.len() == acts.len()
    &&& forall|i: int| 0 <= i < ents.len() ==> entity_type_built(defs, ents, i, #[trigger] s.entity_types@[i])
    &&& forall|i: int| 0 <= i < acts.len() ==> action_built(defs, acts, i, #[trigger] s.action_ids@[i])
}

/// What building a schema from the declarations `defs`, `ents`, `acts`
/// gives: the first failing check, in order, or the schema.
pub open spec fn build_outcome(
    defs: Seq<(Name, Type)>,
    ents: Seq<EntityTypeFragment>,
    acts: Seq<ActionFragment>,
    r: Result<ValidatorSchema, SchemaError>,
) -> bool {
    if !common_keys(defs).no_duplicates() {
        r matches Err(SchemaError::DuplicateCommonType(n)) && exists|i: int, j: int|
            0 <= i < j < defs.len() && (#[trigger] defs[i]).0@ == n@ && (#[trigger] defs[j]).0@ == n@
                && common_keys(defs).subrange(0, j).no_duplicates()
    } else if !entity_keys(ents).no_duplicates() {
        r matches Err(SchemaError::DuplicateEntityType(n)) && exists|i: int, j: int|
            0 <= i < j < ents.len() && (#[trigger] ents[i]).name@ == n@ && (#[trigger] ents[j]).name@ == n@
                && entity_keys(ents).subrange(0, j).no_duplicates()
    } else if !action_keys(acts).no_duplicates() {
        r matches Err(SchemaError::DuplicateAction(n)) && exists|i: int, j: int|
            0 <= i < j < acts.len() && (#[trigger] acts[i]).name@ == n@ && (#[trigger] acts[j]).name@ == n@
                && action_keys(acts).subrange(0, j).no_duplicates()
    } else if exists|i: int| 0 <= i < ents.len() && !shape_ok(#[trigger] ents[i].shape, defs) {
        r matches Err(e) && exists|i: int|
            0 <= i < ents.len() && !shape_ok(#[trigger] ents[i].shape, defs) && shape_error(
                ents[i].shape,
                defs,
                ContextOrShape::EntityTypeShape(ents[i].name),
                e,
            ) && forall|j: int| 0 <= j < i ==> shape_ok(#[trigger] ents[j].shape, defs)
    } else if exists|i: int| 0 <= i < acts.len() && !shape_ok(#[trigger] acts[i].context, defs) {
        r matches Err(e) && exists|i: int|
            0 <= i < acts.len() && !shape_ok(#[trigger] acts[i].context, defs) && shape_error(
                acts[i].context,
                defs,
                ContextOrShape::ActionContext(acts[i].name),
                e,
            ) && forall|j: int| 0 <= j < i ==> shape_ok(#[trigger] acts[j].context, defs)
    } else if exists|i: int| 0 <= i < acts.len() && #[trigger] on_cycle(action_rel(acts), i) {
        r matches Err(SchemaError::CycleInActionHierarchy)
    } else if exists|m: NameView| #[trigger] undeclared_entity_type(defs, ents, acts, m) {
        r matches Err(SchemaError::UndeclaredEntityTypes(v)) && views(v@).no_duplicates() && forall|m: NameView|
            #![trigger views(v@).contains(m)]
            views(v@).contains(m) <==> undeclared_entity_type(defs, ents, acts, m)
    } else if exists|m: EntityUidView| #[trigger] undeclared_parent(action_keys(acts), action_parents(acts), m) {
        r matches Err(SchemaError::UndeclaredActions(v)) && views(v@).no_duplicates() && forall|m: EntityUidView|
            #![trigger views(v@).contains(m)]
            views(v@).contains(m) <==> undeclared_parent(action_keys(acts), action_parents(acts), m)
    } else {
        r matches Ok(s) && schema_built(defs, ents, acts, s) && s.well_formed()
    }
}

fn def_names(defs: &Vec<(Name, Type)>) -> (r: Vec<Name>)
    ensures
        views(r@) == common_keys(defs@),
{
    let mut r: Vec<Name> = Vec::new();
    let mut i: usize = 0;
    while i < defs.len()
        invariant
            i <= defs.len(),
            r.len() == i,
            forall|k: int| 0 <= k < i ==> r@[k]@ == defs@[k].0@,
        decreases defs.len() - i,
    {
        r.push(defs[i].0.clone());
        i = i + 1;
    }
    assert(views(r@) =~= common_keys(defs@));
    r
}

fn entity_names(ents: &Vec<EntityTypeFragment>) -> (r: Vec<Name>)
    ensures
        views(r@) == entity_keys(ents@),
{
    let mut r: Vec<Name> = Vec::new();
    let mut i: usize = 0;
    while i < ents.len()
        invariant
            i <= ents.len(),
            r.len() == i,
            forall|k: int| 0 <= k < i ==> r@[k]@ == ents@[k].name@,
        decreases ents.len() - i,
    {
        r.push(ents[i].name.clone());
        i = i + 1;
    }
    assert(views(r@) =~= entity_keys(ents@));
    r
}

fn action_names(acts: &Vec<ActionFragment>) -> (r: Vec<EntityUID>)
    ensures
        views(r@) == action_keys(acts@),
{
    let mut r: Vec<EntityUID> = Vec::new();
    let mut i: usize = 0;
    while i < acts.len()
        invariant
            i <= acts.len(),
            r.len() == i,
            forall|k: int| 0 <= k < i ==> r@[k]@ == acts@[k].name@,
        decreases acts.len() - i,
    {
        r.push(acts[i].name.clone());
        i = i + 1;
    }
    assert(views(r@) =~= action_keys(acts@));
    r
}

/// The entity types built from the declarations, their resolved shapes and
/// the closure of their hierarchy.
fn build_entity_types(
    defs: &Vec<(Name, Type)>,
    ents: &Vec<EntityTypeFragment>,
    keys: &Vec<Name>,
    shapes: Vec<Type>,
    closure: &Vec<Vec<usize>>,
    parents: &Vec<Vec<usize>>,
) -> (r: Vec<ValidatorEntityType>)
    requires
        views(keys@) == entity_keys(ents@),
        views(keys@).no_duplicates(),
        shapes.len() == ents.len(),
        forall|i: int|
            0 <= i < ents.len() ==> resolves_to(#[trigger] ents@[i].shape, defs@, shapes@[i])
                && shapes@[i] is Record,
        is_closure_of(closure@, parents@),
        parents.len() == ents.len(),
        parents_rel(parents@) == entity_rel(ents@),
    ensures
        r.len() == ents.len(),
        forall|i: int| 0 <= i < ents.len() ==> entity_type_built(defs@, ents@, i, #[trigger] r@[i]),
{
    let ghost all_shapes = shapes@;
    let ghost ks = entity_keys(ents@);
    let n = ents.len();
    let mut shapes = shapes;
    assert(views(keys@).len() == keys.len() && ks.len() == ents.len());
    let mut r: Vec<ValidatorEntityType> = Vec::new();
    let mut i: usize = 0;
    while i < n
        invariant
            n == ents.len() == keys.len() == closure.len() == all_shapes.len(),
            views(keys@) == ks,
            ks == entity_keys(ents@),
            views(keys@).no_duplicates(),
            is_closure_of(closure@, parents@),
            parents_rel(parents@) == entity_rel(ents@),
            forall|k: int|
                0 <= k < n ==> resolves_to(#[trigger] ents@[k].shape, defs@, all_shapes[k])
                    && all_shapes[k] is Record,
            i <= n,
            r.len() == i,
            shapes@ == all_shapes.subrange(i as int, n as int),
            forall|k: int| 0 <= k < i ==> entity_type_built(defs@, ents@, k, #[trigger] r@[k]),
        decreases n - i,
    {
        let ghost before = shapes@;
        let t = shapes.remove(0);
        proof {
            assert(before[0] == all_shapes[i as int]);
            assert(shapes@ =~= all_shapes.subrange(i as int + 1, n as int));
        }
        let ghost tv = t;
        let attributes = match t.record_attributes_or_none() {
            Some(attrs) => attrs,
            None => Vec::new(),
        };
        let descendants = keys_at(keys, &closure[i]);
        let et = ValidatorEntityType { name: keys[i].clone(), descendants, attributes };
        proof {
            let open = tv->Record_open;
            assert(tv == Type::Record { attrs: et.attributes, open });
            assert(resolves_to(ents@[i as int].shape, defs@, Type::Record { attrs: et.attributes, open }));
            assert(views(keys@)[i as int] == keys@[i as int]@);
            assert(closure@[i as int]@.no_duplicates());
            assert forall|m: NameView| #![trigger views(et.descendants@).contains(m)]
                views(et.descendants@).contains(m) <==> exists|j: int|
                    0 <= j < ks.len() && ks[j] == m && descends(entity_rel(ents@), i as int, j) by {
                if views(et.descendants@).contains(m) {
                    let j = choose|j: int|
                        0 <= j < keys.len() && closure@[i as int]@.contains(j as usize) && (
                        #[trigger] keys@[j])@ == m;
                    assert(views(keys@)[j] == keys@[j]@);
                    assert(descends(parents_rel(parents@), i as int, j));
                }
                if exists|j: int| 0 <= j < ks.len() && ks[j] == m && descends(entity_rel(ents@), i as int, j) {
                    let j = choose|j: int|
                        0 <= j < ks.len() && ks[j] == m && descends(entity_rel(ents@), i as int, j);
                    assert(views(keys@)[j] == keys@[j]@);
                    assert(closure@[i as int]@.contains(j as usize));
                }
            }
        }
        r.push(et);
        i = i + 1;
    }
    r
}

/// The actions built from the declarations, their resolved contexts and the
/// closure of their hierarchy.
fn build_actions(
    defs: &Vec<(Name, Type)>,
    acts: Vec<ActionFragment>,
    keys: &Vec<EntityUID>,
    contexts: Vec<Type>,
    closure: &Vec<Vec<usize>>,
    parents: &Vec<Vec<usize>>,
) -> (r: Vec<ValidatorActionId>)
    requires
        views(keys@) == action_keys(acts@),
        views(keys@).no_duplicates(),
        contexts.len() == acts.len(),
        forall|i: int|
            0 <= i < acts.len() ==> resolves_to(#[trigger] acts@[i].context, defs@, contexts@[i])
                && contexts@[i] is Record,
        is_closure_of(closure@, parents@),
        parents.len() == acts.len(),
        parents_rel(parents@) == action_rel(acts@),
    ensures
        r.len() == acts.len(),
        forall|i: int| 0 <= i < acts.len() ==> action_built(defs@, acts@, i, #[trigger] r@[i]),
{
    let ghost all_contexts = contexts@;
    let ghost all_acts = acts@;
    let ghost ks = action_keys(acts@);
    let n = acts.len();
    let mut contexts = contexts;
    let mut acts = acts;
    assert(views(keys@).len() == keys.len() && ks.len() == n);
    let mut r: Vec<ValidatorActionId> = Vec::new();
    let mut i: usize = 0;
    while i < n
        invariant
            n == all_acts.len() == keys.len() == closure.len() == all_contexts.len(),
            views(keys@) == ks,
            ks == action_keys(all_acts),
            views(keys@).no_duplicates(),
            is_closure_of(closure@, parents@),
            parents_rel(parents@) == action_rel(all_acts),
            forall|k: int|
                0 <= k < n ==> resolves_to(#[trigger] all_acts[k].context, defs@, all_contexts[k])
                    && all_contexts[k] is Record,
            i <= n,
            r.len() == i,
            contexts@ == all_contexts.subrange(i as int, n as int),
            acts@ == all_acts.subrange(i as int, n as int),
            forall|k: int| 0 <= k < i ==> action_built(defs@, all_acts, k, #[trigger] r@[k]),
        decreases n - i,
    {
        let ghost before = contexts@;
        let ghost before_acts = acts@;
        let t = contexts.remove(0);
        let a = acts.remove(0);
        proof {
            assert(before[0] == all_contexts[i as int]);
            assert(before_acts[0] == all_acts[i as int]);
            assert(contexts@ =~= all_contexts.subrange(i as int + 1, n as int));
            assert(acts@ =~= all_acts.subrange(i as int + 1, n as int));
        }
        let ghost tv = t;
        let context = match t.record_attributes_or_none() {
            Some(attrs) => attrs,
            None => Vec::new(),
        };
        let descendants = keys_at(keys, &closure[i]);
        let ActionFragment { name: _, parents: _, applies_to, context: _, attributes } = a;
        let act = ValidatorActionId { name: keys[i].clone(), applies_to, descendants, context, attributes };
        proof {
            let open = tv->Record_open;
            assert(tv == Type::Record { attrs: act.context, open });
            assert(resolves_to(all_acts[i as int].context, defs@, Type::Record { attrs: act.context, open }));
            assert(views(keys@)[i as int] == keys@[i as int]@);
            assert(closure@[i as int]@.no_duplicates());
            assert forall|m: EntityUidView| #![trigger views(act.descendants@).contains(m)]
                views(act.descendants@).contains(m) <==> exists|j: int|
                    0 <= j < ks.len() && ks[j] == m && descends(action_rel(all_acts), i as int, j) by {
                if views(act.descendants@).contains(m) {
                    let j = choose|j: int|
                        0 <= j < keys.len() && closure@[i as int]@.contains(j as usize) && (
                        #[trigger] keys@[j])@ == m;
                    assert(views(keys@)[j] == keys@[j]@);
                    assert(descends(parents_rel(parents@), i as int, j));
                }
                if exists|j: int| 0 <= j < ks.len() && ks[j] == m && descends(action_rel(all_acts), i as int, j) {
                    let j = choose|j: int|
                        0 <= j < ks.len() && ks[j] == m && descends(action_rel(all_acts), i as int, j);
                    assert(views(keys@)[j] == keys@[j]@);
                    assert(closure@[i as int]@.contains(j as usize));
                }
            }
        }
        r.push(act);
        i = i + 1;
    }
    r
}

proof fn lemma_keys_defined_once(defs: Seq<(Name, Type)>)
    requires
        common_keys(defs).no_duplicates(),
    ensures
        defined_once(defs),
{
    assert forall|i: int, j: int|
        0 <= i < defs.len() && 0 <= j < defs.len() && (#[trigger] defs[i]).0@ == (#[trigger] defs[j]).0@
            implies i == j by {
        assert(common_keys(defs)[i] == common_keys(defs)[j]);
    }
}

proof fn lemma_types_refer(
    defs: Seq<(Name, Type)>,
    decls: Seq<SchemaType>,
    ts: Seq<Type>,
    m: NameView,
)
    requires
        defined_once(defs),
        ts.len() == decls.len(),
        forall|i: int| 0 <= i < decls.len() ==> resolves_to(#[trigger] decls[i], defs, ts[i]),
    ensures
        some_type_refers_to(ts, m) == exists|i: int|
            0 <= i < decls.len() && declared_refers_to(#[trigger] decls[i], defs, m),
{
    if some_type_refers_to(ts, m) {
        let k = choose|k: int| 0 <= k < ts.len() && refers_to(#[trigger] ts[k], m);
        lemma_resolved_refers(decls[k], defs, ts[k], m);
    }
    if exists|i: int| 0 <= i < decls.len() && declared_refers_to(#[trigger] decls[i], defs, m) {
        let k = choose|i: int| 0 <= i < decls.len() && declared_refers_to(#[trigger] decls[i], defs, m);
        lemma_resolved_refers(decls[k], defs, ts[k], m);
    }
}

impl ValidatorSchema {
    /// A schema without entity types or actions.
    pub fn empty() -> (r: ValidatorSchema)
        ensures
            r.entity_types.len() == 0,
            r.action_ids.len() == 0,
    {
        ValidatorSchema { entity_types: Vec::new(), action_ids: Vec::new() }
    }

    /// Builds a schema from some number of fragments: merges their
    /// declarations, rejects duplicates, resolves shapes and contexts, closes
    /// both hierarchies, rejects action cycles and undeclared references.
    pub fn from_schema_fragments(fragments: Vec<ValidatorSchemaFragment>) -> (r: Result<
        ValidatorSchema,
        SchemaError,
    >)
        ensures
            build_outcome(
                merged_defs(fragments@),
                merged_entities(fragments@),
                merged_actions(fragments@),
                r,
            ),
    {
        let (defs, ents, acts) = merge_fragments(fragments);
        let ghost d = defs@;
        let ghost e = ents@;
        let ghost a = acts@;
        let dkeys = def_names(&defs);
        if let Some(i) = first_repeat(&dkeys) {
            proof {
                let j = choose|j: int| 0 <= j < i && (#[trigger] dkeys@[j])@ == dkeys@[i as int]@;
                assert(views(dkeys@)[j] == d[j].0@ && views(dkeys@)[i as int] == d[i as int].0@);
            }
            return Err(SchemaError::DuplicateCommonType(dkeys[i].clone()));
        }
        let ekeys = entity_names(&ents);
        if let Some(i) = first_repeat(&ekeys) {
            proof {
                let j = choose|j: int| 0 <= j < i && (#[trigger] ekeys@[j])@ == ekeys@[i as int]@;
                assert(views(ekeys@)[j] == e[j].name@ && views(ekeys@)[i as int] == e[i as int].name@);
            }
            return Err(SchemaError::DuplicateEntityType(ekeys[i].clone()));
        }
        let akeys = action_names(&acts);
        if let Some(i) = first_repeat(&akeys) {
            proof {
                let j = choose|j: int| 0 <= j < i && (#[trigger] akeys@[j])@ == akeys@[i as int]@;
                assert(views(akeys@)[j] == a[j].name@ && views(akeys@)[i as int] == a[i as int].name@);
            }
            return Err(SchemaError::DuplicateAction(akeys[i].clone()));
        }
        proof {
            lemma_keys_defined_once(d);
        }
        let shapes = match resolve_shapes(&ents, &defs) {
            Ok(ts) => ts,
            Err(err) => return Err(err),
        };
        let contexts = match resolve_contexts(&acts, &defs) {
            Ok(ts) => ts,
            Err(err) => return Err(err),
        };
        let mut undeclared_e: Vec<Name> = Vec::new();
        let e_parents = entity_hierarchy(&ents, &ekeys, &mut undeclared_e);
        let mut undeclared_a: Vec<EntityUID> = Vec::new();
        let a_parents = action_hierarchy(&acts, &akeys, &mut undeclared_a);
        let e_closure = transitive_closure(&e_parents);
        let a_closure = transitive_closure(&a_parents);
        if closure_has_cycle(&a_parents, &a_closure) {
            return Err(SchemaError::CycleInActionHierarchy);
        }
        proof {
            assert(views(Seq::<Name>::empty()) =~= Seq::<NameView>::empty());
            assert(views(Seq::<EntityUID>::empty()) =~= Seq::<EntityUidView>::empty());
            let ghost se = e.map_values(|x: EntityTypeFragment| x.shape);
            let ghost sa = a.map_values(|x: ActionFragment| x.context);
            assert forall|m: NameView|
                #![trigger missing_entity_type(views(ekeys@), shapes@, views(undeclared_e@), a, contexts@, m)]
                #![trigger undeclared_entity_type(d, e, a, m)]
                missing_entity_type(views(ekeys@), shapes@, views(undeclared_e@), a, contexts@, m)
                    == undeclared_entity_type(d, e, a, m) by {
                lemma_types_refer(d, se, shapes@, m);
                lemma_types_refer(d, sa, contexts@, m);
                if exists|i: int| 0 <= i < se.len() && declared_refers_to(#[trigger] se[i], d, m) {
                    let i = choose|i: int| 0 <= i < se.len() && declared_refers_to(#[trigger] se[i], d, m);
                    assert(declared_refers_to(e[i].shape, d, m));
                }
                if exists|i: int| 0 <= i < e.len() && declared_refers_to(#[trigger] e[i].shape, d, m) {
                    let i = choose|i: int| 0 <= i < e.len() && declared_refers_to(#[trigger] e[i].shape, d, m);
                    assert(declared_refers_to(se[i], d, m));
                }
                if exists|i: int| 0 <= i < sa.len() && declared_refers_to(#[trigger] sa[i], d, m) {
                    let i = choose|i: int| 0 <= i < sa.len() && declared_refers_to(#[trigger] sa[i], d, m);
                    assert(declared_refers_to(a[i].context, d, m));
                }
                if exists|i: int| 0 <= i < a.len() && declared_refers_to(#[trigger] a[i].context, d, m) {
                    let i = choose|i: int| 0 <= i < a.len() && declared_refers_to(#[trigger] a[i].context, d, m);
                    assert(declared_refers_to(sa[i], d, m));
                }
            }
            if exists|u: EntityUidView| #[trigger] undeclared_parent(action_keys(a), action_parents(a), u) {
                let u = choose|u: EntityUidView| #[trigger] undeclared_parent(action_keys(a), action_parents(a), u);
                assert(views(undeclared_a@).contains(u));
            }
            if undeclared_a.len() > 0 {
                assert(views(undeclared_a@)[0] == undeclared_a@[0]@);
                assert(views(undeclared_a@).contains(undeclared_a@[0]@));
                assert(undeclared_parent(action_keys(a), action_parents(a), undeclared_a@[0]@));
            }
        }
        match check_for_undeclared(&ekeys, &shapes, undeclared_e, &acts, &contexts, undeclared_a) {
            Ok(()) => {},
            Err(err) => return Err(err),
        }
        let entity_types = build_entity_types(&defs, &ents, &ekeys, shapes, &e_closure, &e_parents);
        let action_ids = build_actions(&defs, acts, &akeys, contexts, &a_closure, &a_parents);
        let s = ValidatorSchema { entity_types, action_ids };
        proof {
            assert(entity_type_names(s) =~= entity_keys(e)) by {
                assert forall|i: int| 0 <= i < e.len() implies entity_type_names(s)[i] == entity_keys(e)[i] by {
                    assert(entity_type_built(d, e, i, s.entity_types@[i]));
                }
            }
            assert(action_id_names(s) =~= action_keys(a)) by {
                assert forall|i: int| 0 <= i < a.len() implies action_id_names(s)[i] == action_keys(a)[i] by {
                    assert(action_built(d, a, i, s.action_ids@[i]));
                }
            }
        }
        Ok(s)
    }
}

/// Declarations of one or more namespaces as a schema file states them.
pub struct SchemaFragment(pub Vec<ValidatorNamespaceDef>);

/// The action declares attributes of its own.
pub open spec fn has_attributes(a: ActionFragment) -> bool {
    a.attributes.len() > 0
}

/// Some action of the namespace declares attributes.
pub open spec fn declares_action_attributes(ns: ValidatorNamespaceDef) -> bool {
    exists|k: int| 0 <= k < ns.actions.len() && has_attributes(#[trigger] ns.actions@[k])
}

/// The ids of the actions of `ns` that declare attributes, in order.
fn attributed_actions(ns: &ValidatorNamespaceDef) -> (r: Vec<String>)
    ensures
        forall|x: Seq<char>|
            strings_view(r@).contains(x) <==> exists|k: int|
                0 <= k < ns.actions.len() && has_attributes(#[trigger] ns.actions@[k]) && ns.actions@[k].name.eid@
                    == x,
{
    let acts = &ns.actions;
    let mut r: Vec<String> = Vec::new();
    let mut i: usize = 0;
    while i < acts.len()
        invariant
            i <= acts.len(),
            forall|x: Seq<char>|
                #![trigger strings_view(r@).contains(x)]
                strings_view(r@).contains(x) <==> exists|k: int|
                    0 <= k < i && has_attributes(#[trigger] acts@[k]) && acts@[k].name.eid@ == x,
        decreases acts.len() - i,
    {
        let ghost before = r@;
        if acts[i].attributes.len() > 0 {
            let ghost sv = acts@[i as int].name.eid;
            r.push(acts[i].name.eid.clone());
            proof {
                lemma_strings_push(before, sv);
            }
        }
        proof {
            assert forall|x: Seq<char>| #![trigger strings_view(r@).contains(x)]
                strings_view(r@).contains(x) <==> exists|k: int|
                    0 <= k < i + 1 && has_attributes(#[trigger] acts@[k]) && acts@[k].name.eid@ == x by {
                if strings_view(before).contains(x) {
                    let k = choose|k: int| 0 <= k < i && has_attributes(#[trigger] acts@[k]) && acts@[k].name.eid@ == x;
                }
                if exists|k: int| 0 <= k < i + 1 && has_attributes(#[trigger] acts@[k]) && acts@[k].name.eid@ == x {
                    let k = choose|k: int|
                        0 <= k < i + 1 && has_attributes(#[trigger] acts@[k]) && acts@[k].name.eid@ == x;
                    if k < i {
                        assert(strings_view(before).contains(x));
                    }
                }
            }
        }
        i = i + 1;
    }
    r
}

/// The namespace declares an entity type whose base name is `Action`.
pub open spec fn declares_action_entity_type(ns: ValidatorNamespaceDef) -> bool {
    exists|k: int| 0 <= k < ns.entity_types.len() && (#[trigger] ns.entity_types@[k]).name@.1 == "Action"@
}

/// The namespace uses what only permitted action attributes allow.
pub open spec fn needs_action_attributes(ns: ValidatorNamespaceDef) -> bool {
    declares_action_entity_type(ns) || declares_action_attributes(ns)
}

/// `e` is the error for namespace `ns`, which needs action attributes: an
/// entity type named `Action` comes first, then the actions with attributes.
pub open spec fn prohibited_error(ns: ValidatorNamespaceDef, e: SchemaError) -> bool {
    if declares_action_entity_type(ns) {
        e is ActionEntityTypeDeclared
    } else {
        action_attributes_error(ns, e)
    }
}

/// Whether the namespace declares an entity type whose base name is `Action`.
fn check_action_entity_type(ns: &ValidatorNamespaceDef) -> (r: bool)
    ensures
        r == declares_action_entity_type(*ns),
{
    let action = String::from_str("Action");
    proof {
        reveal_strlit("Action");
    }
    let mut i: usize = 0;
    while i < ns.entity_types.len()
        invariant
            action@ == "Action"@,
            i <= ns.entity_types.len(),
            forall|k: int| 0 <= k < i ==> (#[trigger] ns.entity_types@[k]).name@.1 != "Action"@,
        decreases ns.entity_types.len() - i,
    {
        if *ns.entity_types[i].name.basename() == action {
            return true;
        }
        i = i + 1;
    }
    false
}

/// `e` is the error for action attributes declared in namespace `ns`: it
/// lists exactly the ids of the actions there that declare attributes.
pub open spec fn action_attributes_error(ns: ValidatorNamespaceDef, e: SchemaError) -> bool {
    e matches SchemaError::UnsupportedFeature(UnsupportedFeature::ActionAttributes(ids)) && forall|x: Seq<char>|
        #![trigger strings_view(ids@).contains(x)]
        strings_view(ids@).contains(x) <==> exists|k: int|
            0 <= k < ns.actions.len() && has_attributes(#[trigger] ns.actions@[k]) && ns.actions@[k].name.eid@
                == x
}

impl ValidatorSchemaFragment {
    /// The fragment made of the given namespaces.
    pub fn from_namespaces(namespaces: Vec<ValidatorNamespaceDef>) -> (r: ValidatorSchemaFragment)
        ensures
            r.0 == namespaces,
    {
        ValidatorSchemaFragment(namespaces)
    }

    /// The fragment of a schema file. Unless `action_behavior` permits
    /// them, neither an entity type named `Action` nor actions with
    /// attributes may be declared: the first namespace that does gives an
    /// error.
    pub fn from_schema_fragment(fragment: SchemaFragment, action_behavior: ActionBehavior) -> (r: Result<
        ValidatorSchemaFragment,
        SchemaError,
    >)
        ensures
            action_behavior == ActionBehavior::PermitAttributes || (forall|i: int|
                0 <= i < fragment.0.len() ==> !needs_action_attributes(#[trigger] fragment.0@[i]))
                ==> (r matches Ok(f) && f.0 == fragment.0),
            action_behavior == ActionBehavior::ProhibitAttributes && (exists|i: int|
                0 <= i < fragment.0.len() && needs_action_attributes(#[trigger] fragment.0@[i]))
                ==> (r matches Err(e) && exists|i: int|
                0 <= i < fragment.0.len() && needs_action_attributes(#[trigger] fragment.0@[i])
                    && prohibited_error(fragment.0@[i], e) && forall|j: int|
                    0 <= j < i ==> !needs_action_attributes(#[trigger] fragment.0@[j])),
    {
        if action_behavior == ActionBehavior::ProhibitAttributes {
            let nss = &fragment.0;
            let mut i: usize = 0;
            while i < nss.len()
                invariant
                    i <= nss.len(),
                    forall|j: int| 0 <= j < i ==> !needs_action_attributes(#[trigger] nss@[j]),
                    nss@ == fragment.0@,
                    action_behavior == ActionBehavior::ProhibitAttributes,
                decreases nss.len() - i,
            {
                if check_action_entity_type(&nss[i]) {
                    proof {
                        assert(needs_action_attributes(fragment.0@[i as int]));
                    }
                    return Err(SchemaError::ActionEntityTypeDeclared);
                }
                let ids = attributed_actions(&nss[i]);
                if ids.len() > 0 {
                    proof {
                        let x = ids@[0]@;
                        assert(strings_view(ids@)[0] == x);
                        assert(strings_view(ids@).contains(x));
                        assert(declares_action_attributes(nss@[i as int]));
                        assert(needs_action_attributes(fragment.0@[i as int]));
                        assert(action_attributes_error(
                            fragment.0@[i as int],
                            SchemaError::UnsupportedFeature(UnsupportedFeature::ActionAttributes(ids)),
                        ));
                    }
                    return Err(SchemaError::UnsupportedFeature(UnsupportedFeature::ActionAttributes(ids)));
                }
                proof {
                    assert forall|k: int| 0 <= k < nss@[i as int].actions.len() implies !has_attributes(
                        #[trigger] nss@[i as int].actions@[k],
                    ) by {
                        if has_attributes(nss@[i as int].actions@[k]) {
                            let x = nss@[i as int].actions@[k].name.eid@;
                            assert(strings_view(ids@).contains(x));
                        }
                    }
                }
                i = i + 1;
            }
        }
        Ok(ValidatorSchemaFragment(fragment.0))
    }

    /// The namespace of each namespace definition, in order.
    pub fn namespaces(&self) -> (r: Vec<Option<Name>>)
        ensures
            r.len() == self.0.len(),
            forall|i: int|
                0 <= i < r.len() ==> (#[trigger] r@[i] is Some) == (self.0@[i].namespace is Some),
            forall|i: int|
                0 <= i < r.len() && r@[i] is Some ==> (#[trigger] r@[i])->0@ == self.0@[i].namespace->0@,
    {
        let mut r: Vec<Option<Name>> = Vec::new();
        let mut i: usize = 0;
        while i < self.0.len()
            invariant
                i <= self.0.len(),
                r.len() == i,
                forall|k: int| 0 <= k < i ==> (#[trigger] r@[k] is Some) == (self.0@[k].namespace is Some),
                forall|k: int| 0 <= k < i && r@[k] is Some ==> (#[trigger] r@[k])->0@ == self.0@[k].namespace->0@,
            decreases self.0.len() - i,
        {
            let n = match &self.0[i].namespace {
                Some(n) => Some(n.clone()),
                None => None,
            };
            r.push(n);
            i = i + 1;
        }
        r
    }
}

impl ValidatorSchema {
    /// Builds a schema from one schema file.
    pub fn from_schema_file(schema_file: SchemaFragment, action_behavior: ActionBehavior) -> (r: Result<
        ValidatorSchema,
        SchemaError,
    >)
        ensures
            action_behavior == ActionBehavior::PermitAttributes || (forall|i: int|
                0 <= i < schema_file.0.len() ==> !needs_action_attributes(#[trigger] schema_file.0@[i]))
                ==> build_outcome(
                merged_defs(seq![ValidatorSchemaFragment(schema_file.0)]),
                merged_entities(seq![ValidatorSchemaFragment(schema_file.0)]),
                merged_actions(seq![ValidatorSchemaFragment(schema_file.0)]),
                r,
            ),
            action_behavior == ActionBehavior::ProhibitAttributes && (exists|i: int|
                0 <= i < schema_file.0.len() && needs_action_attributes(#[trigger] schema_file.0@[i]))
                ==> (r matches Err(e) && exists|i: int|
                0 <= i < schema_file.0.len() && needs_action_attributes(#[trigger] schema_file.0@[i])
                    && prohibited_error(schema_file.0@[i], e) && forall|j: int|
                    0 <= j < i ==> !needs_action_attributes(#[trigger] schema_file.0@[j])),
    {
        let ghost nss = schema_file.0;
        let f = match ValidatorSchemaFragment::from_schema_fragment(schema_file, action_behavior) {
            Ok(f) => f,
            Err(e) => return Err(e),
        };
        let ghost fv = f;
        let fragments = vec![f];
        proof {
            assert(fragments@ =~= seq![fv]);
        }
        Self::from_schema_fragments(fragments)
    }
}

} // verus!
