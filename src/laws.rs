//! Laws of schema construction: the closure is idempotent and transitive,
//! a built schema refers only to what it declares, action cycles are
//! rejected, and undeclared entity types are reported all at once.
use crate::closure::{
    descends, edge, lemma_closure_is_fixed_point, lemma_descends_transitive, lemma_edge_descends,
    on_cycle, Rel,
};
use crate::names::{views, EntityUidView, Name, NameView};
use crate::schema::{
    action_built, action_id_names, action_keys, action_parents, action_rel, applies_to_type,
    build_outcome, common_keys, entity_keys, entity_parents, entity_rel, entity_type_built,
    entity_type_names, schema_built, shape_ok, some_action_applies_to, undeclared_entity_type,
    ActionFragment, EntityTypeFragment, SchemaError, ValidatorSchema,
};
use crate::types::Type;
use vstd::prelude::*;

verus! {

/// The hierarchy whose links are the descendant links of `g`.
pub open spec fn closed_rel(g: Rel) -> Rel {
    |a: int, b: int| descends(g, a, b)
}

/// Computing descendants is idempotent: two schemas built from the same
/// declarations give each entity type the same descendants, and closing the
/// closed entity-type hierarchy once more changes nothing.
pub proof fn lemma_closure_idempotent(
    defs: Seq<(Name, Type)>,
    ents: Seq<EntityTypeFragment>,
    acts: Seq<ActionFragment>,
    s1: ValidatorSchema,
    s2: ValidatorSchema,
)
    requires
        schema_built(defs, ents, acts, s1),
        schema_built(defs, ents, acts, s2),
    ensures
        forall|i: int, m: NameView|
            0 <= i < ents.len() ==> (views(s1.entity_types@[i].descendants@).contains(m) <==> views(
                s2.entity_types@[i].descendants@,
            ).contains(m)),
        forall|a: int, b: int|
            descends(closed_rel(entity_rel(ents)), a, b) <==> descends(entity_rel(ents), a, b),
{
    assert forall|i: int, m: NameView|
        0 <= i < ents.len() implies (views(s1.entity_types@[i].descendants@).contains(m) <==> views(
            s2.entity_types@[i].descendants@,
        ).contains(m)) by {
        assert(entity_type_built(defs, ents, i, s1.entity_types@[i]));
        assert(entity_type_built(defs, ents, i, s2.entity_types@[i]));
    }
    lemma_closure_is_fixed_point(entity_rel(ents), closed_rel(entity_rel(ents)));
}

/// "Member of" is transitive: if entity type X is a descendant of Y and Y a
/// descendant of Z, then X is a descendant of Z.
pub proof fn lemma_member_of_transitive(
    defs: Seq<(Name, Type)>,
    ents: Seq<EntityTypeFragment>,
    acts: Seq<ActionFragment>,
    s: ValidatorSchema,
    x: int,
    y: int,
    z: int,
)
    requires
        schema_built(defs, ents, acts, s),
        entity_keys(ents).no_duplicates(),
        0 <= x < ents.len(),
        0 <= y < ents.len(),
        0 <= z < ents.len(),
        views(s.entity_types@[y].descendants@).contains(ents[x].name@),
        views(s.entity_types@[z].descendants@).contains(ents[y].name@),
    ensures
        views(s.entity_types@[z].descendants@).contains(ents[x].name@),
{
    let ks = entity_keys(ents);
    let g = entity_rel(ents);
    assert(entity_type_built(defs, ents, y, s.entity_types@[y]));
    assert(entity_type_built(defs, ents, z, s.entity_types@[z]));
    let j1 = choose|j: int| 0 <= j < ks.len() && ks[j] == ents[x].name@ && descends(g, y, j);
    let j2 = choose|j: int| 0 <= j < ks.len() && ks[j] == ents[y].name@ && descends(g, z, j);
    assert(ks[x] == ents[x].name@ && ks[y] == ents[y].name@);
    assert(j1 == x);
    assert(j2 == y);
    lemma_descends_transitive(g, z, y, x);
}

/// An entity type that lists Y among its parents is a descendant of Y.
pub proof fn lemma_parent_has_child(
    defs: Seq<(Name, Type)>,
    ents: Seq<EntityTypeFragment>,
    acts: Seq<ActionFragment>,
    s: ValidatorSchema,
    x: int,
    y: int,
)
    requires
        schema_built(defs, ents, acts, s),
        0 <= x < ents.len(),
        0 <= y < ents.len(),
        views(ents[x].parents@).contains(ents[y].name@),
    ensures
        views(s.entity_types@[y].descendants@).contains(ents[x].name@),
{
    let g = entity_rel(ents);
    assert(entity_parents(ents)[x] == views(ents[x].parents@));
    assert(entity_keys(ents)[y] == ents[y].name@);
    assert(edge(g, y, x));
    lemma_edge_descends(g, y, x);
    assert(entity_type_built(defs, ents, y, s.entity_types@[y]));
    assert(entity_keys(ents)[x] == ents[x].name@);
}

/// A schema built from declarations refers only to what it declares: every
/// entity type an action applies to, every descendant of an entity type,
/// and every descendant of an action is declared in it.
pub proof fn lemma_built_schema_is_closed(
    defs: Seq<(Name, Type)>,
    ents: Seq<EntityTypeFragment>,
    acts: Seq<ActionFragment>,
    r: Result<ValidatorSchema, SchemaError>,
)
    requires
        build_outcome(defs, ents, acts, r),
        r is Ok,
    ensures
        forall|i: int, m: NameView|
            0 <= i < acts.len() && #[trigger] applies_to_type(acts[i], m) ==> entity_type_names(
                r->Ok_0,
            ).contains(m),
        forall|i: int, m: NameView|
            0 <= i < ents.len() && #[trigger] views(r->Ok_0.entity_types@[i].descendants@).contains(m)
                ==> entity_type_names(r->Ok_0).contains(m),
        forall|i: int, m: EntityUidView|
            0 <= i < acts.len() && #[trigger] views(r->Ok_0.action_ids@[i].descendants@).contains(m)
                ==> action_id_names(r->Ok_0).contains(m),
{
    let s = r->Ok_0;
    assert(entity_type_names(s) =~= entity_keys(ents)) by {
        assert forall|i: int| 0 <= i < ents.len() implies entity_type_names(s)[i] == entity_keys(ents)[i] by {
            assert(entity_type_built(defs, ents, i, s.entity_types@[i]));
        }
    }
    assert(action_id_names(s) =~= action_keys(acts)) by {
        assert forall|i: int| 0 <= i < acts.len() implies action_id_names(s)[i] == action_keys(acts)[i] by {
            assert(action_built(defs, acts, i, s.action_ids@[i]));
        }
    }
    assert forall|i: int, m: NameView|
        0 <= i < acts.len() && #[trigger] applies_to_type(acts[i], m) implies entity_type_names(s).contains(m) by {
        assert(some_action_applies_to(acts, m));
        assert(!undeclared_entity_type(defs, ents, acts, m));
    }
    assert forall|i: int, m: NameView|
        0 <= i < ents.len() && #[trigger] views(s.entity_types@[i].descendants@).contains(m) implies entity_type_names(
        s,
    ).contains(m) by {
        assert(entity_type_built(defs, ents, i, s.entity_types@[i]));
        let j = choose|j: int|
            0 <= j < entity_keys(ents).len() && entity_keys(ents)[j] == m && descends(entity_rel(ents), i, j);
        assert(entity_type_names(s)[j] == m);
    }
    assert forall|i: int, m: EntityUidView|
        0 <= i < acts.len() && #[trigger] views(s.action_ids@[i].descendants@).contains(m) implies action_id_names(
        s,
    ).contains(m) by {
        assert(action_built(defs, acts, i, s.action_ids@[i]));
        let j = choose|j: int|
            0 <= j < action_keys(acts).len() && action_keys(acts)[j] == m && descends(action_rel(acts), i, j);
        assert(action_id_names(s)[j] == m);
    }
}

/// An action that is a member of itself, directly or through others, makes
/// building fail with the cycle error once the declarations are unique and
/// every shape and context resolves; other actions cannot mask it.
pub proof fn lemma_action_cycle_rejected(
    defs: Seq<(Name, Type)>,
    ents: Seq<EntityTypeFragment>,
    acts: Seq<ActionFragment>,
    r: Result<ValidatorSchema, SchemaError>,
    i: int,
)
    requires
        build_outcome(defs, ents, acts, r),
        common_keys(defs).no_duplicates(),
        entity_keys(ents).no_duplicates(),
        action_keys(acts).no_duplicates(),
        forall|k: int| 0 <= k < ents.len() ==> shape_ok(#[trigger] ents[k].shape, defs),
        forall|k: int| 0 <= k < acts.len() ==> shape_ok(#[trigger] acts[k].context, defs),
        0 <= i < acts.len(),
        on_cycle(action_rel(acts), i),
    ensures
        r matches Err(SchemaError::CycleInActionHierarchy),
{
}

/// An action that lists itself among its parents is on a cycle.
pub proof fn lemma_self_member_on_cycle(acts: Seq<ActionFragment>, i: int)
    requires
        0 <= i < acts.len(),
        views(acts[i].parents@).contains(acts[i].name@),
    ensures
        on_cycle(action_rel(acts), i),
{
    assert(action_parents(acts)[i] == views(acts[i].parents@));
    assert(action_keys(acts)[i] == acts[i].name@);
    assert(edge(action_rel(acts), i, i));
    lemma_edge_descends(action_rel(acts), i, i);
}

/// Undeclared entity types are reported all at once: when the checks before
/// pass and some entity type is named but not declared, building fails with
/// one error that lists every such entity type.
pub proof fn lemma_undeclared_reported_together(
    defs: Seq<(Name, Type)>,
    ents: Seq<EntityTypeFragment>,
    acts: Seq<ActionFragment>,
    r: Result<ValidatorSchema, SchemaError>,
    m: NameView,
)
    requires
        build_outcome(defs, ents, acts, r),
        common_keys(defs).no_duplicates(),
        entity_keys(ents).no_duplicates(),
        action_keys(acts).no_duplicates(),
        forall|k: int| 0 <= k < ents.len() ==> shape_ok(#[trigger] ents[k].shape, defs),
        forall|k: int| 0 <= k < acts.len() ==> shape_ok(#[trigger] acts[k].context, defs),
        forall|k: int| 0 <= k < acts.len() ==> !#[trigger] on_cycle(action_rel(acts), k),
        undeclared_entity_type(defs, ents, acts, m),
    ensures
        r matches Err(SchemaError::UndeclaredEntityTypes(v)) && forall|x: NameView|
            #![trigger views(v@).contains(x)]
            views(v@).contains(x) <==> undeclared_entity_type(defs, ents, acts, x),
{
}

/// Closing an already closed hierarchy changes nothing: where a second set of
/// declarations has the same entity types and actions, and each lists as its
/// parents exactly what it descends from in the first, both schemas give
/// every entity type and every action the same descendants.
pub proof fn lemma_closed_rebuild_keeps_descendants(
    defs: Seq<(Name, Type)>,
    ents: Seq<EntityTypeFragment>,
    acts: Seq<ActionFragment>,
    s: ValidatorSchema,
    defs2: Seq<(Name, Type)>,
    ents2: Seq<EntityTypeFragment>,
    acts2: Seq<ActionFragment>,
    s2: ValidatorSchema,
)
    requires
        schema_built(defs, ents, acts, s),
        schema_built(defs2, ents2, acts2, s2),
        entity_keys(ents2) == entity_keys(ents),
        action_keys(acts2) == action_keys(acts),
        forall|a: int, b: int| edge(entity_rel(ents2), a, b) <==> descends(entity_rel(ents), a, b),
        forall|a: int, b: int| edge(action_rel(acts2), a, b) <==> descends(action_rel(acts), a, b),
    ensures
        forall|i: int, m: NameView|
            0 <= i < ents.len() ==> (views(s.entity_types@[i].descendants@).contains(m) <==> views(
                s2.entity_types@[i].descendants@,
            ).contains(m)),
        forall|i: int, m: EntityUidView|
            0 <= i < acts.len() ==> (views(s.action_ids@[i].descendants@).contains(m) <==> views(
                s2.action_ids@[i].descendants@,
            ).contains(m)),
{
    lemma_closure_is_fixed_point(entity_rel(ents), entity_rel(ents2));
    lemma_closure_is_fixed_point(action_rel(acts), action_rel(acts2));
    assert(ents2.len() == entity_keys(ents2).len());
    assert(acts2.len() == action_keys(acts2).len());
    assert forall|i: int, m: NameView|
        0 <= i < ents.len() implies (views(s.entity_types@[i].descendants@).contains(m) <==> views(
            s2.entity_types@[i].descendants@,
        ).contains(m)) by {
        assert(entity_type_built(defs, ents, i, s.entity_types@[i]));
        assert(entity_type_built(defs2, ents2, i, s2.entity_types@[i]));
    }
    assert forall|i: int, m: EntityUidView|
        0 <= i < acts.len() implies (views(s.action_ids@[i].descendants@).contains(m) <==> views(
            s2.action_ids@[i].descendants@,
        ).contains(m)) by {
        assert(action_built(defs, acts, i, s.action_ids@[i]));
        assert(action_built(defs2, acts2, i, s2.action_ids@[i]));
    }
}

} // verus!
