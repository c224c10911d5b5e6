//! Action entities materialized from a schema, and the description of a
//! schema offered to entity-conformance checking.
use crate::names::{contains_key, contains_string, copy_keys, insert_key, lemma_strings_push, strings_view, views, EntityType, EntityUID, EntityUidView, Name, NameView};
use crate::query::copy_attributes;
use crate::schema::{entity_type_names, Literal, ValidatorEntityType, ValidatorSchema};
use crate::types::{same_type, AttributeType, Type};
use vstd::prelude::*;

verus! {

impl Clone for Literal {
    fn clone(&self) -> (r: Self)
        ensures
            r == *self,
    {
        match self {
            Literal::Bool(b) => Literal::Bool(*b),
            Literal::Long(n) => Literal::Long(*n),
            Literal::String(s) => Literal::String(s.clone()),
        }
    }
}

/// A copy of a list of literal attributes.
pub fn copy_literals(v: &Vec<(String, Literal)>) -> (r: Vec<(String, Literal)>)
    ensures
        r@ == v@,
{
    let mut r: Vec<(String, Literal)> = Vec::new();
    let mut i: usize = 0;
    while i < v.len()
        invariant
            i <= v.len(),
            r@ == v@.subrange(0, i as int),
        decreases v.len() - i,
    {
        let (k, x) = &v[i];
        r.push((k.clone(), x.clone()));
        proof {
            assert(r@ =~= v@.subrange(0, i as int + 1));
        }
        i = i + 1;
    }
    proof {
        assert(v@.subrange(0, v.len() as int) =~= v@);
    }
    r
}

/// An entity: its uid, its attributes and its ancestors.
pub struct Entity {
    pub uid: EntityUID,
    pub attrs: Vec<(String, Literal)>,
    pub ancestors: Vec<EntityUID>,
}

impl Entity {
    /// The entity with the given uid, attributes and ancestors.
    pub fn new(uid: EntityUID, attrs: Vec<(String, Literal)>, ancestors: Vec<EntityUID>) -> (r: Entity)
        ensures
            r.uid == uid,
            r.attrs == attrs,
            r.ancestors == ancestors,
    {
        Entity { uid, attrs, ancestors }
    }

    /// The uid of this entity.
    pub fn uid(&self) -> (r: EntityUID)
        ensures
            r@ == self.uid@,
    {
        self.uid.clone()
    }

    /// Whether `uid` is among the ancestors of this entity.
    pub fn has_ancestor(&self, uid: &EntityUID) -> (r: bool)
        ensures
            r == views(self.ancestors@).contains(uid@),
    {
        contains_key(&self.ancestors, uid)
    }
}

/// A collection of entities.
pub struct Entities {
    pub entities: Vec<Entity>,
}

impl Entities {
    /// The entity with the given uid, if there is one.
    pub fn entity(&self, uid: &EntityUID) -> (r: Option<&Entity>)
        ensures
            r is Some <==> exists|i: int| 0 <= i < self.entities.len() && (#[trigger] self.entities@[i]).uid@ == uid@,
            r matches Some(e) ==> e.uid@ == uid@ && exists|i: int|
                0 <= i < self.entities.len() && self.entities@[i] == *e,
    {
        let mut i: usize = 0;
        while i < self.entities.len()
            invariant
                i <= self.entities.len(),
                forall|k: int| 0 <= k < i ==> self.entities@[k].uid@ != uid@,
            decreases self.entities.len() - i,
        {
            if self.entities[i].uid.same(uid) {
                return Some(&self.entities[i]);
            }
            i = i + 1;
        }
        None
    }
}

/// Action `m` is an ancestor of action `u`: some action with id `m` lists
/// `u` among its descendants.
pub open spec fn action_ancestor(s: ValidatorSchema, u: EntityUidView, m: EntityUidView) -> bool {
    exists|j: int|
        0 <= j < s.action_ids.len() && (#[trigger] s.action_ids@[j]).name@ == m && views(
            s.action_ids@[j].descendants@,
        ).contains(u)
}

/// `e` is the entity of the `i`th action of `s`.
pub open spec fn action_entity(s: ValidatorSchema, i: int, e: Entity) -> bool {
    &&& e.uid@ == s.action_ids@[i].name@
    &&& e.attrs@ == s.action_ids@[i].attributes@
    &&& views(e.ancestors@).no_duplicates()
    &&& forall|m: EntityUidView|
        #![trigger views(e.ancestors@).contains(m)]
        views(e.ancestors@).contains(m) <==> action_ancestor(s, s.action_ids@[i].name@, m)
}

impl ValidatorSchema {
    /// The ancestors of an action: every action that lists it among its descendants.
    fn action_ancestors(&self, uid: &EntityUID) -> (r: Vec<EntityUID>)
        ensures
            views(r@).no_duplicates(),
            forall|m: EntityUidView|
                #![trigger views(r@).contains(m)]
                views(r@).contains(m) <==> action_ancestor(*self, uid@, m),
    {
        let mut r: Vec<EntityUID> = Vec::new();
        let mut j: usize = 0;
        while j < self.action_ids.len()
            invariant
                j <= self.action_ids.len(),
                views(r@).no_duplicates(),
                forall|m: EntityUidView|
                    #![trigger views(r@).contains(m)]
                    views(r@).contains(m) <==> exists|k: int|
                        0 <= k < j && (#[trigger] self.action_ids@[k]).name@ == m && views(
                            self.action_ids@[k].descendants@,
                        ).contains(uid@),
            decreases self.action_ids.len() - j,
        {
            if contains_key(&self.action_ids[j].descendants, uid) {
                insert_key(&mut r, self.action_ids[j].name.clone());
            }
            proof {
                assert forall|m: EntityUidView| #![trigger views(r@).contains(m)]
                    views(r@).contains(m) <==> exists|k: int|
                        0 <= k < j + 1 && (#[trigger] self.action_ids@[k]).name@ == m && views(
                            self.action_ids@[k].descendants@,
                        ).contains(uid@) by {
                    if exists|k: int|
                        0 <= k < j + 1 && (#[trigger] self.action_ids@[k]).name@ == m && views(
                            self.action_ids@[k].descendants@,
                        ).contains(uid@) {
                        let k = choose|k: int|
                            0 <= k < j + 1 && (#[trigger] self.action_ids@[k]).name@ == m && views(
                                self.action_ids@[k].descendants@,
                            ).contains(uid@);
                        if k < j {
                            assert(views(r@).contains(m));
                        }
                    }
                }
            }
            j = j + 1;
        }
        r
    }

    /// One entity per action, in order: its uid, its literal attributes, and
    /// as ancestors every action that has it among its descendants.
    pub fn action_entities_iter(&self) -> (r: Vec<Entity>)
        ensures
            r.len() == self.action_ids.len(),
            forall|i: int| 0 <= i < r.len() ==> action_entity(*self, i, #[trigger] r@[i]),
    {
        let mut r: Vec<Entity> = Vec::new();
        let mut i: usize = 0;
        while i < self.action_ids.len()
            invariant
                i <= self.action_ids.len(),
                r.len() == i,
                forall|k: int| 0 <= k < i ==> action_entity(*self, k, #[trigger] r@[k]),
            decreases self.action_ids.len() - i,
        {
            let a = &self.action_ids[i];
            let ancestors = self.action_ancestors(&a.name);
            let e = Entity { uid: a.name.clone(), attrs: copy_literals(&a.attributes), ancestors };
            r.push(e);
            i = i + 1;
        }
        r
    }

    /// The entities of all actions.
    pub fn action_entities(&self) -> (r: Entities)
        ensures
            r.entities.len() == self.action_ids.len(),
            forall|i: int| 0 <= i < r.entities.len() ==> action_entity(*self, i, #[trigger] r.entities@[i]),
    {
        Entities { entities: self.action_entities_iter() }
    }
}

/// `c` is a copy of entity type `e`: the same name, descendants and
/// attributes, attribute by attribute.
pub open spec fn copies_entity_type(e: ValidatorEntityType, c: ValidatorEntityType) -> bool {
    &&& c.name@ == e.name@
    &&& views(c.descendants@) == views(e.descendants@)
    &&& c.attributes.len() == e.attributes.len()
    &&& forall|k: int|
        0 <= k < e.attributes.len() ==> {
            &&& (#[trigger] e.attributes@[k]).0@ == c.attributes@[k].0@
            &&& e.attributes@[k].1.is_required == c.attributes@[k].1.is_required
            &&& same_type(e.attributes@[k].1.attr_type, c.attributes@[k].1.attr_type)
        }
}

/// `d` describes the entity type named `n` of `s`: its type is `n`, it holds
/// a copy of the schema's entry for `n`, and its allowed parent types are
/// exactly the entity types that have `n` among their descendants, each once.
pub open spec fn describes(s: ValidatorSchema, n: NameView, d: EntityTypeDescription) -> bool {
    &&& d.core_type@ == Some(n)
    &&& exists|i: int|
        0 <= i < s.entity_types.len() && (#[trigger] s.entity_types@[i]).name@ == n
            && copies_entity_type(s.entity_types@[i], d.validator_type)
    &&& views(d.allowed_parent_types@).no_duplicates()
    &&& forall|p: Option<NameView>|
        #![trigger views(d.allowed_parent_types@).contains(p)]
        views(d.allowed_parent_types@).contains(p) <==> (p is Some && allowed_parent(s, n, p->0))
}

impl ValidatorEntityType {
    /// A copy of this entity type.
    pub fn duplicate(&self) -> (r: ValidatorEntityType)
        ensures
            copies_entity_type(*self, r),
    {
        ValidatorEntityType {
            name: self.name.clone(),
            descendants: copy_keys(&self.descendants),
            attributes: copy_attributes(&self.attributes),
        }
    }

    /// The declared type of an attribute, if the entity type has it.
    pub fn attr(&self, attr: &String) -> (r: Option<&AttributeType>)
        ensures
            r is Some <==> exists|k: int| 0 <= k < self.attributes.len() && (#[trigger] self.attributes@[k]).0@ == attr@,
            r matches Some(a) ==> exists|k: int|
                0 <= k < self.attributes.len() && self.attributes@[k].0@ == attr@ && self.attributes@[k].1 == *a,
    {
        let mut i: usize = 0;
        while i < self.attributes.len()
            invariant
                i <= self.attributes.len(),
                forall|k: int| 0 <= k < i ==> self.attributes@[k].0@ != attr@,
            decreases self.attributes.len() - i,
        {
            if self.attributes[i].0 == *attr {
                return Some(&self.attributes[i].1);
            }
            i = i + 1;
        }
        None
    }
}

/// `p` may be a parent of an entity of type `n`: the entity type `p` has `n`
/// among its descendants.
pub open spec fn allowed_parent(s: ValidatorSchema, n: NameView, p: NameView) -> bool {
    exists|j: int|
        0 <= j < s.entity_types.len() && (#[trigger] s.entity_types@[j]).name@ == p && views(
            s.entity_types@[j].descendants@,
        ).contains(n)
}

/// What entity-conformance checking needs to know of one entity type.
pub struct EntityTypeDescription {
    pub core_type: EntityType,
    pub validator_type: ValidatorEntityType,
    /// The entity types an entity of this type may have as parents.
    pub allowed_parent_types: Vec<EntityType>,
}

impl EntityTypeDescription {
    /// The description of the named entity type; `None` if the schema does
    /// not declare it.
    pub fn new(schema: &ValidatorSchema, entity_type_id: &Name) -> (r: Option<EntityTypeDescription>)
        ensures
            r is Some <==> entity_type_names(*schema).contains(entity_type_id@),
            r matches Some(d) ==> describes(*schema, entity_type_id@, d),
    {
        let (validator_type, Ghost(at)) = match schema.get_entity_type(entity_type_id) {
            Some(et) => {
                let ghost i = choose|i: int|
                    0 <= i < schema.entity_types.len() && schema.entity_types@[i] == *et && et.name@
                        == entity_type_id@;
                (et.duplicate(), Ghost(i))
            },
            None => return None,
        };
        let mut set: Vec<EntityType> = Vec::new();
        let mut j: usize = 0;
        while j < schema.entity_types.len()
            invariant
                0 <= at < schema.entity_types.len(),
                schema.entity_types@[at].name@ == entity_type_id@,
                copies_entity_type(schema.entity_types@[at], validator_type),
                j <= schema.entity_types.len(),
                views(set@).no_duplicates(),
                forall|p: Option<NameView>|
                    #![trigger views(set@).contains(p)]
                    views(set@).contains(p) <==> (p is Some && exists|k: int|
                        0 <= k < j && (#[trigger] schema.entity_types@[k]).name@ == p->0 && views(
                            schema.entity_types@[k].descendants@,
                        ).contains(entity_type_id@)),
            decreases schema.entity_types.len() - j,
        {
            let possible_parent = &schema.entity_types[j];
            if contains_key(&possible_parent.descendants, entity_type_id) {
                insert_key(&mut set, EntityType::Concrete(possible_parent.name.clone()));
            }
            proof {
                assert forall|p: Option<NameView>| #![trigger views(set@).contains(p)]
                    views(set@).contains(p) <==> (p is Some && exists|k: int|
                        0 <= k < j + 1 && (#[trigger] schema.entity_types@[k]).name@ == p->0 && views(
                            schema.entity_types@[k].descendants@,
                        ).contains(entity_type_id@)) by {
                    if p is Some && exists|k: int|
                        0 <= k < j + 1 && (#[trigger] schema.entity_types@[k]).name@ == p->0 && views(
                            schema.entity_types@[k].descendants@,
                        ).contains(entity_type_id@) {
                        let k = choose|k: int|
                            0 <= k < j + 1 && (#[trigger] schema.entity_types@[k]).name@ == p->0 && views(
                                schema.entity_types@[k].descendants@,
                            ).contains(entity_type_id@);
                        if k < j {
                            assert(views(set@).contains(p));
                        }
                    }
                }
            }
            j = j + 1;
        }
        let d = EntityTypeDescription {
            core_type: EntityType::Concrete(entity_type_id.clone()),
            validator_type,
            allowed_parent_types: set,
        };
        proof {
            assert(copies_entity_type(schema.entity_types@[at], d.validator_type));
        }
        Some(d)
    }

    /// The entity type described.
    pub fn entity_type(&self) -> (r: EntityType)
        ensures
            r@ == self.core_type@,
    {
        self.core_type.clone()
    }

    /// The type of an attribute, if the entity type declares it.
    pub fn attr_type(&self, attr: &String) -> (r: Option<Type>)
        ensures
            r is Some <==> exists|k: int|
                0 <= k < self.validator_type.attributes.len() && (#[trigger] self.validator_type.attributes@[k]).0@ == attr@,
            r matches Some(t) ==> exists|k: int|
                0 <= k < self.validator_type.attributes.len() && self.validator_type.attributes@[k].0@ == attr@
                    && same_type(self.validator_type.attributes@[k].1.attr_type, t),
    {
        match self.validator_type.attr(attr) {
            Some(a) => Some(a.attr_type.duplicate()),
            None => None,
        }
    }

    /// The names of the required attributes, in order.
    pub fn required_attrs(&self) -> (r: Vec<String>)
        ensures
            strings_view(r@).no_duplicates(),
            forall|x: Seq<char>|
                #![trigger strings_view(r@).contains(x)]
                strings_view(r@).contains(x) <==> exists|k: int|
                    0 <= k < self.validator_type.attributes.len() && (#[trigger] self.validator_type.attributes@[k]).0@ == x
                        && self.validator_type.attributes@[k].1.is_required,
    {
        let attrs = &self.validator_type.attributes;
        let mut r: Vec<String> = Vec::new();
        let mut i: usize = 0;
        while i < attrs.len()
            invariant
                i <= attrs.len(),
                strings_view(r@).no_duplicates(),
                forall|x: Seq<char>|
                    #![trigger strings_view(r@).contains(x)]
                    strings_view(r@).contains(x) <==> exists|k: int|
                        0 <= k < i && (#[trigger] attrs@[k]).0@ == x && attrs@[k].1.is_required,
            decreases attrs.len() - i,
        {
            let ghost before = r@;
            let ghost sv = attrs@[i as int].0;
            if attrs[i].1.is_required && !contains_string(&r, &attrs[i].0) {
                r.push(attrs[i].0.clone());
                proof {
                    lemma_strings_push(before, sv);
                    assert(strings_view(r@) =~= strings_view(before).push(sv@));
                }
            }
            proof {
                assert forall|x: Seq<char>| #![trigger strings_view(r@).contains(x)]
                    strings_view(r@).contains(x) <==> exists|k: int|
                        0 <= k < i + 1 && (#[trigger] attrs@[k]).0@ == x && attrs@[k].1.is_required by {
                    if strings_view(before).contains(x) {
                        let k = choose|k: int| 0 <= k < i && (#[trigger] attrs@[k]).0@ == x && attrs@[k].1.is_required;
                    }
                    if exists|k: int| 0 <= k < i + 1 && (#[trigger] attrs@[k]).0@ == x && attrs@[k].1.is_required {
                        let k = choose|k: int|
                            0 <= k < i + 1 && (#[trigger] attrs@[k]).0@ == x && attrs@[k].1.is_required;
                        if k < i {
                            assert(strings_view(before).contains(x));
                        }
                    }
                }
            }
            i = i + 1;
        }
        r
    }

    /// The entity types an entity of this type may have as parents.
    pub fn allowed_parent_types(&self) -> (r: &Vec<EntityType>)
        ensures
            *r == self.allowed_parent_types,
    {
        &self.allowed_parent_types
    }
}

/// A schema together with the entities of its actions, as offered to
/// entity-conformance checking.
pub struct CoreSchema<'a> {
    pub schema: &'a ValidatorSchema,
    pub actions: Vec<Entity>,
}

impl<'a> CoreSchema<'a> {
    /// The schema with the entities of its actions built once.
    pub fn new(schema: &'a ValidatorSchema) -> (r: CoreSchema<'a>)
        ensures
            *r.schema == *schema,
            r.actions.len() == schema.action_ids.len(),
            forall|i: int| 0 <= i < r.actions.len() ==> action_entity(*schema, i, #[trigger] r.actions@[i]),
    {
        CoreSchema { actions: schema.action_entities_iter(), schema }
    }

    /// The description of an entity type; `None` for the unspecified type
    /// and for types the schema does not declare.
    pub fn entity_type(&self, entity_type: &EntityType) -> (r: Option<EntityTypeDescription>)
        ensures
            r is Some <==> exists|n: NameView| entity_type@ == Some(n) && entity_type_names(*self.schema).contains(n),
            r matches Some(d) ==> (entity_type@ matches Some(n) && describes(*self.schema, n, d)),
    {
        match entity_type {
            EntityType::Unspecified => None,
            EntityType::Concrete(name) => EntityTypeDescription::new(self.schema, name),
        }
    }

    /// The entity of an action, if the schema declares it.
    pub fn action(&self, action: &EntityUID) -> (r: Option<&Entity>)
        ensures
            r is Some <==> exists|i: int| 0 <= i < self.actions.len() && (#[trigger] self.actions@[i]).uid@ == action@,
            r matches Some(e) ==> e.uid@ == action@ && exists|i: int|
                0 <= i < self.actions.len() && self.actions@[i] == *e,
    {
        let mut i: usize = 0;
        while i < self.actions.len()
            invariant
                i <= self.actions.len(),
                forall|k: int| 0 <= k < i ==> self.actions@[k].uid@ != action@,
            decreases self.actions.len() - i,
        {
            if self.actions[i].uid.same(action) {
                return Some(&self.actions[i]);
            }
            i = i + 1;
        }
        None
    }

    /// Every declared entity type whose base name is `basename`, in order.
    pub fn entity_types_with_basename(&self, basename: &String) -> (r: Vec<EntityType>)
        ensures
            views(r@).no_duplicates(),
            forall|p: Option<NameView>|
                #![trigger views(r@).contains(p)]
                views(r@).contains(p) <==> (p is Some && (p->0).1 == basename@ && entity_type_names(
                    *self.schema,
                ).contains(p->0)),
    {
        let ets = &self.schema.entity_types;
        let mut r: Vec<EntityType> = Vec::new();
        let mut i: usize = 0;
        while i < ets.len()
            invariant
                i <= ets.len(),
                views(r@).no_duplicates(),
                forall|p: Option<NameView>|
                    #![trigger views(r@).contains(p)]
                    views(r@).contains(p) <==> (p is Some && (p->0).1 == basename@ && exists|k: int|
                        0 <= k < i && (#[trigger] ets@[k]).name@ == p->0),
            decreases ets.len() - i,
        {
            if *ets[i].name.basename() == *basename {
                insert_key(&mut r, EntityType::Concrete(ets[i].name.clone()));
            }
            proof {
                assert forall|p: Option<NameView>| #![trigger views(r@).contains(p)]
                    views(r@).contains(p) <==> (p is Some && (p->0).1 == basename@ && exists|k: int|
                        0 <= k < i + 1 && (#[trigger] ets@[k]).name@ == p->0) by {
                    if p is Some && (p->0).1 == basename@ && exists|k: int|
                        0 <= k < i + 1 && (#[trigger] ets@[k]).name@ == p->0 {
                        let k = choose|k: int| 0 <= k < i + 1 && (#[trigger] ets@[k]).name@ == p->0;
                        if k < i {
                            assert(views(r@).contains(p));
                        }
                    }
                }
            }
            i = i + 1;
        }
        proof {
            assert forall|n: NameView|
                entity_type_names(*self.schema).contains(n) <==> exists|k: int|
                    0 <= k < ets.len() && (#[trigger] ets@[k]).name@ == n by {
                if entity_type_names(*self.schema).contains(n) {
                    let k = choose|k: int|
                        0 <= k < entity_type_names(*self.schema).len() && entity_type_names(*self.schema)[k] == n;
                    assert(ets@[k].name@ == n);
                }
                if exists|k: int| 0 <= k < ets.len() && (#[trigger] ets@[k]).name@ == n {
                    let k = choose|k: int| 0 <= k < ets.len() && (#[trigger] ets@[k]).name@ == n;
                    assert(entity_type_names(*self.schema)[k] == n);
                }
            }
        }
        r
    }

    /// The entities of all actions.
    pub fn action_entities(&self) -> (r: &Vec<Entity>)
        ensures
            *r == self.actions,
    {
        &self.actions
    }
}

} // verus!
