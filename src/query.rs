//! Lookups and iteration over a built [`ValidatorSchema`].
use crate::names::{copy_keys, insert_key, views, EntityType, EntityUID, EntityUidView, Name, NameView};
use crate::schema::{action_id_names, entity_type_names, ValidatorActionId, ValidatorEntityType, ValidatorSchema};
use crate::types::{same_type, AttributeType, Type};
use vstd::prelude::*;

verus! {

/// A copy of a list of attributes, attribute by attribute.
pub fn copy_attributes(v: &Vec<(String, AttributeType)>) -> (r: Vec<(String, AttributeType)>)
    ensures
        r.len() == v.len(),
        forall|k: int|
            0 <= k < v.len() ==> {
                &&& (#[trigger] v@[k]).0@ == r@[k].0@
                &&& v@[k].1.is_required == r@[k].1.is_required
                &&& same_type(v@[k].1.attr_type, r@[k].1.attr_type)
            },
{
    let mut r: Vec<(String, AttributeType)> = Vec::new();
    let mut i: usize = 0;
    while i < v.len()
        invariant
            i <= v.len(),
            r.len() == i,
            forall|k: int|
                0 <= k < i ==> {
                    &&& (#[trigger] v@[k]).0@ == r@[k].0@
                    &&& v@[k].1.is_required == r@[k].1.is_required
                    &&& same_type(v@[k].1.attr_type, r@[k].1.attr_type)
                },
        decreases v.len() - i,
    {
        let (k, a) = &v[i];
        r.push((k.clone(), AttributeType { attr_type: a.attr_type.duplicate(), is_required: a.is_required }));
        i = i + 1;
    }
    r
}

/// The type of the context of one action: a closed record.
pub struct ContextSchema(pub Type);

impl ContextSchema {
    /// The record type of the context.
    pub fn context_type(&self) -> (r: Type)
        ensures
            same_type(self.0, r),
    {
        self.0.duplicate()
    }
}

impl ValidatorSchema {
    /// The action with the given id, if the schema declares it.
    pub fn get_action_id(&self, action_id: &EntityUID) -> (r: Option<&ValidatorActionId>)
        ensures
            r is Some <==> action_id_names(*self).contains(action_id@),
            r matches Some(a) ==> exists|i: int|
                0 <= i < self.action_ids.len() && self.action_ids@[i] == *a && a.name@ == action_id@,
    {
        let mut i: usize = 0;
        while i < self.action_ids.len()
            invariant
                i <= self.action_ids.len(),
                forall|k: int| 0 <= k < i ==> self.action_ids@[k].name@ != action_id@,
            decreases self.action_ids.len() - i,
        {
            if self.action_ids[i].name.same(action_id) {
                assert(action_id_names(*self)[i as int] == action_id@);
                return Some(&self.action_ids[i]);
            }
            i = i + 1;
        }
        proof {
            assert forall|k: int| 0 <= k < action_id_names(*self).len() implies action_id_names(*self)[k]
                != action_id@ by {
                assert(action_id_names(*self)[k] == self.action_ids@[k].name@);
            }
        }
        None
    }

    /// The entity type with the given name, if the schema declares it.
    pub fn get_entity_type(&self, entity_type_id: &Name) -> (r: Option<&ValidatorEntityType>)
        ensures
            r is Some <==> entity_type_names(*self).contains(entity_type_id@),
            r matches Some(e) ==> exists|i: int|
                0 <= i < self.entity_types.len() && self.entity_types@[i] == *e && e.name@
                    == entity_type_id@,
    {
        let mut i: usize = 0;
        while i < self.entity_types.len()
            invariant
                i <= self.entity_types.len(),
                forall|k: int| 0 <= k < i ==> self.entity_types@[k].name@ != entity_type_id@,
            decreases self.entity_types.len() - i,
        {
            if self.entity_types[i].name.same(entity_type_id) {
                assert(entity_type_names(*self)[i as int] == entity_type_id@);
                return Some(&self.entity_types[i]);
            }
            i = i + 1;
        }
        proof {
            assert forall|k: int| 0 <= k < entity_type_names(*self).len() implies entity_type_names(
                *self,
            )[k] != entity_type_id@ by {
                assert(entity_type_names(*self)[k] == self.entity_types@[k].name@);
            }
        }
        None
    }

    /// Whether the schema declares the action.
    pub fn is_known_action_id(&self, action_id: &EntityUID) -> (r: bool)
        ensures
            r == action_id_names(*self).contains(action_id@),
    {
        self.get_action_id(action_id).is_some()
    }

    /// Whether the schema declares the entity type.
    pub fn is_known_entity_type(&self, entity_type: &Name) -> (r: bool)
        ensures
            r == entity_type_names(*self).contains(entity_type@),
    {
        self.get_entity_type(entity_type).is_some()
    }

    /// The ids of all actions, in order.
    pub fn known_action_ids(&self) -> (r: Vec<EntityUID>)
        ensures
            views(r@) == action_id_names(*self),
    {
        let mut r: Vec<EntityUID> = Vec::new();
        let mut i: usize = 0;
        while i < self.action_ids.len()
            invariant
                i <= self.action_ids.len(),
                r.len() == i,
                forall|k: int| 0 <= k < i ==> r@[k]@ == self.action_ids@[k].name@,
            decreases self.action_ids.len() - i,
        {
            r.push(self.action_ids[i].name.clone());
            i = i + 1;
        }
        assert(views(r@) =~= action_id_names(*self));
        r
    }

    /// The names of all entity types, in order.
    pub fn known_entity_types(&self) -> (r: Vec<Name>)
        ensures
            views(r@) == entity_type_names(*self),
    {
        let mut r: Vec<Name> = Vec::new();
        let mut i: usize = 0;
        while i < self.entity_types.len()
            invariant
                i <= self.entity_types.len(),
                r.len() == i,
                forall|k: int| 0 <= k < i ==> r@[k]@ == self.entity_types@[k].name@,
            decreases self.entity_types.len() - i,
        {
            r.push(self.entity_types[i].name.clone());
            i = i + 1;
        }
        assert(views(r@) =~= entity_type_names(*self));
        r
    }

    /// All entity types with their descriptions.
    pub fn entity_types(&self) -> (r: &Vec<ValidatorEntityType>)
        ensures
            *r == self.entity_types,
    {
        &self.entity_types
    }

    /// The context type of an action: the closed record of its context
    /// attributes; `None` if the schema does not declare the action.
    pub fn get_context_schema(&self, action: &EntityUID) -> (r: Option<ContextSchema>)
        ensures
            r is Some <==> action_id_names(*self).contains(action@),
            r matches Some(c) ==> exists|i: int|
                0 <= i < self.action_ids.len() && self.action_ids@[i].name@ == action@ && same_type(
                    Type::Record { attrs: self.action_ids@[i].context, open: false },
                    c.0,
                ),
    {
        match self.get_action_id(action) {
            Some(a) => {
                let attrs = copy_attributes(&a.context);
                Some(ContextSchema(Type::Record { attrs, open: false }))
            },
            None => None,
        }
    }
}

/// Entity `m` is in entity `euid`'s hierarchy: `euid`'s type is a declared
/// entity type, and `m` is that type or one of its descendants.
pub open spec fn entity_type_in(s: ValidatorSchema, euid: EntityUidView, m: NameView) -> bool {
    exists|i: int|
        0 <= i < s.entity_types.len() && euid.0 == Some((#[trigger] s.entity_types@[i]).name@) && (m
            == s.entity_types@[i].name@ || views(s.entity_types@[i].descendants@).contains(m))
}

/// Action `m` is in action `euid`'s hierarchy: `euid` is a declared action,
/// and `m` is that action or one of its descendants.
pub open spec fn action_in(s: ValidatorSchema, euid: EntityUidView, m: EntityUidView) -> bool {
    exists|i: int|
        0 <= i < s.action_ids.len() && euid == (#[trigger] s.action_ids@[i]).name@ && (m == euid
            || views(s.action_ids@[i].descendants@).contains(m))
}

/// Selects entity types, for principals and resources.
pub enum PrincipalOrResourceHeadVar {
    PrincipalOrResource,
}

/// Selects actions.
pub enum ActionHeadVar {
    Action,
}

impl PrincipalOrResourceHeadVar {
    /// All entity types of the schema.
    pub fn get_known_vars(&self, schema: &ValidatorSchema) -> (r: Vec<Name>)
        ensures
            views(r@) == entity_type_names(*schema),
    {
        schema.known_entity_types()
    }

    /// The type of an entity, unless it is unspecified.
    pub fn get_euid_component(&self, euid: EntityUID) -> (r: Option<Name>)
        ensures
            r is Some <==> euid.ty is Concrete,
            r matches Some(n) ==> euid.ty@ == Some(n@),
    {
        match euid.ty {
            EntityType::Unspecified => None,
            EntityType::Concrete(name) => Some(name),
        }
    }

    /// The type of an entity, if the schema declares it.
    pub fn get_euid_component_if_present(&self, schema: &ValidatorSchema, euid: EntityUID) -> (r:
        Option<Name>)
        ensures
            r is Some <==> exists|n: NameView| euid.ty@ == Some(n) && entity_type_names(*schema).contains(n),
            r matches Some(n) ==> euid.ty@ == Some(n@),
    {
        let euid_component = match self.get_euid_component(euid) {
            Some(c) => c,
            None => return None,
        };
        if schema.is_known_entity_type(&euid_component) {
            Some(euid_component)
        } else {
            None
        }
    }

    /// The descendants of an entity's type, if the schema declares it.
    pub fn get_descendants_if_present<'a>(&self, schema: &'a ValidatorSchema, euid: EntityUID) -> (r:
        Option<&'a Vec<Name>>)
        ensures
            r is Some <==> exists|n: NameView| euid.ty@ == Some(n) && entity_type_names(*schema).contains(n),
            r matches Some(d) ==> exists|i: int|
                0 <= i < schema.entity_types.len() && euid.ty@ == Some(schema.entity_types@[i].name@)
                    && *d == schema.entity_types@[i].descendants,
    {
        let euid_component = match self.get_euid_component(euid) {
            Some(c) => c,
            None => return None,
        };
        match schema.get_entity_type(&euid_component) {
            Some(entity_type) => Some(&entity_type.descendants),
            None => None,
        }
    }
}

impl ActionHeadVar {
    /// All actions of the schema.
    pub fn get_known_vars(&self, schema: &ValidatorSchema) -> (r: Vec<EntityUID>)
        ensures
            views(r@) == action_id_names(*schema),
    {
        schema.known_action_ids()
    }

    /// The action itself.
    pub fn get_euid_component(&self, euid: EntityUID) -> (r: Option<EntityUID>)
        ensures
            r == Some(euid),
    {
        Some(euid)
    }

    /// The action, if the schema declares it.
    pub fn get_euid_component_if_present(&self, schema: &ValidatorSchema, euid: EntityUID) -> (r:
        Option<EntityUID>)
        ensures
            r is Some <==> action_id_names(*schema).contains(euid@),
            r matches Some(a) ==> a == euid,
    {
        if schema.is_known_action_id(&euid) {
            Some(euid)
        } else {
            None
        }
    }

    /// The descendants of an action, if the schema declares it.
    pub fn get_descendants_if_present<'a>(&self, schema: &'a ValidatorSchema, euid: EntityUID) -> (r:
        Option<&'a Vec<EntityUID>>)
        ensures
            r is Some <==> action_id_names(*schema).contains(euid@),
            r matches Some(d) ==> exists|i: int|
                0 <= i < schema.action_ids.len() && schema.action_ids@[i].name@ == euid@ && *d
                    == schema.action_ids@[i].descendants,
    {
        match schema.get_action_id(&euid) {
            Some(action_id) => Some(&action_id.descendants),
            None => None,
        }
    }
}

impl ValidatorSchema {
    /// The entity type equal to an entity's type, unless it is unspecified.
    pub fn get_entity_eq(&self, var: PrincipalOrResourceHeadVar, euid: EntityUID) -> (r: Option<Name>)
        ensures
            r is Some <==> euid.ty is Concrete,
            r matches Some(n) ==> euid.ty@ == Some(n@),
    {
        var.get_euid_component(euid)
    }

    /// The action equal to the given one.
    pub fn get_action_eq(&self, var: ActionHeadVar, euid: EntityUID) -> (r: Option<EntityUID>)
        ensures
            r == Some(euid),
    {
        var.get_euid_component(euid)
    }

    /// The entity types in an entity's type: its descendants and the type
    /// itself; nothing if the schema does not declare it.
    pub fn get_entities_in(&self, var: PrincipalOrResourceHeadVar, euid: EntityUID) -> (r: Vec<Name>)
        requires
            self.well_formed(),
        ensures
            forall|m: NameView|
                #![trigger views(r@).contains(m)]
                views(r@).contains(m) <==> entity_type_in(*self, euid@, m),
    {
        let ghost ev = euid@;
        let name = match var.get_euid_component(euid) {
            Some(n) => n,
            None => return Vec::new(),
        };
        match self.get_entity_type(&name) {
            Some(et) => {
                let mut r = copy_keys(&et.descendants);
                let ghost desc = r@;
                r.push(name);
                proof {
                    let i = choose|i: int|
                        0 <= i < self.entity_types.len() && self.entity_types@[i] == *et && et.name@ == name@;
                    assert forall|m: NameView| #![trigger views(r@).contains(m)]
                        views(r@).contains(m) <==> entity_type_in(*self, ev, m) by {
                        assert(views(r@) =~= views(desc).push(name@));
                        if views(r@).contains(m) {
                            let k = choose|k: int| 0 <= k < views(r@).len() && views(r@)[k] == m;
                            if k < desc.len() {
                                assert(views(desc)[k] == m);
                            }
                            assert(ev.0 == Some((self.entity_types@[i]).name@));
                        }
                        if entity_type_in(*self, ev, m) {
                            let i2 = choose|i2: int|
                                0 <= i2 < self.entity_types.len() && ev.0 == Some(
                                    (#[trigger] self.entity_types@[i2]).name@,
                                ) && (m == self.entity_types@[i2].name@ || views(
                                    self.entity_types@[i2].descendants@,
                                ).contains(m));
                            assert(entity_type_names(*self)[i2] == entity_type_names(*self)[i]);
                            if m == name@ {
                                assert(views(r@)[desc.len() as int] == m);
                            } else {
                                let k = choose|k: int| 0 <= k < views(desc).len() && views(desc)[k] == m;
                                assert(views(r@)[k] == m);
                            }
                        }
                    }
                }
                r
            },
            None => {
                proof {
                    assert forall|m: NameView| !entity_type_in(*self, ev, m) by {
                        if entity_type_in(*self, ev, m) {
                            let i2 = choose|i2: int|
                                0 <= i2 < self.entity_types.len() && ev.0 == Some(
                                    (#[trigger] self.entity_types@[i2]).name@,
                                ) && (m == self.entity_types@[i2].name@ || views(
                                    self.entity_types@[i2].descendants@,
                                ).contains(m));
                            assert(entity_type_names(*self)[i2] == name@);
                        }
                    }
                }
                Vec::new()
            },
        }
    }
}

impl ValidatorSchema {
    /// The actions in an action: its descendants and the action itself;
    /// nothing if the schema does not declare it.
    pub fn get_actions_in(&self, var: ActionHeadVar, euid: EntityUID) -> (r: Vec<EntityUID>)
        requires
            self.well_formed(),
        ensures
            forall|m: EntityUidView|
                #![trigger views(r@).contains(m)]
                views(r@).contains(m) <==> action_in(*self, euid@, m),
    {
        let ghost ev = euid@;
        let uid = match var.get_euid_component(euid) {
            Some(u) => u,
            None => return Vec::new(),
        };
        match self.get_action_id(&uid) {
            Some(a) => {
                let mut r = copy_keys(&a.descendants);
                let ghost desc = r@;
                r.push(uid);
                proof {
                    let i = choose|i: int|
                        0 <= i < self.action_ids.len() && self.action_ids@[i] == *a && a.name@ == ev;
                    assert forall|m: EntityUidView| #![trigger views(r@).contains(m)]
                        views(r@).contains(m) <==> action_in(*self, ev, m) by {
                        assert(views(r@) =~= views(desc).push(ev));
                        if views(r@).contains(m) {
                            let k = choose|k: int| 0 <= k < views(r@).len() && views(r@)[k] == m;
                            if k < desc.len() {
                                assert(views(desc)[k] == m);
                            }
                            assert(ev == (self.action_ids@[i]).name@);
                        }
                        if action_in(*self, ev, m) {
                            let i2 = choose|i2: int|
                                0 <= i2 < self.action_ids.len() && ev == (
                                #[trigger] self.action_ids@[i2]).name@ && (m == ev || views(
                                    self.action_ids@[i2].descendants@,
                                ).contains(m));
                            assert(action_id_names(*self)[i2] == action_id_names(*self)[i]);
                            if m == ev {
                                assert(views(r@)[desc.len() as int] == m);
                            } else {
                                let k = choose|k: int| 0 <= k < views(desc).len() && views(desc)[k] == m;
                                assert(views(r@)[k] == m);
                            }
                        }
                    }
                }
                r
            },
            None => {
                proof {
                    assert forall|m: EntityUidView| !action_in(*self, ev, m) by {
                        if action_in(*self, ev, m) {
                            let i2 = choose|i2: int|
                                0 <= i2 < self.action_ids.len() && ev == (
                                #[trigger] self.action_ids@[i2]).name@ && (m == ev || views(
                                    self.action_ids@[i2].descendants@,
                                ).contains(m));
                            assert(action_id_names(*self)[i2] == ev);
                        }
                    }
                }
                Vec::new()
            },
        }
    }

    /// The entity types in any of the entities' types, each once.
    pub fn get_entities_in_set(&self, var: PrincipalOrResourceHeadVar, euids: Vec<EntityUID>) -> (r:
        Vec<Name>)
        requires
            self.well_formed(),
        ensures
            views(r@).no_duplicates(),
            forall|m: NameView|
                #![trigger views(r@).contains(m)]
                views(r@).contains(m) <==> exists|k: int|
                    0 <= k < euids.len() && entity_type_in(*self, (#[trigger] euids@[k])@, m),
    {
        let mut r: Vec<Name> = Vec::new();
        let mut i: usize = 0;
        while i < euids.len()
            invariant
                self.well_formed(),
                views(r@).no_duplicates(),
                i <= euids.len(),
                forall|m: NameView|
                    #![trigger views(r@).contains(m)]
                    views(r@).contains(m) <==> exists|k: int|
                        0 <= k < i && entity_type_in(*self, (#[trigger] euids@[k])@, m),
            decreases euids.len() - i,
        {
            let ghost before = r@;
            let found = self.get_entities_in(PrincipalOrResourceHeadVar::PrincipalOrResource, euids[i].clone());
            let mut j: usize = 0;
            while j < found.len()
                invariant
                    views(r@).no_duplicates(),
                    j <= found.len(),
                    forall|m: NameView|
                        #![trigger views(r@).contains(m)]
                        views(r@).contains(m) <==> (views(before).contains(m) || views(
                            found@.subrange(0, j as int),
                        ).contains(m)),
                decreases found.len() - j,
            {
                let ghost pre = views(found@.subrange(0, j as int));
                proof {
                    assert(views(found@.subrange(0, j as int + 1)) =~= pre.push(found@[j as int]@));
                }
                insert_key(&mut r, found[j].clone());
                proof {
                    assert forall|m: NameView| #![trigger views(r@).contains(m)]
                        views(r@).contains(m) <==> (views(before).contains(m) || pre.push(
                            found@[j as int]@,
                        ).contains(m)) by {
                        let q = pre.push(found@[j as int]@);
                        if q.contains(m) && m != found@[j as int]@ {
                            let x = choose|x: int| 0 <= x < q.len() && q[x] == m;
                            assert(pre[x] == m);
                        }
                        if pre.contains(m) {
                            let x = choose|x: int| 0 <= x < pre.len() && pre[x] == m;
                            assert(q[x] == m);
                        }
                        if m == found@[j as int]@ {
                            assert(q[pre.len() as int] == m);
                        }
                    }
                }
                j = j + 1;
            }
            proof {
                assert(found@.subrange(0, found.len() as int) =~= found@);
                assert forall|m: NameView| #![trigger views(r@).contains(m)]
                    views(r@).contains(m) <==> exists|k: int|
                        0 <= k < i + 1 && entity_type_in(*self, (#[trigger] euids@[k])@, m) by {
                    if views(found@).contains(m) {
                        assert(entity_type_in(*self, euids@[i as int]@, m));
                    }
                    if exists|k: int| 0 <= k < i + 1 && entity_type_in(*self, (#[trigger] euids@[k])@, m) {
                        let k = choose|k: int| 0 <= k < i + 1 && entity_type_in(*self, (#[trigger] euids@[k])@, m);
                        if k == i {
                            assert(views(found@).contains(m));
                        }
                    }
                }
            }
            i = i + 1;
        }
        r
    }

    /// The actions in any of the given actions, each once.
    pub fn get_actions_in_set(&self, var: ActionHeadVar, euids: Vec<EntityUID>) -> (r:
        Vec<EntityUID>)
        requires
            self.well_formed(),
        ensures
            views(r@).no_duplicates(),
            forall|m: EntityUidView|
                #![trigger views(r@).contains(m)]
                views(r@).contains(m) <==> exists|k: int|
                    0 <= k < euids.len() && action_in(*self, (#[trigger] euids@[k])@, m),
    {
        let mut r: Vec<EntityUID> = Vec::new();
        let mut i: usize = 0;
        while i < euids.len()
            invariant
                self.well_formed(),
                views(r@).no_duplicates(),
                i <= euids.len(),
                forall|m: EntityUidView|
                    #![trigger views(r@).contains(m)]
                    views(r@).contains(m) <==> exists|k: int|
                        0 <= k < i && action_in(*self, (#[trigger] euids@[k])@, m),
            decreases euids.len() - i,
        {
            let ghost before = r@;
            let found = self.get_actions_in(ActionHeadVar::Action, euids[i].clone());
            let mut j: usize = 0;
            while j < found.len()
                invariant
                    views(r@).no_duplicates(),
                    j <= found.len(),
                    forall|m: EntityUidView|
                        #![trigger views(r@).contains(m)]
                        views(r@).contains(m) <==> (views(before).contains(m) || views(
                            found@.subrange(0, j as int),
                        ).contains(m)),
                decreases found.len() - j,
            {
                let ghost pre = views(found@.subrange(0, j as int));
                proof {
                    assert(views(found@.subrange(0, j as int + 1)) =~= pre.push(found@[j as int]@));
                }
                insert_key(&mut r, found[j].clone());
                proof {
                    assert forall|m: EntityUidView| #![trigger views(r@).contains(m)]
                        views(r@).contains(m) <==> (views(before).contains(m) || pre.push(
                            found@[j as int]@,
                        ).contains(m)) by {
                        let q = pre.push(found@[j as int]@);
                        if q.contains(m) && m != found@[j as int]@ {
                            let x = choose|x: int| 0 <= x < q.len() && q[x] == m;
                            assert(pre[x] == m);
                        }
                        if pre.contains(m) {
                            let x = choose|x: int| 0 <= x < pre.len() && pre[x] == m;
                            assert(q[x] == m);
                        }
                        if m == found@[j as int]@ {
                            assert(q[pre.len() as int] == m);
                        }
                    }
                }
                j = j + 1;
            }
            proof {
                assert(found@.subrange(0, found.len() as int) =~= found@);
                assert forall|m: EntityUidView| #![trigger views(r@).contains(m)]
                    views(r@).contains(m) <==> exists|k: int|
                        0 <= k < i + 1 && action_in(*self, (#[trigger] euids@[k])@, m) by {
                    if views(found@).contains(m) {
                        assert(action_in(*self, euids@[i as int]@, m));
                    }
                    if exists|k: int| 0 <= k < i + 1 && action_in(*self, (#[trigger] euids@[k])@, m) {
                        let k = choose|k: int| 0 <= k < i + 1 && action_in(*self, (#[trigger] euids@[k])@, m);
                        if k == i {
                            assert(views(found@).contains(m));
                        }
                    }
                }
            }
            i = i + 1;
        }
        r
    }
}

} // verus!
