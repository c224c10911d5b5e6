//! The type algebra of attributes: the types a schema resolves to, and the
//! types as declared, which may still name common types.
use crate::names::{contains_key, copy_keys, insert_key, views, Name, NameView};
use vstd::prelude::*;

verus! {

/// The type of an attribute, and whether a value must carry it.
pub struct AttributeType {
    pub attr_type: Type,
    pub is_required: bool,
}

/// A resolved type.
pub enum Type {
    Bool,
    Long,
    String,
    /// A set; `None` as element type stands for the type of the empty set.
    SetOf { element_type: Option<Box<Type>> },
    /// A record with its attributes; `open` records allow further attributes.
    Record { attrs: Vec<(String, AttributeType)>, open: bool },
    /// Any entity whose type is one of the listed names.
    Entity { lub: Vec<Name> },
    Extension { name: Name },
}

/// Two types are the same type.
pub open spec fn same_type(a: Type, b: Type) -> bool
    decreases a,
{
    match (a, b) {
        (Type::Bool, Type::Bool) => true,
        (Type::Long, Type::Long) => true,
        (Type::String, Type::String) => true,
        (Type::SetOf { element_type: ea }, Type::SetOf { element_type: eb }) => match (ea, eb) {
            (None, None) => true,
            (Some(x), Some(y)) => same_type(*x, *y),
            _ => false,
        },
        (Type::Record { attrs: aa, open: oa }, Type::Record { attrs: ab, open: ob }) => {
            &&& oa == ob
            &&& aa@.len() == ab@.len()
            &&& forall|i: int|
                0 <= i < aa@.len() ==> {
                    &&& (#[trigger] aa@[i]).0@ == ab@[i].0@
                    &&& aa@[i].1.is_required == ab@[i].1.is_required
                    &&& same_type(aa@[i].1.attr_type, ab@[i].1.attr_type)
                }
        },
        (Type::Entity { lub: la }, Type::Entity { lub: lb }) => views(la@) == views(lb@),
        (Type::Extension { name: na }, Type::Extension { name: nb }) => na@ == nb@,
        _ => false,
    }
}

/// Type `t` names entity type `n`, at any depth.
pub open spec fn refers_to(t: Type, n: NameView) -> bool
    decreases t,
{
    match t {
        Type::SetOf { element_type: Some(e) } => refers_to(*e, n),
        Type::Record { attrs, .. } => exists|i: int|
            0 <= i < attrs@.len() && refers_to(#[trigger] attrs@[i].1.attr_type, n),
        Type::Entity { lub } => views(lub@).contains(n),
        _ => false,
    }
}


/// A declared attribute: its declared type and whether it is required.
pub struct SchemaAttribute {
    pub ty: SchemaType,
    pub required: bool,
}

/// A type as a schema declares it, before common-type names are resolved.
pub enum SchemaType {
    Bool,
    Long,
    String,
    SetOf { element: Box<SchemaType> },
    Record { attrs: Vec<(String, SchemaAttribute)>, open: bool },
    /// An entity of the named type.
    Entity { name: Name },
    Extension { name: Name },
    /// A reference to a declared common type.
    CommonType { name: Name },
}

/// The declared type names common type `n`, at any depth.
pub open spec fn refers_to_common(s: SchemaType, n: NameView) -> bool
    decreases s,
{
    match s {
        SchemaType::SetOf { element } => refers_to_common(*element, n),
        SchemaType::Record { attrs, .. } => exists|i: int|
            0 <= i < attrs@.len() && refers_to_common(#[trigger] attrs@[i].1.ty, n),
        SchemaType::CommonType { name } => name@ == n,
        _ => false,
    }
}

/// `n` is defined in `defs`.
pub open spec fn defines(defs: Seq<(Name, Type)>, n: NameView) -> bool {
    exists|i: int| 0 <= i < defs.len() && (#[trigger] defs[i]).0@ == n
}

/// Every common type that `s` names is defined in `defs`.
pub open spec fn common_types_defined(s: SchemaType, defs: Seq<(Name, Type)>) -> bool {
    forall|n: NameView| refers_to_common(s, n) ==> defines(defs, n)
}

/// `t` is what `s` denotes once each common-type name is replaced by its
/// definition in `defs`.
pub open spec fn resolves_to(s: SchemaType, defs: Seq<(Name, Type)>, t: Type) -> bool
    decreases s,
{
    match s {
        SchemaType::Bool => t is Bool,
        SchemaType::Long => t is Long,
        SchemaType::String => t is String,
        SchemaType::SetOf { element } => match t {
            Type::SetOf { element_type: Some(e) } => resolves_to(*element, defs, *e),
            _ => false,
        },
        SchemaType::Record { attrs, open } => match t {
            Type::Record { attrs: ta, open: topen } => {
                &&& topen == open
                &&& ta@.len() == attrs@.len()
                &&& forall|i: int|
                    0 <= i < attrs@.len() ==> {
                        &&& (#[trigger] attrs@[i]).0@ == ta@[i].0@
                        &&& attrs@[i].1.required == ta@[i].1.is_required
                        &&& resolves_to(attrs@[i].1.ty, defs, ta@[i].1.attr_type)
                    }
            },
            _ => false,
        },
        SchemaType::Entity { name } => match t {
            Type::Entity { lub } => views(lub@) == seq![name@],
            _ => false,
        },
        SchemaType::Extension { name } => match t {
            Type::Extension { name: tn } => tn@ == name@,
            _ => false,
        },
        SchemaType::CommonType { name } => exists|i: int|
            0 <= i < defs.len() && (#[trigger] defs[i]).0@ == name@ && same_type(defs[i].1, t),
    }
}

impl Type {
    /// A copy of this type.
    pub fn duplicate(&self) -> (r: Type)
        ensures
            same_type(*self, r),
        decreases self,
    {
        match self {
            Type::Bool => Type::Bool,
            Type::Long => Type::Long,
            Type::String => Type::String,
            Type::SetOf { element_type } => match element_type {
                None => Type::SetOf { element_type: None },
                Some(e) => Type::SetOf { element_type: Some(Box::new((**e).duplicate())) },
            },
            Type::Record { attrs, open } => {
                let mut r: Vec<(String, AttributeType)> = Vec::new();
                let mut i: usize = 0;
                while i < attrs.len()
                    invariant
                        *self == (Type::Record { attrs: *attrs, open: *open }),
                        i <= attrs.len(),
                        r.len() == i,
                        forall|k: int|
                            0 <= k < i ==> {
                                &&& (#[trigger] attrs@[k]).0@ == r@[k].0@
                                &&& attrs@[k].1.is_required == r@[k].1.is_required
                                &&& same_type(attrs@[k].1.attr_type, r@[k].1.attr_type)
                            },
                    decreases attrs.len() - i,
                {
                    let (k, a) = &attrs[i];
                    proof {
                        let ghost v = *attrs;
                        assert(decreases_to!(*self => (*self)->Record_attrs));
                        assert(decreases_to!(v => v[i as int]));
                        assert(decreases_to!(v[i as int] => v[i as int].1));
                        assert(decreases_to!(v[i as int].1 => v[i as int].1.attr_type));
                    }
                    let t = a.attr_type.duplicate();
                    r.push((k.clone(), AttributeType { attr_type: t, is_required: a.is_required }));
                    i = i + 1;
                }
                Type::Record { attrs: r, open: *open }
            },
            Type::Entity { lub } => Type::Entity { lub: copy_keys(lub) },
            Type::Extension { name } => Type::Extension { name: name.clone() },
        }
    }
}

/// The position of the definition of `n` in `defs`, if it has one.
fn find_def(defs: &Vec<(Name, Type)>, n: &Name) -> (r: Option<usize>)
    ensures
        r matches Some(i) ==> i < defs.len() && defs@[i as int].0@ == n@,
        r is None ==> !defines(defs@, n@),
{
    let mut i: usize = 0;
    while i < defs.len()
        invariant
            i <= defs.len(),
            forall|k: int| 0 <= k < i ==> defs@[k].0@ != n@,
        decreases defs.len() - i,
    {
        if defs[i].0.same(n) {
            return Some(i);
        }
        i = i + 1;
    }
    None
}

impl SchemaType {
    /// The type this declared type denotes, with each common-type name
    /// replaced by its definition; the first undefined common-type name
    /// otherwise.
    pub fn resolve_type_defs(&self, defs: &Vec<(Name, Type)>) -> (r: Result<Type, Name>)
        ensures
            r is Ok <==> common_types_defined(*self, defs@),
            r matches Ok(t) ==> resolves_to(*self, defs@, t),
            r matches Err(n) ==> refers_to_common(*self, n@) && !defines(defs@, n@),
        decreases self,
    {
        match self {
            SchemaType::Bool => Ok(Type::Bool),
            SchemaType::Long => Ok(Type::Long),
            SchemaType::String => Ok(Type::String),
            SchemaType::SetOf { element } => match (**element).resolve_type_defs(defs) {
                Ok(e) => Ok(Type::SetOf { element_type: Some(Box::new(e)) }),
                Err(n) => Err(n),
            },
            SchemaType::Record { attrs, open } => {
                let mut r: Vec<(String, AttributeType)> = Vec::new();
                let mut i: usize = 0;
                while i < attrs.len()
                    invariant
                        *self == (SchemaType::Record { attrs: *attrs, open: *open }),
                        i <= attrs.len(),
                        r.len() == i,
                        forall|k: int|
                            0 <= k < i ==> {
                                &&& (#[trigger] attrs@[k]).0@ == r@[k].0@
                                &&& attrs@[k].1.required == r@[k].1.is_required
                                &&& resolves_to(attrs@[k].1.ty, defs@, r@[k].1.attr_type)
                                &&& common_types_defined(attrs@[k].1.ty, defs@)
                            },
                    decreases attrs.len() - i,
                {
                    let (k, a) = &attrs[i];
                    proof {
                        let ghost v = *attrs;
                        assert(decreases_to!(*self => (*self)->Record_attrs));
                        assert(decreases_to!(v => v[i as int]));
                        assert(decreases_to!(v[i as int] => v[i as int].1));
                        assert(decreases_to!(v[i as int].1 => v[i as int].1.ty));
                    }
                    match a.ty.resolve_type_defs(defs) {
                        Ok(t) => {
                            r.push((k.clone(), AttributeType { attr_type: t, is_required: a.required }));
                        },
                        Err(n) => {
                            proof {
                                assert(refers_to_common(attrs@[i as int].1.ty, n@));
                                assert(0 <= i < attrs@.len() && refers_to_common(attrs@[i as int].1.ty, n@));
                                assert(refers_to_common(*self, n@));
                            }
                            return Err(n);
                        },
                    }
                    i = i + 1;
                }
                proof {
                    assert forall|n: NameView| refers_to_common(*self, n) implies defines(defs@, n) by {
                        let j = choose|j: int|
                            0 <= j < attrs@.len() && refers_to_common(#[trigger] attrs@[j].1.ty, n);
                        assert(common_types_defined(attrs@[j].1.ty, defs@));
                    }
                }
                Ok(Type::Record { attrs: r, open: *open })
            },
            SchemaType::Entity { name } => {
                let lub = vec![name.clone()];
                proof {
                    assert(views(lub@) =~= seq![name@]);
                }
                Ok(Type::Entity { lub })
            },
            SchemaType::Extension { name } => Ok(Type::Extension { name: name.clone() }),
            SchemaType::CommonType { name } => match find_def(defs, name) {
                Some(i) => Ok(defs[i].1.duplicate()),
                None => Err(name.clone()),
            },
        }
    }
}


impl Type {
    /// The attributes of a record type; `None` for any other type.
    pub fn record_attributes_or_none(self) -> (r: Option<Vec<(String, AttributeType)>>)
        ensures
            r is Some <==> self is Record,
            r matches Some(a) ==> self matches Type::Record { attrs, .. } && a == attrs,
    {
        match self {
            Type::Record { attrs, .. } => Some(attrs),
            _ => None,
        }
    }

    /// Adds to `undeclared` each entity type that this type names, at any
    /// depth, and that `declared` does not hold.
    pub fn check_undeclared_in_type(&self, declared: &Vec<Name>, undeclared: &mut Vec<Name>)
        ensures
            forall|m: NameView|
                #![trigger views(final(undeclared)@).contains(m)]
                #![trigger refers_to(*self, m)]
                views(final(undeclared)@).contains(m) <==> (views(old(undeclared)@).contains(m)
                    || (refers_to(*self, m) && !views(declared@).contains(m))),
            views(old(undeclared)@).no_duplicates() ==> views(
                final(undeclared)@,
            ).no_duplicates(),
        decreases self,
    {
        match self {
            Type::SetOf { element_type: Some(e) } => {
                let ghost before = undeclared@;
                Type::check_undeclared_in_type(&**e, declared, &mut *undeclared);
                proof {
                    assert forall|m: NameView| refers_to(*self, m) == refers_to(**e, m) by {}
                    assert(before == old(undeclared)@);
                    assert forall|m: NameView|
                        views(undeclared@).contains(m) <==> (views(before).contains(m)
                            || (refers_to(**e, m) && !views(declared@).contains(m))) by {}
                }
            },
            Type::Record { attrs, open } => {
                let ghost start = undeclared@;
                let mut i: usize = 0;
                while i < attrs.len()
                    invariant
                        *self == (Type::Record { attrs: *attrs, open: *open }),
                        i <= attrs.len(),
                        forall|m: NameView|
                            #![trigger views(undeclared@).contains(m)]
                            views(undeclared@).contains(m) ==> (views(start).contains(m) || (
                            !views(declared@).contains(m) && refers_to(*self, m))),
                        forall|m: NameView|
                            views(start).contains(m) ==> views(undeclared@).contains(m),
                        forall|m: NameView, k: int|
                            0 <= k < i && #[trigger] refers_to(attrs@[k].1.attr_type, m)
                                && !views(declared@).contains(m) ==> views(
                                undeclared@,
                            ).contains(m),
                        views(start).no_duplicates() ==> views(undeclared@).no_duplicates(),
                    decreases attrs.len() - i,
                {
                    let a = &attrs[i].1;
                    proof {
                        let ghost v = *attrs;
                        assert(decreases_to!(*self => (*self)->Record_attrs));
                        assert(decreases_to!(v => v[i as int]));
                        assert(decreases_to!(v[i as int] => v[i as int].1));
                        assert(decreases_to!(v[i as int].1 => v[i as int].1.attr_type));
                    }
                    let ghost mid = undeclared@;
                    Type::check_undeclared_in_type(&a.attr_type, declared, &mut *undeclared);
                    proof {
                        assert forall|m: NameView|
                            views(undeclared@).contains(m) implies (views(start).contains(m) || (
                            !views(declared@).contains(m) && refers_to(*self, m))) by {
                            if !views(mid).contains(m) {
                                let ghost v = *attrs;
                                assert(refers_to(v@[i as int].1.attr_type, m));
                            }
                        }
                    }
                    i = i + 1;
                }
                proof {
                    assert forall|m: NameView|
                        refers_to(*self, m) && !views(declared@).contains(m) implies views(
                        undeclared@,
                    ).contains(m) by {
                        let k = choose|k: int|
                            0 <= k < attrs@.len() && refers_to(#[trigger] attrs@[k].1.attr_type, m);
                    }
                }
            },
            Type::Entity { lub } => {
                let ghost start = undeclared@;
                let mut i: usize = 0;
                while i < lub.len()
                    invariant
                        *self == (Type::Entity { lub: *lub }),
                        i <= lub.len(),
                        forall|m: NameView|
                            views(undeclared@).contains(m) ==> (views(start).contains(m) || (
                            !views(declared@).contains(m) && views(lub@).contains(m))),
                        forall|m: NameView|
                            views(start).contains(m) ==> views(undeclared@).contains(m),
                        forall|k: int|
                            0 <= k < i && !views(declared@).contains(#[trigger] lub@[k]@)
                                ==> views(undeclared@).contains(lub@[k]@),
                        views(start).no_duplicates() ==> views(undeclared@).no_duplicates(),
                    decreases lub.len() - i,
                {
                    if !contains_key(declared, &lub[i]) {
                        proof {
                            assert(views(lub@)[i as int] == lub@[i as int]@);
                        }
                        insert_key(undeclared, lub[i].clone());
                    }
                    i = i + 1;
                }
                proof {
                    assert forall|m: NameView|
                        views(lub@).contains(m) && !views(declared@).contains(m) implies views(
                        undeclared@,
                    ).contains(m) by {
                        let k = choose|k: int| 0 <= k < lub@.len() && views(lub@)[k] == m;
                        assert(lub@[k]@ == m);
                    }
                }
            },
            _ => {},
        }
    }
}

/// The declared type `s` names entity type `n`, at any depth, looking
/// through the common types of `defs`.
pub open spec fn declared_refers_to(s: SchemaType, defs: Seq<(Name, Type)>, n: NameView) -> bool
    decreases s,
{
    match s {
        SchemaType::SetOf { element } => declared_refers_to(*element, defs, n),
        SchemaType::Record { attrs, .. } => exists|i: int|
            0 <= i < attrs@.len() && declared_refers_to(#[trigger] attrs@[i].1.ty, defs, n),
        SchemaType::Entity { name } => name@ == n,
        SchemaType::CommonType { name } => exists|i: int|
            0 <= i < defs.len() && (#[trigger] defs[i]).0@ == name@ && refers_to(defs[i].1, n),
        _ => false,
    }
}

/// The declared type `s` denotes a record: it is one, or it names a common
/// type of `defs` defined as one.
pub open spec fn denotes_record(s: SchemaType, defs: Seq<(Name, Type)>) -> bool {
    match s {
        SchemaType::Record { .. } => true,
        SchemaType::CommonType { name } => exists|i: int|
            0 <= i < defs.len() && (#[trigger] defs[i]).0@ == name@ && defs[i].1 is Record,
        _ => false,
    }
}

/// No name is defined twice in `defs`.
pub open spec fn defined_once(defs: Seq<(Name, Type)>) -> bool {
    forall|i: int, j: int|
        0 <= i < defs.len() && 0 <= j < defs.len() && (#[trigger] defs[i]).0@ == (#[trigger] defs[j]).0@
            ==> i == j
}

/// The same type names the same entity types.
pub proof fn lemma_same_type_refers(a: Type, b: Type, n: NameView)
    requires
        same_type(a, b),
    ensures
        refers_to(a, n) == refers_to(b, n),
    decreases a,
{
    match (a, b) {
        (Type::SetOf { element_type: Some(x) }, Type::SetOf { element_type: Some(y) }) => {
            lemma_same_type_refers(*x, *y, n);
        },
        (Type::Record { attrs: aa, .. }, Type::Record { attrs: ab, .. }) => {
            assert forall|i: int| 0 <= i < aa@.len() implies refers_to(aa@[i].1.attr_type, n)
                == refers_to(ab@[i].1.attr_type, n) by {
                assert(decreases_to!(a => aa));
                assert(decreases_to!(aa => aa[i]));
                assert(same_type(aa@[i].1.attr_type, ab@[i].1.attr_type));
                lemma_same_type_refers(aa@[i].1.attr_type, ab@[i].1.attr_type, n);
            }
            if refers_to(a, n) {
                let i = choose|i: int| 0 <= i < aa@.len() && refers_to(#[trigger] aa@[i].1.attr_type, n);
                assert(refers_to(ab@[i].1.attr_type, n));
            }
            if refers_to(b, n) {
                let i = choose|i: int| 0 <= i < ab@.len() && refers_to(#[trigger] ab@[i].1.attr_type, n);
                assert(refers_to(aa@[i].1.attr_type, n));
            }
        },
        _ => {},
    }
}

/// A resolved type names exactly the entity types its declaration names.
pub proof fn lemma_resolved_refers(s: SchemaType, defs: Seq<(Name, Type)>, t: Type, n: NameView)
    requires
        resolves_to(s, defs, t),
        defined_once(defs),
    ensures
        refers_to(t, n) == declared_refers_to(s, defs, n),
    decreases s,
{
    match s {
        SchemaType::SetOf { element } => {
            match t {
                Type::SetOf { element_type: Some(e) } => {
                    lemma_resolved_refers(*element, defs, *e, n);
                },
                _ => {},
            }
        },
        SchemaType::Record { attrs, .. } => {
            match t {
                Type::Record { attrs: ta, .. } => {
                    assert forall|i: int| 0 <= i < attrs@.len() implies refers_to(ta@[i].1.attr_type, n)
                        == declared_refers_to(attrs@[i].1.ty, defs, n) by {
                        assert(decreases_to!(s => attrs));
                        assert(decreases_to!(attrs => attrs[i]));
                        assert(resolves_to(attrs@[i].1.ty, defs, ta@[i].1.attr_type));
                        lemma_resolved_refers(attrs@[i].1.ty, defs, ta@[i].1.attr_type, n);
                    }
                    if refers_to(t, n) {
                        let i = choose|i: int|
                            0 <= i < ta@.len() && refers_to(#[trigger] ta@[i].1.attr_type, n);
                        assert(declared_refers_to(attrs@[i].1.ty, defs, n));
                    }
                    if declared_refers_to(s, defs, n) {
                        let i = choose|i: int|
                            0 <= i < attrs@.len() && declared_refers_to(#[trigger] attrs@[i].1.ty, defs, n);
                        assert(refers_to(ta@[i].1.attr_type, n));
                    }
                },
                _ => {},
            }
        },
        SchemaType::Entity { name } => {
            match t {
                Type::Entity { lub } => {
                    assert(views(lub@) == seq![name@]);
                    if views(lub@).contains(n) {
                        let i = choose|i: int| 0 <= i < views(lub@).len() && views(lub@)[i] == n;
                        assert(seq![name@][i] == name@);
                    }
                    if name@ == n {
                        assert(views(lub@)[0] == n);
                    }
                },
                _ => {},
            }
        },
        SchemaType::CommonType { name } => {
            let i = choose|i: int|
                0 <= i < defs.len() && (#[trigger] defs[i]).0@ == name@ && same_type(defs[i].1, t);
            lemma_same_type_refers(defs[i].1, t, n);
            if declared_refers_to(s, defs, n) {
                let j = choose|j: int|
                    0 <= j < defs.len() && (#[trigger] defs[j]).0@ == name@ && refers_to(defs[j].1, n);
                assert(i == j);
            }
        },
        _ => {},
    }
}

/// A resolved type is a record exactly when its declaration denotes one.
pub proof fn lemma_resolved_record(s: SchemaType, defs: Seq<(Name, Type)>, t: Type)
    requires
        resolves_to(s, defs, t),
        defined_once(defs),
    ensures
        (t is Record) == denotes_record(s, defs),
{
    match s {
        SchemaType::CommonType { name } => {
            let i = choose|i: int|
                0 <= i < defs.len() && (#[trigger] defs[i]).0@ == name@ && same_type(defs[i].1, t);
            if denotes_record(s, defs) {
                let j = choose|j: int|
                    0 <= j < defs.len() && (#[trigger] defs[j]).0@ == name@ && defs[j].1 is Record;
                assert(i == j);
            }
            if t is Record {
                assert(defs[i].1 is Record);
            }
        },
        _ => {},
    }
}

} // verus!
