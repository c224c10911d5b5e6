//! The schema-conformance rules of the JSON entity format: escape keys,
//! record attributes checked against declared types, action parents, and
//! the limits of the encoder.
use crate::names::{
    contains_string, join_strings, joined, strings_view, uid_text, EntityTypeView, EntityUID, Name,
};
use crate::types::AttributeType;
use vstd::prelude::*;
use vstd::string::StringExecFns;

verus! {

/// The escape forms of the JSON format.
pub enum EscapeKind {
    /// `__entity`, a literal entity reference.
    Entity,
    /// `__extn`, a call of an extension function.
    Extension,
}

/// The key that introduces an escape.
pub open spec fn escape_key(k: EscapeKind) -> Seq<char> {
    match k {
        EscapeKind::Entity => "__entity"@,
        EscapeKind::Extension => "__extn"@,
    }
}

impl EscapeKind {
    /// The key that introduces this escape.
    pub fn key(&self) -> (r: String)
        ensures
            r@ == escape_key(*self),
    {
        match self {
            EscapeKind::Entity => String::from_str("__entity"),
            EscapeKind::Extension => String::from_str("__extn"),
        }
    }
}

/// Where in a JSON document an error was found.
pub enum JsonDeserializationErrorContext {
    /// In attribute `attr` of entity `uid`.
    EntityAttribute { uid: EntityUID, attr: String },
    /// In the `parents` field of entity `uid`.
    EntityParents { uid: EntityUID },
    /// In the `uid` field of an entity.
    EntityUid,
    /// In the context.
    Context,
    /// In the policy with the given id.
    Policy { id: String },
}

/// How a context shows in an error message, given the text of the uid it
/// names, if any.
pub open spec fn context_text_with(c: JsonDeserializationErrorContext, uid: Seq<char>) -> Seq<char> {
    match c {
        JsonDeserializationErrorContext::EntityAttribute { attr, .. } => "in attribute `"@ + attr@
            + "` on `"@ + uid + "`"@,
        JsonDeserializationErrorContext::EntityParents { .. } => "in parents field of `"@ + uid + "`"@,
        JsonDeserializationErrorContext::EntityUid => "in uid field of <unknown entity>"@,
        JsonDeserializationErrorContext::Context => "while parsing context"@,
        JsonDeserializationErrorContext::Policy { id } => "while parsing JSON policy `"@ + id@ + "`"@,
    }
}

/// How a context shows in an error message.
pub open spec fn context_text(c: JsonDeserializationErrorContext) -> Seq<char> {
    match c {
        JsonDeserializationErrorContext::EntityAttribute { uid, .. } => context_text_with(c, uid_text(uid@)),
        JsonDeserializationErrorContext::EntityParents { uid } => context_text_with(c, uid_text(uid@)),
        _ => context_text_with(c, Seq::empty()),
    }
}

impl JsonDeserializationErrorContext {
    /// How this context shows, given the text of the uid it names.
    pub fn describe_with(&self, uid: &String) -> (r: String)
        ensures
            r@ == context_text_with(*self, uid@),
    {
        match self {
            JsonDeserializationErrorContext::EntityAttribute { attr, .. } => {
                let mut r = String::from_str("in attribute `");
                r.append(attr.as_str());
                r.append("` on `");
                r.append(uid.as_str());
                r.append("`");
                r
            },
            JsonDeserializationErrorContext::EntityParents { .. } => {
                let mut r = String::from_str("in parents field of `");
                r.append(uid.as_str());
                r.append("`");
                r
            },
            JsonDeserializationErrorContext::EntityUid => String::from_str("in uid field of <unknown entity>"),
            JsonDeserializationErrorContext::Context => String::from_str("while parsing context"),
            JsonDeserializationErrorContext::Policy { id } => {
                let mut r = String::from_str("while parsing JSON policy `");
                r.append(id.as_str());
                r.append("`");
                r
            },
        }
    }

    /// How this context shows in an error message.
    pub fn describe(&self) -> (r: String)
        ensures
            r@ == context_text(*self),
    {
        match self {
            JsonDeserializationErrorContext::EntityAttribute { uid, .. } => self.describe_with(&uid.to_text()),
            JsonDeserializationErrorContext::EntityParents { uid } => self.describe_with(&uid.to_text()),
            _ => self.describe_with(&String::new()),
        }
    }
}

/// Errors of schema-based decoding of JSON data.
pub enum JsonDeserializationError {
    /// An action has a parent that is not an action.
    ActionParentIsNotAction { uid: EntityUID, parent: EntityUID },
    /// A key occurs more than once in one record literal.
    DuplicateKeyInRecordLiteral { ctx: JsonDeserializationErrorContext, key: String },
    /// A record has an attribute its declared type does not have.
    UnexpectedRecordAttr { ctx: JsonDeserializationErrorContext, record_attr: String },
    /// A record lacks an attribute its declared type requires.
    MissingRequiredRecordAttr { ctx: JsonDeserializationErrorContext, record_attr: String },
    /// The `__expr` escape, which is no longer supported.
    ExprTag(JsonDeserializationErrorContext),
}

/// Errors of encoding values as JSON.
pub enum JsonSerializationError {
    /// A call of an extension function with no argument.
    ExtnCall0Arguments { func: Name },
    /// A call of an extension function with two or more arguments.
    ExtnCall2OrMoreArguments { func: Name },
    /// A record uses an escape key as an attribute name.
    ReservedKey { key: String },
}

/// `k` occurs at least twice among `keys`.
pub open spec fn repeated_key(keys: Seq<Seq<char>>, k: Seq<char>) -> bool {
    exists|i: int, j: int| 0 <= i < j < keys.len() && keys[i] == k && keys[j] == k
}

/// Rejects a record literal in which a key occurs twice; the JSON parser
/// is not relied on to do so.
pub fn check_record_keys(ctx: JsonDeserializationErrorContext, keys: &Vec<String>) -> (r: Result<
    (),
    JsonDeserializationError,
>)
    ensures
        r is Ok <==> strings_view(keys@).no_duplicates(),
        r matches Err(e) ==> (e matches JsonDeserializationError::DuplicateKeyInRecordLiteral {
            ctx: c,
            key,
        } && c == ctx && repeated_key(strings_view(keys@), key@)),
{
    let ghost ks = strings_view(keys@);
    let mut i: usize = 0;
    while i < keys.len()
        invariant
            ks == strings_view(keys@),
            i <= keys.len(),
            forall|a: int, b: int| 0 <= a < b < i ==> keys@[a]@ != keys@[b]@,
        decreases keys.len() - i,
    {
        let mut j: usize = 0;
        while j < i
            invariant
                ks == strings_view(keys@),
                i < keys.len(),
                j <= i,
                forall|a: int| 0 <= a < j ==> keys@[a]@ != keys@[i as int]@,
            decreases i - j,
        {
            if keys[j] == keys[i] {
                proof {
                    assert(ks[j as int] == keys@[j as int]@ && ks[i as int] == keys@[i as int]@);
                    assert(!ks.no_duplicates());
                }
                return Err(
                    JsonDeserializationError::DuplicateKeyInRecordLiteral { ctx, key: keys[i].clone() },
                );
            }
            j = j + 1;
        }
        i = i + 1;
    }
    proof {
        assert forall|a: int, b: int| 0 <= a < ks.len() && 0 <= b < ks.len() && a != b implies ks[a] != ks[b] by {
            if a < b {
                assert(keys@[a]@ != keys@[b]@);
            } else {
                assert(keys@[b]@ != keys@[a]@);
            }
        }
    }
    Ok(())
}

/// The declared record type has an attribute named `k`.
pub open spec fn declares_attr(attrs: Seq<(String, AttributeType)>, k: Seq<char>) -> bool {
    exists|i: int| 0 <= i < attrs.len() && (#[trigger] attrs[i]).0@ == k
}

/// Checks the attribute names of a record literal against its declared
/// record type: every attribute must be declared, and every required one
/// present. Unexpected attributes are reported first.
pub fn check_record_attrs(
    ctx: JsonDeserializationErrorContext,
    keys: &Vec<String>,
    attrs: &Vec<(String, AttributeType)>,
) -> (r: Result<(), JsonDeserializationError>)
    ensures
        r is Ok <==> (forall|i: int| 0 <= i < keys.len() ==> declares_attr(attrs@, (#[trigger] keys@[i])@))
            && (forall|i: int|
            0 <= i < attrs.len() && (#[trigger] attrs@[i]).1.is_required ==> strings_view(keys@).contains(
                attrs@[i].0@,
            )),
        r matches Err(JsonDeserializationError::UnexpectedRecordAttr { ctx: c, record_attr }) ==> c == ctx
            && strings_view(keys@).contains(record_attr@) && !declares_attr(attrs@, record_attr@),
        r matches Err(JsonDeserializationError::MissingRequiredRecordAttr { ctx: c, record_attr }) ==> c
            == ctx && (
        forall|i: int| 0 <= i < keys.len() ==> declares_attr(attrs@, (#[trigger] keys@[i])@)) && exists|
            i: int,
        |
            0 <= i < attrs.len() && (#[trigger] attrs@[i]).1.is_required && attrs@[i].0@ == record_attr@
                && !strings_view(keys@).contains(record_attr@),
        r is Err ==> (r matches Err(JsonDeserializationError::UnexpectedRecordAttr { .. })) || (r matches Err(
            JsonDeserializationError::MissingRequiredRecordAttr { .. },
        )),
{
    let mut i: usize = 0;
    while i < keys.len()
        invariant
            i <= keys.len(),
            forall|k: int| 0 <= k < i ==> declares_attr(attrs@, (#[trigger] keys@[k])@),
        decreases keys.len() - i,
    {
        let mut j: usize = 0;
        let mut found = false;
        while j < attrs.len()
            invariant
                j <= attrs.len(),
                i < keys.len(),
                found ==> declares_attr(attrs@, keys@[i as int]@),
                !found ==> forall|a: int| 0 <= a < j ==> attrs@[a].0@ != keys@[i as int]@,
            decreases attrs.len() - j,
        {
            if attrs[j].0 == keys[i] {
                found = true;
            }
            j = j + 1;
        }
        if !found {
            proof {
                assert(strings_view(keys@)[i as int] == keys@[i as int]@);
            }
            return Err(JsonDeserializationError::UnexpectedRecordAttr { ctx, record_attr: keys[i].clone() });
        }
        i = i + 1;
    }
    let mut j: usize = 0;
    while j < attrs.len()
        invariant
            j <= attrs.len(),
            forall|k: int| 0 <= k < keys.len() ==> declares_attr(attrs@, (#[trigger] keys@[k])@),
            forall|a: int|
                0 <= a < j && (#[trigger] attrs@[a]).1.is_required ==> strings_view(keys@).contains(attrs@[a].0@),
        decreases attrs.len() - j,
    {
        if attrs[j].1.is_required && !contains_string(keys, &attrs[j].0) {
            return Err(
                JsonDeserializationError::MissingRequiredRecordAttr { ctx, record_attr: attrs[j].0.clone() },
            );
        }
        j = j + 1;
    }
    Ok(())
}

/// The entity type of actions: its base name is `Action`.
pub open spec fn is_action_type(t: EntityTypeView) -> bool {
    t matches Some(n) && n.1 == "Action"@
}

/// Checks that every parent of action `uid` is itself an action.
pub fn check_action_parents(uid: &EntityUID, parents: &Vec<EntityUID>) -> (r: Result<(), JsonDeserializationError>)
    ensures
        r is Ok <==> forall|i: int| 0 <= i < parents.len() ==> is_action_type((#[trigger] parents@[i]).ty@),
        r matches Err(e) ==> (e matches JsonDeserializationError::ActionParentIsNotAction { uid: u, parent }
            && u@ == uid@ && !is_action_type(parent.ty@) && exists|i: int|
            0 <= i < parents.len() && (#[trigger] parents@[i])@ == parent@),
{
    let action = String::from_str("Action");
    let mut i: usize = 0;
    while i < parents.len()
        invariant
            action@ == "Action"@,
            i <= parents.len(),
            forall|k: int| 0 <= k < i ==> is_action_type((#[trigger] parents@[k]).ty@),
        decreases parents.len() - i,
    {
        let ok = match &parents[i].ty {
            crate::names::EntityType::Concrete(n) => *n.basename() == action,
            crate::names::EntityType::Unspecified => false,
        };
        if !ok {
            return Err(
                JsonDeserializationError::ActionParentIsNotAction {
                    uid: uid.clone(),
                    parent: parents[i].clone(),
                },
            );
        }
        i = i + 1;
    }
    Ok(())
}

/// Checks that no attribute of a record to be encoded is an escape key.
pub fn check_reserved_keys(keys: &Vec<String>) -> (r: Result<(), JsonSerializationError>)
    ensures
        r is Ok <==> forall|i: int|
            0 <= i < keys.len() ==> (#[trigger] keys@[i])@ != escape_key(EscapeKind::Entity) && keys@[i]@
                != escape_key(EscapeKind::Extension),
        r matches Err(e) ==> (e matches JsonSerializationError::ReservedKey { key } && (key@ == escape_key(
            EscapeKind::Entity,
        ) || key@ == escape_key(EscapeKind::Extension))),
{
    let entity = EscapeKind::Entity.key();
    let extn = EscapeKind::Extension.key();
    let mut i: usize = 0;
    while i < keys.len()
        invariant
            entity@ == escape_key(EscapeKind::Entity),
            extn@ == escape_key(EscapeKind::Extension),
            i <= keys.len(),
            forall|k: int|
                0 <= k < i ==> (#[trigger] keys@[k])@ != escape_key(EscapeKind::Entity) && keys@[k]@
                    != escape_key(EscapeKind::Extension),
        decreases keys.len() - i,
    {
        if keys[i] == entity || keys[i] == extn {
            return Err(JsonSerializationError::ReservedKey { key: keys[i].clone() });
        }
        i = i + 1;
    }
    Ok(())
}

/// Checks that a call of extension function `func` with `n_args` arguments
/// can be encoded: the format holds calls of exactly one argument.
pub fn check_extn_call_arity(func: &Name, n_args: usize) -> (r: Result<(), JsonSerializationError>)
    ensures
        r is Ok <==> n_args == 1,
        n_args == 0 ==> (r matches Err(JsonSerializationError::ExtnCall0Arguments { func: f }) && f@ == func@),
        n_args >= 2 ==> (r matches Err(JsonSerializationError::ExtnCall2OrMoreArguments { func: f }) && f@
            == func@),
{
    if n_args == 0 {
        Err(JsonSerializationError::ExtnCall0Arguments { func: func.clone() })
    } else if n_args >= 2 {
        Err(JsonSerializationError::ExtnCall2OrMoreArguments { func: func.clone() })
    } else {
        Ok(())
    }
}

/// A JSON value as error messages show it: an array element by element, an
/// object as its keys each with the compact JSON text of its value, and any
/// other value as its compact JSON text.
pub enum JsonShape {
    Array(Vec<JsonShape>),
    Object(Vec<(String, String)>),
    Other(String),
}

/// `a` comes before `b` in the order of strings: lexicographic by code point.
pub open spec fn str_lt(a: Seq<char>, b: Seq<char>) -> bool
    decreases a.len(),
{
    if a.len() == 0 {
        b.len() > 0
    } else if b.len() == 0 {
        false
    } else if a[0] != b[0] {
        (a[0] as u32) < (b[0] as u32)
    } else {
        str_lt(a.drop_first(), b.drop_first())
    }
}

/// The entries are in ascending order of their keys.
pub open spec fn sorted_by_key(s: Seq<(String, String)>) -> bool {
    forall|i: int, j: int| 0 <= i < j < s.len() ==> !str_lt((#[trigger] s[j]).0@, (#[trigger] s[i]).0@)
}

/// How an object entry shows: its key in quotes, a colon, its value's text.
pub open spec fn entry_text(e: (String, String)) -> Seq<char> {
    "\""@ + e.0@ + "\":"@ + e.1@
}

/// `t` is how `v` shows in an error message: arrays as their elements'
/// texts between brackets, separated by a comma and a space; objects as
/// their entries in ascending order of keys between braces, separated by
/// commas; anything else as its text.
pub open spec fn displays_as(v: JsonShape, t: Seq<char>) -> bool
    decreases v,
{
    match v {
        JsonShape::Other(s) => t == s@,
        JsonShape::Array(items) => exists|ts: Seq<Seq<char>>|
            #![trigger joined(ts, ", "@)]
            ts.len() == items@.len() && (forall|i: int|
                0 <= i < items@.len() ==> displays_as(#[trigger] items@[i], ts[i])) && t == "["@
                + joined(ts, ", "@) + "]"@,
        JsonShape::Object(entries) => exists|s: Seq<(String, String)>|
            #![trigger s.to_multiset()]
            s.to_multiset() == entries@.to_multiset() && sorted_by_key(s) && t == "{"@ + joined(
                s.map_values(|e: (String, String)| entry_text(e)),
                ","@,
            ) + "}"@,
    }
}

/// Relies on slice::sort_by with the order of `String` on the keys: the
/// entries, rearranged, in ascending order of keys.
#[verifier::external_body]
fn sort_entries(v: &mut Vec<(String, String)>)
    ensures
        final(v)@.to_multiset() == old(v)@.to_multiset(),
        sorted_by_key(final(v)@),
{
    v.sort_by(|a, b| a.0.cmp(&b.0))
}

/// The text of a JSON value in an error message.
pub fn display_value(v: &JsonShape) -> (r: String)
    ensures
        displays_as(*v, r@),
    decreases v,
{
    match v {
        JsonShape::Array(items) => {
            let mut parts: Vec<String> = Vec::new();
            let mut i: usize = 0;
            while i < items.len()
                invariant
                    *v == JsonShape::Array(*items),
                    i <= items.len(),
                    parts.len() == i,
                    forall|k: int| 0 <= k < i ==> displays_as(#[trigger] items@[k], parts@[k]@),
                decreases items.len() - i,
            {
                proof {
                    let ghost w = *items;
                    assert(decreases_to!(*v => (*v)->Array_0));
                    assert(decreases_to!(w => w[i as int]));
                }
                parts.push(display_value(&items[i]));
                i = i + 1;
            }
            let inner = join_strings(&parts, ", ");
            let mut r = String::from_str("[");
            r.append(inner.as_str());
            r.append("]");
            proof {
                let ts = strings_view(parts@);
                assert forall|k: int| 0 <= k < items@.len() implies displays_as(#[trigger] items@[k], ts[k]) by {
                    assert(ts[k] == parts@[k]@);
                }
                reveal_strlit("[");
                reveal_strlit("]");
                reveal_strlit(", ");
                assert(r@ == "["@ + joined(ts, ", "@) + "]"@);
            }
            r
        },
        JsonShape::Object(entries) => {
            let mut sorted: Vec<(String, String)> = Vec::new();
            let mut i: usize = 0;
            while i < entries.len()
                invariant
                    i <= entries.len(),
                    sorted@ == entries@.subrange(0, i as int),
                decreases entries.len() - i,
            {
                let (k, x) = &entries[i];
                sorted.push((k.clone(), x.clone()));
                proof {
                    assert(sorted@ =~= entries@.subrange(0, i as int + 1));
                }
                i = i + 1;
            }
            proof {
                assert(entries@.subrange(0, entries.len() as int) =~= entries@);
            }
            sort_entries(&mut sorted);
            let mut parts: Vec<String> = Vec::new();
            let mut j: usize = 0;
            while j < sorted.len()
                invariant
                    j <= sorted.len(),
                    parts.len() == j,
                    forall|k: int| 0 <= k < j ==> parts@[k]@ == entry_text(#[trigger] sorted@[k]),
                decreases sorted.len() - j,
            {
                let mut p = String::from_str("\"");
                p.append(sorted[j].0.as_str());
                p.append("\":");
                p.append(sorted[j].1.as_str());
                proof {
                    reveal_strlit("\"");
                    reveal_strlit("\":");
                }
                parts.push(p);
                j = j + 1;
            }
            let inner = join_strings(&parts, ",");
            let mut r = String::from_str("{");
            r.append(inner.as_str());
            r.append("}");
            proof {
                let ghost s = sorted@;
                assert(strings_view(parts@) =~= s.map_values(|e: (String, String)| entry_text(e)));
                reveal_strlit("{");
                reveal_strlit("}");
                reveal_strlit(",");
                assert(r@ == "{"@ + joined(s.map_values(|e: (String, String)| entry_text(e)), ","@) + "}"@);
            }
            r
        },
        JsonShape::Other(t) => t.clone(),
    }
}

} // verus!
