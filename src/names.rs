//! Namespace-qualified identifiers: entity type names and entity uids.
use vstd::prelude::*;
use vstd::string::StringExecFns;

verus! {

/// The abstract value of a [`Name`]: its namespace path and its base name.
pub type NameView = (Seq<Seq<char>>, Seq<char>);

/// The abstract value of an [`EntityType`]: `None` stands for the unspecified type.
pub type EntityTypeView = Option<NameView>;

/// The abstract value of an [`EntityUID`]: its type and its id.
pub type EntityUidView = (EntityTypeView, Seq<char>);

/// The characters of each string of a sequence.
pub open spec fn strings_view(s: Seq<String>) -> Seq<Seq<char>> {
    s.map_values(|x: String| x@)
}

/// The parts in order, with `sep` between each two.
pub open spec fn joined(parts: Seq<Seq<char>>, sep: Seq<char>) -> Seq<char>
    decreases parts.len(),
{
    if parts.len() == 0 {
        Seq::empty()
    } else if parts.len() == 1 {
        parts[0]
    } else {
        joined(parts.drop_last(), sep) + sep + parts.last()
    }
}

/// Relies on itertools::join: the parts in order, `sep` between each two,
/// and the empty string for no parts.
#[verifier::external_body]
pub(crate) fn join_strings(parts: &Vec<String>, sep: &str) -> (r: String)
    ensures
        r@ == joined(strings_view(parts@), sep@),
{
    itertools::join(parts, sep)
}

/// Whether `v` holds a string equal to `k`.
pub fn contains_string(v: &Vec<String>, k: &String) -> (r: bool)
    ensures
        r == strings_view(v@).contains(k@),
{
    let mut i: usize = 0;
    while i < v.len()
        invariant
            i <= v.len(),
            forall|a: int| 0 <= a < i ==> v@[a]@ != k@,
        decreases v.len() - i,
    {
        if v[i] == *k {
            assert(strings_view(v@)[i as int] == k@);
            return true;
        }
        i = i + 1;
    }
    false
}

/// After a push, a sequence of strings holds what it held and the new string.
pub proof fn lemma_strings_push(before: Seq<String>, s: String)
    ensures
        forall|x: Seq<char>|
            #![trigger strings_view(before.push(s)).contains(x)]
            strings_view(before.push(s)).contains(x) <==> (strings_view(before).contains(x) || x == s@),
{
    assert forall|x: Seq<char>|
        strings_view(before.push(s)).contains(x) <==> (strings_view(before).contains(x) || x == s@) by {
        let q = strings_view(before.push(s));
        let b = strings_view(before);
        if q.contains(x) {
            let y = choose|y: int| 0 <= y < q.len() && q[y] == x;
            if y < b.len() {
                assert(b[y] == x);
            }
        }
        if b.contains(x) {
            let y = choose|y: int| 0 <= y < b.len() && b[y] == x;
            assert(q[y] == x);
        }
        if x == s@ {
            assert(q[b.len() as int] == x);
        }
    }
}

/// A normalized, namespace-qualified name such as `NS::Type`: the namespace
/// path (`["NS"]`) and the base name (`Type`).
pub struct Name {
    pub path: Vec<String>,
    pub id: String,
}

impl View for Name {
    type V = NameView;

    open spec fn view(&self) -> NameView {
        (strings_view(self.path@), self.id@)
    }
}

fn strings_eq(a: &Vec<String>, b: &Vec<String>) -> (r: bool)
    ensures
        r == (strings_view(a@) == strings_view(b@)),
{
    if a.len() != b.len() {
        proof {
            assert(strings_view(a@).len() != strings_view(b@).len());
        }
        return false;
    }
    let mut i: usize = 0;
    while i < a.len()
        invariant
            a.len() == b.len(),
            0 <= i <= a.len(),
            forall|k: int| 0 <= k < i ==> a@[k]@ == b@[k]@,
        decreases a.len() - i,
    {
        if a[i] != b[i] {
            proof {
                assert(strings_view(a@)[i as int] != strings_view(b@)[i as int]);
            }
            return false;
        }
        i = i + 1;
    }
    proof {
        assert(strings_view(a@) =~= strings_view(b@));
    }
    true
}

impl Name {
    /// A name with the given namespace path and base name.
    pub fn new(path: Vec<String>, id: String) -> (r: Name)
        ensures
            r.path == path,
            r.id == id,
    {
        Name { path, id }
    }

    /// A name in the root namespace.
    pub fn unqualified(id: String) -> (r: Name)
        ensures
            r@ == (Seq::<Seq<char>>::empty(), id@),
    {
        let r = Name { path: Vec::new(), id };
        proof {
            assert(strings_view(r.path@) =~= Seq::<Seq<char>>::empty());
        }
        r
    }

    /// The base name, without the namespace.
    pub fn basename(&self) -> (r: &String)
        ensures
            r@ == self@.1,
    {
        &self.id
    }

    /// Whether two names are equal.
    pub fn same(&self, other: &Name) -> (r: bool)
        ensures
            r == (self@ == other@),
    {
        strings_eq(&self.path, &other.path) && self.id == other.id
    }
}

impl Clone for Name {
    fn clone(&self) -> (r: Self)
        ensures
            r@ == self@,
    {
        let path = self.path.clone();
        proof {
            assert(path@ =~= self.path@);
        }
        Name { path, id: self.id.clone() }
    }
}

impl PartialEq for Name {
    fn eq(&self, other: &Name) -> (r: bool) {
        self.same(other)
    }
}

impl vstd::std_specs::cmp::PartialEqSpecImpl for Name {
    open spec fn obeys_eq_spec() -> bool {
        true
    }

    open spec fn eq_spec(&self, other: &Name) -> bool {
        self@ == other@
    }
}

impl Eq for Name {}

/// The type of an entity: a declared name, or the type of unspecified entities.
pub enum EntityType {
    Concrete(Name),
    Unspecified,
}

impl View for EntityType {
    type V = EntityTypeView;

    open spec fn view(&self) -> EntityTypeView {
        match self {
            EntityType::Concrete(n) => Some(n@),
            EntityType::Unspecified => None,
        }
    }
}

impl EntityType {
    /// Whether two entity types are equal.
    pub fn same(&self, other: &EntityType) -> (r: bool)
        ensures
            r == (self@ == other@),
    {
        match (self, other) {
            (EntityType::Concrete(a), EntityType::Concrete(b)) => a.same(b),
            (EntityType::Unspecified, EntityType::Unspecified) => true,
            _ => false,
        }
    }
}

impl Clone for EntityType {
    fn clone(&self) -> (r: Self)
        ensures
            r@ == self@,
    {
        match self {
            EntityType::Concrete(n) => EntityType::Concrete(n.clone()),
            EntityType::Unspecified => EntityType::Unspecified,
        }
    }
}

impl PartialEq for EntityType {
    fn eq(&self, other: &EntityType) -> (r: bool) {
        self.same(other)
    }
}

impl vstd::std_specs::cmp::PartialEqSpecImpl for EntityType {
    open spec fn obeys_eq_spec() -> bool {
        true
    }

    open spec fn eq_spec(&self, other: &EntityType) -> bool {
        self@ == other@
    }
}

impl Eq for EntityType {}

/// The identity of an entity: its type and its id.
pub struct EntityUID {
    pub ty: EntityType,
    pub eid: String,
}

impl View for EntityUID {
    type V = EntityUidView;

    open spec fn view(&self) -> EntityUidView {
        (self.ty@, self.eid@)
    }
}

impl EntityUID {
    /// The uid with the given type and id.
    pub fn new(ty: EntityType, eid: String) -> (r: EntityUID)
        ensures
            r.ty == ty,
            r.eid == eid,
    {
        EntityUID { ty, eid }
    }

    /// The type of this entity.
    pub fn entity_type(&self) -> (r: &EntityType)
        ensures
            r == self.ty,
    {
        &self.ty
    }

    /// The id of this entity.
    pub fn eid(&self) -> (r: &String)
        ensures
            r == self.eid,
    {
        &self.eid
    }

    /// Whether two uids are equal.
    pub fn same(&self, other: &EntityUID) -> (r: bool)
        ensures
            r == (self@ == other@),
    {
        self.ty.same(&other.ty) && self.eid == other.eid
    }
}

impl Clone for EntityUID {
    fn clone(&self) -> (r: Self)
        ensures
            r@ == self@,
    {
        EntityUID { ty: self.ty.clone(), eid: self.eid.clone() }
    }
}

impl PartialEq for EntityUID {
    fn eq(&self, other: &EntityUID) -> (r: bool) {
        self.same(other)
    }
}

impl vstd::std_specs::cmp::PartialEqSpecImpl for EntityUID {
    open spec fn obeys_eq_spec() -> bool {
        true
    }

    open spec fn eq_spec(&self, other: &EntityUID) -> bool {
        self@ == other@
    }
}

impl Eq for EntityUID {}

/// An identifier that can be compared and copied by its abstract value.
pub trait Ident: View + Sized {
    /// Whether two identifiers are equal.
    fn same_as(&self, other: &Self) -> (r: bool)
        ensures
            r == (self@ == other@);

    /// A copy of this identifier.
    fn duplicate(&self) -> (r: Self)
        ensures
            r@ == self@;
}

impl Ident for Name {
    fn same_as(&self, other: &Self) -> (r: bool) {
        self.same(other)
    }

    fn duplicate(&self) -> (r: Self) {
        self.clone()
    }
}

impl Ident for EntityUID {
    fn same_as(&self, other: &Self) -> (r: bool) {
        self.same(other)
    }

    fn duplicate(&self) -> (r: Self) {
        self.clone()
    }
}

impl Ident for EntityType {
    fn same_as(&self, other: &Self) -> (r: bool) {
        self.same(other)
    }

    fn duplicate(&self) -> (r: Self) {
        self.clone()
    }
}

/// The abstract values of a sequence of identifiers.
pub open spec fn views<K: View>(v: Seq<K>) -> Seq<K::V> {
    v.map_values(|k: K| k@)
}

/// The position of an identifier equal to `k` in `v`, if there is one.
pub fn index_of<K: Ident>(v: &Vec<K>, k: &K) -> (r: Option<usize>)
    ensures
        r matches Some(i) ==> i < v.len() && v@[i as int]@ == k@,
        r is None ==> !views(v@).contains(k@),
{
    let mut i: usize = 0;
    while i < v.len()
        invariant
            i <= v.len(),
            forall|j: int| 0 <= j < i ==> v@[j]@ != k@,
        decreases v.len() - i,
    {
        if v[i].same_as(k) {
            return Some(i);
        }
        i = i + 1;
    }
    proof {
        assert forall|j: int| 0 <= j < views(v@).len() implies views(v@)[j] != k@ by {
            assert(views(v@)[j] == v@[j]@);
        }
    }
    None
}

/// Whether `v` holds an identifier equal to `k`.
pub fn contains_key<K: Ident>(v: &Vec<K>, k: &K) -> (r: bool)
    ensures
        r == views(v@).contains(k@),
{
    match index_of(v, k) {
        Some(i) => {
            assert(views(v@)[i as int] == k@);
            true
        },
        None => false,
    }
}

/// Adds `k` to `v` unless an identifier equal to it is already there.
pub fn insert_key<K: Ident>(v: &mut Vec<K>, k: K)
    ensures
        forall|m: K::V|
            #![trigger views(final(v)@).contains(m)]
            views(final(v)@).contains(m) <==> (views(old(v)@).contains(m) || m == k@),
        views(old(v)@).no_duplicates() ==> views(final(v)@).no_duplicates(),
{
    if !contains_key(v, &k) {
        let ghost before = v@;
        let ghost kv = k@;
        v.push(k);
        proof {
            assert(views(v@) =~= views(before).push(kv));
            assert forall|m: K::V|
                views(v@).contains(m) <==> (views(before).contains(m) || m == kv) by {
                if views(v@).contains(m) && m != kv {
                    let j = choose|j: int| 0 <= j < views(v@).len() && views(v@)[j] == m;
                    assert(views(before)[j] == m);
                }
                if views(before).contains(m) {
                    let j = choose|j: int| 0 <= j < views(before).len() && views(before)[j] == m;
                    assert(views(v@)[j] == m);
                }
                if m == kv {
                    assert(views(v@)[before.len() as int] == m);
                }
            }
        }
    }
}

/// A copy of each identifier of `v`, in order.
pub fn copy_keys<K: Ident>(v: &Vec<K>) -> (r: Vec<K>)
    ensures
        views(r@) == views(v@),
{
    let mut r: Vec<K> = Vec::new();
    let mut i: usize = 0;
    while i < v.len()
        invariant
            i <= v.len(),
            r.len() == i,
            forall|k: int| 0 <= k < i ==> r@[k]@ == v@[k]@,
        decreases v.len() - i,
    {
        r.push(v[i].duplicate());
        i = i + 1;
    }
    assert(views(r@) =~= views(v@));
    r
}

/// The text of a name: its path and base name, separated by `::`.
pub open spec fn name_text(n: NameView) -> Seq<char> {
    joined(n.0.push(n.1), "::"@)
}

/// The text of an entity type; the unspecified type shows as `<Unspecified>`.
pub open spec fn entity_type_text(t: EntityTypeView) -> Seq<char> {
    match t {
        Some(n) => name_text(n),
        None => "<Unspecified>"@,
    }
}

/// What `str::escape_debug` makes of a string.
pub uninterp spec fn escape_debug_of(s: Seq<char>) -> Seq<char>;

/// Relies on str::escape_debug: the escaped text depends on the characters alone.
#[verifier::external_body]
fn escape_debug(s: &str) -> (r: String)
    ensures
        r@ == escape_debug_of(s@),
{
    s.escape_debug().to_string()
}

/// The text of an entity uid whose id, escaped, is `escaped_eid`.
pub open spec fn uid_text_with(t: EntityTypeView, escaped_eid: Seq<char>) -> Seq<char> {
    entity_type_text(t) + "::\""@ + escaped_eid + "\""@
}

/// The text of an entity uid: its type, `::`, and its id escaped in quotes.
pub open spec fn uid_text(u: EntityUidView) -> Seq<char> {
    uid_text_with(u.0, escape_debug_of(u.1))
}

impl Name {
    /// The text of this name, such as `NS::Type`.
    pub fn to_text(&self) -> (r: String)
        ensures
            r@ == name_text(self@),
    {
        let mut parts = self.path.clone();
        proof {
            assert(parts@ =~= self.path@);
        }
        parts.push(self.id.clone());
        proof {
            assert(strings_view(parts@) =~= strings_view(self.path@).push(self.id@));
        }
        join_strings(&parts, "::")
    }
}

impl EntityType {
    /// The text of this entity type.
    pub fn to_text(&self) -> (r: String)
        ensures
            r@ == entity_type_text(self@),
    {
        match self {
            EntityType::Concrete(n) => n.to_text(),
            EntityType::Unspecified => String::from_str("<Unspecified>"),
        }
    }
}

impl EntityUID {
    /// The text of this uid, given its id already escaped.
    pub fn text_with_escaped_id(&self, escaped_eid: &String) -> (r: String)
        ensures
            r@ == uid_text_with(self.ty@, escaped_eid@),
    {
        let mut r = self.ty.to_text();
        r.append("::\"");
        r.append(escaped_eid.as_str());
        r.append("\"");
        r
    }

    /// The text of this uid, such as `NS::User::"alice"`.
    pub fn to_text(&self) -> (r: String)
        ensures
            r@ == uid_text(self@),
    {
        let escaped = escape_debug(self.eid.as_str());
        self.text_with_escaped_id(&escaped)
    }
}

} // verus!
