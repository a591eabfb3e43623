//! The generic entity record: an optional identity (key), an optional version
//! token, and an ordered mapping of property names to typed values.

use vstd::prelude::*;

verus! {

/// One element of a key path: a kind together with either a string name, a
/// numeric id, or neither. An element with neither name nor id is incomplete:
/// it is a placeholder for an identity the store has yet to assign.
pub struct PathElement {
    pub kind: String,
    pub name: Option<String>,
    pub id: Option<i64>,
}

/// Mathematical model of a [`PathElement`].
#[verifier::ext_equal]
pub ghost struct PathElementView {
    pub kind: Seq<char>,
    pub name: Option<Seq<char>>,
    pub id: Option<i64>,
}

impl View for PathElement {
    type V = PathElementView;

    open spec fn view(&self) -> PathElementView {
        PathElementView { kind: self.kind@, name: self.name.deep_view(), id: self.id }
    }
}

impl DeepView for PathElement {
    type V = PathElementView;

    open spec fn deep_view(&self) -> PathElementView {
        self.view()
    }
}

impl Clone for PathElement {
    fn clone(&self) -> (r: Self)
        ensures
            r@ == self@,
    {
        PathElement {
            kind: self.kind.clone(),
            name: match &self.name {
                Some(s) => Some(s.clone()),
                None => None,
            },
            id: self.id,
        }
    }
}

impl PathElement {
    /// An element whose identity the store is expected to assign.
    pub fn incomplete(kind: String) -> (r: Self)
        ensures
            r@ == (PathElementView { kind: kind@, name: None, id: None }),
    {
        PathElement { kind, name: None, id: None }
    }

    /// An element addressed by a numeric id.
    pub fn with_id(kind: String, id: i64) -> (r: Self)
        ensures
            r@ == (PathElementView { kind: kind@, name: None, id: Some(id) }),
    {
        PathElement { kind, name: None, id: Some(id) }
    }

    /// An element addressed by a string name.
    pub fn with_name(kind: String, name: String) -> (r: Self)
        ensures
            r@ == (PathElementView { kind: kind@, name: Some(name@), id: None }),
    {
        PathElement { kind, name: Some(name), id: None }
    }
}

/// The identity of a stored entity: a path of one or more elements, the first
/// of which identifies the root entity.
pub struct Key {
    pub path: Vec<PathElement>,
}

/// Mathematical model of a [`Key`].
#[verifier::ext_equal]
pub ghost struct KeyView {
    pub path: Seq<PathElementView>,
}

impl View for Key {
    type V = KeyView;

    open spec fn view(&self) -> KeyView {
        KeyView { path: self.path.deep_view() }
    }
}

impl DeepView for Key {
    type V = KeyView;

    open spec fn deep_view(&self) -> KeyView {
        self.view()
    }
}

impl Clone for Key {
    fn clone(&self) -> (r: Self)
        ensures
            r@ == self@,
    {
        let mut path: Vec<PathElement> = Vec::new();
        let mut i: usize = 0;
        while i < self.path.len()
            invariant
                i <= self.path.len(),
                path@.len() == i,
                forall|j: int| 0 <= j < i ==> path@[j]@ == self.path@[j]@,
            decreases self.path.len() - i,
        {
            path.push(self.path[i].clone());
            i = i + 1;
        }
        proof {
            assert forall|j: int| 0 <= j < path@.len() implies path.deep_view()[j]
                == self.path.deep_view()[j] by {
                assert(path@[j]@ == self.path@[j]@);
            }
            assert(path.deep_view() =~= self.path.deep_view());
        }
        Key { path }
    }
}

/// Compares two optional strings by contents.
fn opt_string_eq(a: &Option<String>, b: &Option<String>) -> (r: bool)
    ensures
        r == (a.deep_view() == b.deep_view()),
{
    match (a, b) {
        (Some(x), Some(y)) => x.eq(y),
        (None, None) => true,
        _ => false,
    }
}

/// Compares two optional ids.
fn opt_i64_eq(a: &Option<i64>, b: &Option<i64>) -> (r: bool)
    ensures
        r == (*a == *b),
{
    match (a, b) {
        (Some(x), Some(y)) => *x == *y,
        (None, None) => true,
        _ => false,
    }
}

/// Compares two path elements by contents.
fn path_element_eq(a: &PathElement, b: &PathElement) -> (r: bool)
    ensures
        r == (a@ == b@),
{
    let r = a.kind == b.kind && opt_string_eq(&a.name, &b.name) && opt_i64_eq(&a.id, &b.id);
    proof {
        if r {
            assert(a@ =~= b@);
        }
    }
    r
}

/// Compares two keys by contents: equal iff their paths are equal element by
/// element.
pub fn keys_equal(a: &Key, b: &Key) -> (r: bool)
    ensures
        r == (a@ == b@),
{
    if a.path.len() != b.path.len() {
        proof {
            assert(a@.path.len() == a.path@.len());
            assert(b@.path.len() == b.path@.len());
            if a@ == b@ {
                assert(a@.path.len() == b@.path.len());
            }
        }
        return false;
    }
    let n = a.path.len();
    let mut i: usize = 0;
    while i < n
        invariant
            i <= n,
            n == a.path.len() == b.path.len(),
            forall|j: int| 0 <= j < i ==> a@.path[j] == b@.path[j],
        decreases n - i,
    {
        if !path_element_eq(&a.path[i], &b.path[i]) {
            proof {
                assert(a@.path[i as int] == a.path@[i as int]@);
                assert(b@.path[i as int] == b.path@[i as int]@);
                if a@ == b@ {
                    assert(a@.path[i as int] == b@.path[i as int]);
                }
            }
            return false;
        }
        i = i + 1;
    }
    proof {
        assert(a@.path =~= b@.path);
        assert(a@ =~= b@);
    }
    true
}

/// An identity placeholder awaiting assignment: the path is non-empty and its first
/// element carries neither a literal name nor a literal id, so the store is
/// expected to assign the identity at commit time.
pub open spec fn key_is_incomplete(k: KeyView) -> bool {
    k.path.len() > 0 && k.path[0].name is None && k.path[0].id is None
}

/// Runtime check for [`key_is_incomplete`].
pub fn check_key_incomplete(k: &Key) -> (r: bool)
    ensures
        r == key_is_incomplete(k@),
{
    if k.path.len() == 0 {
        false
    } else {
        let r = k.path[0].name.is_none() && k.path[0].id.is_none();
        proof {
            assert(k@.path[0] == k.path@[0]@);
        }
        r
    }
}

/// A typed property value.
pub enum PropertyValue {
    Text(String),
    Integer(i64),
    Boolean(bool),
    TextArray(Vec<String>),
}

/// Mathematical model of a [`PropertyValue`].
#[verifier::ext_equal]
pub ghost enum PropertyValueView {
    Text(Seq<char>),
    Integer(i64),
    Boolean(bool),
    TextArray(Seq<Seq<char>>),
}

impl View for PropertyValue {
    type V = PropertyValueView;

    open spec fn view(&self) -> PropertyValueView {
        match self {
            PropertyValue::Text(s) => PropertyValueView::Text(s@),
            PropertyValue::Integer(n) => PropertyValueView::Integer(*n),
            PropertyValue::Boolean(b) => PropertyValueView::Boolean(*b),
            PropertyValue::TextArray(v) => PropertyValueView::TextArray(v.deep_view()),
        }
    }
}

impl DeepView for PropertyValue {
    type V = PropertyValueView;

    open spec fn deep_view(&self) -> PropertyValueView {
        self.view()
    }
}

impl Clone for PropertyValue {
    fn clone(&self) -> (r: Self)
        ensures
            r@ == self@,
    {
        match self {
            PropertyValue::Text(s) => PropertyValue::Text(s.clone()),
            PropertyValue::Integer(n) => PropertyValue::Integer(*n),
            PropertyValue::Boolean(b) => PropertyValue::Boolean(*b),
            PropertyValue::TextArray(v) => {
                let mut out: Vec<String> = Vec::new();
                let mut i: usize = 0;
                while i < v.len()
                    invariant
                        i <= v.len(),
                        out@.len() == i,
                        forall|j: int| 0 <= j < i ==> out@[j]@ == v@[j]@,
                    decreases v.len() - i,
                {
                    out.push(v[i].clone());
                    i = i + 1;
                }
                proof {
                    assert forall|j: int| 0 <= j < out@.len() implies out.deep_view()[j]
                        == v.deep_view()[j] by {
                        assert(out@[j]@ == v@[j]@);
                    }
                    assert(out.deep_view() =~= v.deep_view());
                }
                PropertyValue::TextArray(out)
            },
        }
    }
}

/// One named property of an entity record.
pub struct Property {
    pub name: String,
    pub value: PropertyValue,
}

/// Mathematical model of a [`Property`].
#[verifier::ext_equal]
pub ghost struct PropertyView {
    pub name: Seq<char>,
    pub value: PropertyValueView,
}

impl View for Property {
    type V = PropertyView;

    open spec fn view(&self) -> PropertyView {
        PropertyView { name: self.name@, value: self.value@ }
    }
}

impl DeepView for Property {
    type V = PropertyView;

    open spec fn deep_view(&self) -> PropertyView {
        self.view()
    }
}

impl Clone for Property {
    fn clone(&self) -> (r: Self)
        ensures
            r@ == self@,
    {
        Property { name: self.name.clone(), value: self.value.clone() }
    }
}

/// The value bound to `name` in an ordered property sequence: the first
/// binding wins.
pub open spec fn spec_get_property(props: Seq<PropertyView>, name: Seq<char>) -> Option<
    PropertyValueView,
>
    decreases props.len(),
{
    if props.len() == 0 {
        None
    } else if props[0].name == name {
        Some(props[0].value)
    } else {
        spec_get_property(props.drop_first(), name)
    }
}

/// The property sequence after binding `name` to `value`: the first existing
/// binding is replaced, otherwise the binding is appended.
pub open spec fn spec_set_property(
    props: Seq<PropertyView>,
    name: Seq<char>,
    value: PropertyValueView,
) -> Seq<PropertyView>
    decreases props.len(),
{
    if props.len() == 0 {
        seq![PropertyView { name, value }]
    } else if props[0].name == name {
        seq![PropertyView { name, value }] + props.drop_first()
    } else {
        seq![props[0]] + spec_set_property(props.drop_first(), name, value)
    }
}

/// An in-memory representation of one stored document: an optional identity,
/// an optional version token, and an ordered mapping of property names to
/// typed values.
///
/// A record with no identity is new; a record with an identity but no version
/// predates version tracking and skips conflict checks; a record with both is
/// subject to optimistic concurrency.
pub struct DatastoreEntity {
    pub key: Option<Key>,
    pub version: Option<i64>,
    pub properties: Vec<Property>,
}

/// Mathematical model of a [`DatastoreEntity`].
#[verifier::ext_equal]
pub ghost struct DatastoreEntityView {
    pub key: Option<KeyView>,
    pub version: Option<i64>,
    pub properties: Seq<PropertyView>,
}

impl View for DatastoreEntity {
    type V = DatastoreEntityView;

    open spec fn view(&self) -> DatastoreEntityView {
        DatastoreEntityView {
            key: self.key.deep_view(),
            version: self.version,
            properties: self.properties.deep_view(),
        }
    }
}

impl DeepView for DatastoreEntity {
    type V = DatastoreEntityView;

    open spec fn deep_view(&self) -> DatastoreEntityView {
        self.view()
    }
}

/// Clones a vector of properties, preserving the model.
pub fn clone_properties(props: &Vec<Property>) -> (r: Vec<Property>)
    ensures
        r.deep_view() == props.deep_view(),
{
    let mut out: Vec<Property> = Vec::new();
    let mut i: usize = 0;
    while i < props.len()
        invariant
            i <= props.len(),
            out@.len() == i,
            forall|j: int| 0 <= j < i ==> out@[j]@ == props@[j]@,
        decreases props.len() - i,
    {
        out.push(props[i].clone());
        i = i + 1;
    }
    proof {
        assert forall|j: int| 0 <= j < out@.len() implies out.deep_view()[j]
            == props.deep_view()[j] by {
            assert(out@[j]@ == props@[j]@);
        }
        assert(out.deep_view() =~= props.deep_view());
    }
    out
}

impl Clone for DatastoreEntity {
    fn clone(&self) -> (r: Self)
        ensures
            r@ == self@,
    {
        let r = DatastoreEntity {
            key: match &self.key {
                Some(k) => Some(k.clone()),
                None => None,
            },
            version: self.version,
            properties: clone_properties(&self.properties),
        };
        proof {
            assert(r@ =~= self@);
        }
        r
    }
}

impl DatastoreEntity {
    /// A record with the given identity and version and no properties.
    pub fn new(key: Option<Key>, version: Option<i64>) -> (r: Self)
        ensures
            r@ == (DatastoreEntityView {
                key: key.deep_view(),
                version,
                properties: Seq::<PropertyView>::empty(),
            }),
    {
        let r = DatastoreEntity { key, version, properties: Vec::new() };
        proof {
            assert(r@.properties =~= Seq::<PropertyView>::empty());
        }
        r
    }

    /// The record's identity, if any.
    pub fn key(&self) -> (r: Option<Key>)
        ensures
            r.deep_view() == self@.key,
    {
        match &self.key {
            Some(k) => Some(k.clone()),
            None => None,
        }
    }

    /// The record's version token, if any.
    pub fn version(&self) -> (r: Option<i64>)
        ensures
            r == self@.version,
    {
        self.version
    }

    /// Replaces the record's identity.
    pub fn set_key(&mut self, key: Option<Key>)
        ensures
            final(self)@ == (DatastoreEntityView { key: key.deep_view(), ..old(self)@ }),
    {
        self.key = key;
    }

    /// The value bound to `name`, if any.
    pub fn get_property(&self, name: &String) -> (r: Option<&PropertyValue>)
        ensures
            r.deep_view() == spec_get_property(self@.properties, name@),
    {
        let n = self.properties.len();
        let mut i: usize = 0;
        proof {
            assert(self@.properties.skip(0) =~= self@.properties);
        }
        while i < n
            invariant
                i <= n,
                n == self.properties.len(),
                spec_get_property(self@.properties, name@) == spec_get_property(
                    self@.properties.skip(i as int),
                    name@,
                ),
        decreases n - i,
        {
            proof {
                assert(self@.properties.skip(i as int).drop_first() =~= self@.properties.skip(
                    i as int + 1,
                ));
            }
            if self.properties[i].name.eq(name) {
                return Some(&self.properties[i].value);
            }
            i = i + 1;
        }
        None
    }

    /// Binds `name` to `value`, replacing the first existing binding or
    /// appending a new one.
    pub fn set_property(&mut self, name: String, value: PropertyValue)
        ensures
            final(self)@ == (DatastoreEntityView {
                properties: spec_set_property(old(self)@.properties, name@, value@),
                ..old(self)@
            }),
    {
        let n = self.properties.len();
        let mut i: usize = 0;
        while i < n
            invariant
                i <= n,
                n == self.properties.len(),
                self@ == old(self)@,
                forall|j: int| 0 <= j < i ==> self@.properties[j].name != name@,
            decreases n - i,
        {
            if self.properties[i].name.eq(&name) {
                self.properties[i] = Property { name, value };
                proof {
                    lemma_set_property_at(old(self)@.properties, name@, value@, i as int);
                    assert(self@.properties =~= old(self)@.properties.update(
                        i as int,
                        PropertyView { name: name@, value: value@ },
                    ));
                    assert(self@ =~= (DatastoreEntityView {
                        properties: spec_set_property(old(self)@.properties, name@, value@),
                        ..old(self)@
                    }));
                }
                return ;
            }
            i = i + 1;
        }
        self.properties.push(Property { name, value });
        proof {
            lemma_set_property_absent(old(self)@.properties, name@, value@);
            assert(self@.properties =~= old(self)@.properties.push(
                PropertyView { name: name@, value: value@ },
            ));
            assert(self@ =~= (DatastoreEntityView {
                properties: spec_set_property(old(self)@.properties, name@, value@),
                ..old(self)@
            }));
        }
    }
}

/// If the first binding of `name` is at index `i`, then setting `name`
/// replaces exactly that index.
proof fn lemma_set_property_at(
    props: Seq<PropertyView>,
    name: Seq<char>,
    value: PropertyValueView,
    i: int,
)
    requires
        0 <= i < props.len(),
        props[i].name == name,
        forall|j: int| 0 <= j < i ==> props[j].name != name,
    ensures
        spec_set_property(props, name, value) =~= props.update(
            i,
            PropertyView { name, value },
        ),
    decreases i,
{
    if i == 0 {
        assert(spec_set_property(props, name, value) =~= props.update(
            0,
            PropertyView { name, value },
        ));
    } else {
        assert(props[0].name != name);
        lemma_set_property_at(props.drop_first(), name, value, i - 1);
        assert(spec_set_property(props, name, value) =~= seq![props[0]] + spec_set_property(
            props.drop_first(),
            name,
            value,
        ));
        assert(seq![props[0]] + props.drop_first().update(i - 1, PropertyView { name, value })
            =~= props.update(i, PropertyView { name, value }));
    }
}

/// If `name` is bound nowhere, setting it appends a binding.
proof fn lemma_set_property_absent(
    props: Seq<PropertyView>,
    name: Seq<char>,
    value: PropertyValueView,
)
    requires
        forall|j: int| 0 <= j < props.len() ==> props[j].name != name,
    ensures
        spec_set_property(props, name, value) =~= props.push(PropertyView { name, value }),
    decreases props.len(),
{
    if props.len() == 0 {
    } else {
        lemma_set_property_absent(props.drop_first(), name, value);
        assert(seq![props[0]] + props.drop_first().push(PropertyView { name, value }) =~= props.push(
            PropertyView { name, value },
        ));
    }
}

} // verus!
