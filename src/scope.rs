use crate::ast::{Native, Value};
use vstd::prelude::*;

verus! {

#[verifier::external_type_specification]
#[verifier::external_body]
#[verifier::reject_recursive_types(K)]
#[verifier::reject_recursive_types(V)]
#[verifier::reject_recursive_types(S)]
pub struct ExHashMap<K, V, S>(im::HashMap<K, V, S>);

/// A persistent map from names to values.
pub type Bindings = im::HashMap<String, Value>;

/// What an `im::HashMap` from names to values maps each name to.
pub uninterp spec fn bindings(m: Bindings) -> Map<Seq<char>, Value>;

/// Relies on `im::HashMap::new`: a map with no keys.
#[verifier::external_body]
fn empty_bindings() -> (r: Bindings)
    ensures
        bindings(r).dom() == Set::<Seq<char>>::empty(),
{
    im::HashMap::new()
}

/// Relies on `im::HashMap::insert`: the key now maps to the value, replacing
/// what it mapped to before; other keys keep theirs.
#[verifier::external_body]
fn bind(m: &mut Bindings, k: String, v: Value)
    ensures
        bindings(*final(m)) == bindings(*old(m)).insert(k@, v),
{
    m.insert(k, v);
}

/// Relies on `im::HashMap::get`: the value the key maps to, if any.
#[verifier::external_body]
fn bound(m: &Bindings, k: &str) -> (r: Option<Value>)
    ensures
        r == (if bindings(*m).contains_key(k@) {
            Some(bindings(*m)[k@])
        } else {
            None
        }),
{
    m.get(k).copied()
}

/// A mapping from names to values, for variables and native functions alike.
pub struct Scope {
    values: Bindings,
}

impl View for Scope {
    type V = Map<Seq<char>, Value>;

    closed spec fn view(&self) -> Map<Seq<char>, Value> {
        bindings(self.values)
    }
}

/// The names that every program starts with.
pub open spec fn natives() -> Map<Seq<char>, Value> {
    Map::empty().insert("print"@, Value::NativeFunction(Native::Print))
}

impl Scope {
    /// A scope with no names.
    pub fn new() -> (r: Scope)
        ensures
            r@ == Map::<Seq<char>, Value>::empty(),
    {
        let r = Scope { values: empty_bindings() };
        proof {
            assert(r@ =~= Map::<Seq<char>, Value>::empty());
        }
        r
    }

    /// The value of `name`, or `Nothing` where it has none.
    pub fn get(&self, name: &str) -> (r: Value)
        ensures
            r == (if self@.contains_key(name@) {
                self@[name@]
            } else {
                Value::Nothing
            }),
    {
        match bound(&self.values, name) {
            Some(v) => v,
            None => Value::Nothing,
        }
    }

    /// Binds `name` to `value`, replacing any earlier value.
    pub fn set(&mut self, name: String, value: Value)
        ensures
            final(self)@ == old(self)@.insert(name@, value),
    {
        bind(&mut self.values, name, value);
    }
}

/// Adds the native functions to `scope`.
pub fn add_std_lib(scope: &mut Scope)
    ensures
        final(scope)@ == old(scope)@.insert("print"@, Value::NativeFunction(Native::Print)),
{
    scope.set("print".to_owned(), Value::NativeFunction(Native::Print));
}

} // verus!
