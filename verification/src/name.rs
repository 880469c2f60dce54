//! The name of an entity.

use crate::data::{lemma_kv_get_at, lemma_kv_put_fresh, limits_view, string_field, Data, LimitView, Value, ValueView};
use crate::edit::Edit;
use vstd::prelude::*;

verus! {

/// The component that defines the name of an entity. The editor displays this name in the
/// entity list.
#[derive(Clone, PartialEq, Eq, Debug)]
pub struct Name(pub String);

impl Name {
    /// Create a Name component.
    pub fn new(name: String) -> (r: Name)
        ensures
            r.0@ == name@,
    {
        name.into()
    }

    /// The name.
    pub fn as_str(&self) -> (r: &str)
        ensures
            r@ == self.0@,
    {
        self.0.as_str()
    }
}

impl From<String> for Name {
    fn from(name: String) -> (r: Name) {
        Name(name)
    }
}

impl vstd::std_specs::convert::FromSpecImpl<String> for Name {
    open spec fn obeys_from_spec() -> bool {
        true
    }

    open spec fn from_spec(v: String) -> Name {
        Name(v)
    }
}

impl Default for Name {
    /// An empty name.
    fn default() -> (r: Name)
        ensures
            r.0@ == Seq::<char>::empty(),
    {
        Name(String::new())
    }
}

impl Edit for Name {
    fn name() -> (r: &'static str)
        ensures
            r@ == "Name"@,
    {
        "Name"
    }

    /// The name, as a string value named `unnamed-0`, without limit.
    fn get_data(&self) -> (r: Data)
        ensures
            r@ == seq![("unnamed-0"@, ValueView::String(self.0@))],
            limits_view(r.limits@) == Seq::<(Seq<char>, LimitView)>::empty(),
    {
        let r = Data::new().insert("unnamed-0", Value::String(self.0.clone()));
        proof {
            lemma_kv_put_fresh(Seq::<(Seq<char>, ValueView)>::empty(), "unnamed-0"@, ValueView::String(self.0@));
            assert(r@ =~= seq![("unnamed-0"@, ValueView::String(self.0@))]);
        }
        r
    }

    /// Takes a string value named `unnamed-0`.
    fn set_data(&mut self, data: &Data)
        ensures
            final(self).0@ == string_field(data@, "unnamed-0"@, old(self).0@),
    {
        if let Some(Value::String(v)) = data.get("unnamed-0") {
            self.0 = v.clone();
        }
    }
}

/// Law: writing back the data that a name shows restores it, whatever name it is written
/// into.
pub proof fn lemma_name_edit_roundtrip(name: Seq<char>, other: Seq<char>)
    ensures
        string_field(seq![("unnamed-0"@, ValueView::String(name))], "unnamed-0"@, other) == name,
{
    lemma_kv_get_at(seq![("unnamed-0"@, ValueView::String(name))], 0);
}

} // verus!
