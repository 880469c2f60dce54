//! The extra info of an entity, such as its name, shown by the editor.

use crate::data::{lemma_kv_get_at, lemma_kv_put_fresh, limits_view, string_field, Data, LimitView, Value, ValueView};
use crate::edit::Edit;
use vstd::prelude::*;

verus! {

/// The entity extra info, like the entity name, mainly used in the editor to display the
/// name of the entity.
#[derive(Clone, PartialEq, Eq, Debug)]
pub struct EntityInfo {
    pub name: String,
}

impl EntityInfo {
    /// Create an EntityInfo with a name.
    pub fn new(name: String) -> (r: EntityInfo)
        ensures
            r.name@ == name@,
    {
        EntityInfo { name }
    }
}

impl Default for EntityInfo {
    /// An EntityInfo with an empty name.
    fn default() -> (r: EntityInfo)
        ensures
            r.name@ == Seq::<char>::empty(),
    {
        EntityInfo { name: String::new() }
    }
}

impl Edit for EntityInfo {
    fn name() -> (r: &'static str)
        ensures
            r@ == "EntityInfo"@,
    {
        "EntityInfo"
    }

    /// The name, as a string value named `name`, without limit.
    fn get_data(&self) -> (r: Data)
        ensures
            r@ == seq![("name"@, ValueView::String(self.name@))],
            limits_view(r.limits@) == Seq::<(Seq<char>, LimitView)>::empty(),
    {
        let r = Data::new().insert("name", Value::String(self.name.clone()));
        proof {
            lemma_kv_put_fresh(Seq::<(Seq<char>, ValueView)>::empty(), "name"@, ValueView::String(self.name@));
            assert(r@ =~= seq![("name"@, ValueView::String(self.name@))]);
        }
        r
    }

    /// Takes a string value named `name`.
    fn set_data(&mut self, data: &Data)
        ensures
            final(self).name@ == string_field(data@, "name"@, old(self).name@),
    {
        if let Some(Value::String(v)) = data.get("name") {
            self.name = v.clone();
        }
    }
}

/// Law: writing back the data that an entity info shows restores its name, whatever name
/// it is written into.
pub proof fn lemma_entity_info_edit_roundtrip(name: Seq<char>, other: Seq<char>)
    ensures
        string_field(seq![("name"@, ValueView::String(name))], "name"@, other) == name,
{
    lemma_kv_get_at(seq![("name"@, ValueView::String(name))], 0);
}

} // verus!
