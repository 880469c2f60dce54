//! Editing components and uniques through [Data].

use crate::data::{limits_view, Data, LimitView, ValueView};
use vstd::prelude::*;

verus! {

/// A component or unique that can be edited in the editor: [Edit::get_data] shows its
/// fields as named values with their limits, and [Edit::set_data] writes edited values back.
/// An implementation says in its own contracts what data it shows and which values it takes.
pub trait Edit: Sized {
    /// The name of the type.
    fn name() -> &'static str;

    /// The fields as named values; none by default.
    fn get_data(&self) -> (r: Data)
        default_ensures
            r@ == Seq::<(Seq<char>, ValueView)>::empty(),
            limits_view(r.limits@) == Seq::<(Seq<char>, LimitView)>::empty(),
    {
        Data::new()
    }

    /// Writes back the values that `data` holds for the fields; nothing by default.
    fn set_data(&mut self, data: &Data) {
    }

    /// The default value with the values of `data` written into it: the result is the value
    /// that the type's `set_data` makes of its `default()` when it takes `data`.
    fn from(data: &Data) -> (r: Self) where Self: Default
        ensures
            exists|d: Self, m: &mut Self|
                call_ensures(Self::default, (), d) && mut_ref_current(m) == d && mut_ref_future(m) == r
                    && call_ensures(Self::set_data, (m, data), ()),
    {
        let mut e = Self::default();
        e.set_data(data);
        e
    }
}

} // verus!
