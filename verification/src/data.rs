//! Editable data of components and uniques, and whole scenes of entities, with the entity
//! id remapping used when entities are added to a world.

use crate::asset::AssetId;
use crate::ecs::DEAD;
use std::collections::{HashMap, HashSet};
use vstd::prelude::*;

verus! {

/// A value of a component or unique field. Floating point numbers are carried by their
/// IEEE-754 bits.
#[derive(Clone, PartialEq, Debug)]
pub enum Value {
    Bool(bool),
    Int32(i32),
    UInt32(u32),
    UInt64(u64),
    Float32(u32),
    String(String),
    Entity(u64),
    VecEntity(Vec<u64>),
    VecUInt64(Vec<u64>),
    Asset(AssetId),
    Vec2(u32, u32),
    Vec3(u32, u32, u32),
    Vec4(u32, u32, u32, u32),
}

/// The mathematical view of a [Value].
pub enum ValueView {
    Bool(bool),
    Int32(i32),
    UInt32(u32),
    UInt64(u64),
    Float32(u32),
    String(Seq<char>),
    Entity(u64),
    VecEntity(Seq<u64>),
    VecUInt64(Seq<u64>),
    Asset(u64),
    Vec2(u32, u32),
    Vec3(u32, u32, u32),
    Vec4(u32, u32, u32, u32),
}

impl View for Value {
    type V = ValueView;

    open spec fn view(&self) -> ValueView {
        match self {
            Value::Bool(b) => ValueView::Bool(*b),
            Value::Int32(i) => ValueView::Int32(*i),
            Value::UInt32(u) => ValueView::UInt32(*u),
            Value::UInt64(u) => ValueView::UInt64(*u),
            Value::Float32(f) => ValueView::Float32(*f),
            Value::String(s) => ValueView::String(s@),
            Value::Entity(e) => ValueView::Entity(*e),
            Value::VecEntity(v) => ValueView::VecEntity(v@),
            Value::VecUInt64(v) => ValueView::VecUInt64(v@),
            Value::Asset(a) => ValueView::Asset(a.0),
            Value::Vec2(x, y) => ValueView::Vec2(*x, *y),
            Value::Vec3(x, y, z) => ValueView::Vec3(*x, *y, *z),
            Value::Vec4(x, y, z, w) => ValueView::Vec4(*x, *y, *z, *w),
        }
    }
}

/// A limit on how a value may be edited.
#[derive(Clone, PartialEq, Debug)]
pub enum Limit {
    ReadOnly,
    Int32Range(i32, i32),
    UInt32Range(u32, u32),
    Float32Range(u32, u32),
    Float32Rotation,
    Int32Enum(Vec<(i32, String)>),
    Vec3Color,
    Vec4Color,
}

/// The mathematical view of a [Limit].
pub enum LimitView {
    ReadOnly,
    Int32Range(i32, i32),
    UInt32Range(u32, u32),
    Float32Range(u32, u32),
    Float32Rotation,
    Int32Enum(Seq<(i32, Seq<char>)>),
    Vec3Color,
    Vec4Color,
}

impl View for Limit {
    type V = LimitView;

    open spec fn view(&self) -> LimitView {
        match self {
            Limit::ReadOnly => LimitView::ReadOnly,
            Limit::Int32Range(a, b) => LimitView::Int32Range(*a, *b),
            Limit::UInt32Range(a, b) => LimitView::UInt32Range(*a, *b),
            Limit::Float32Range(a, b) => LimitView::Float32Range(*a, *b),
            Limit::Float32Rotation => LimitView::Float32Rotation,
            Limit::Int32Enum(v) => LimitView::Int32Enum(
                v@.map_values(|p: (i32, String)| (p.0, p.1@)),
            ),
            Limit::Vec3Color => LimitView::Vec3Color,
            Limit::Vec4Color => LimitView::Vec4Color,
        }
    }
}

/// The index of the first entry with key `k`, or -1.
pub open spec fn kv_index<K, V>(s: Seq<(K, V)>, k: K) -> int
    decreases s.len(),
{
    if s.len() == 0 {
        -1
    } else {
        let i = kv_index(s.drop_last(), k);
        if i >= 0 {
            i
        } else if s.last().0 == k {
            s.len() - 1
        } else {
            -1
        }
    }
}

/// The value of the entry with key `k`.
pub open spec fn kv_get<K, V>(s: Seq<(K, V)>, k: K) -> Option<V> {
    let i = kv_index(s, k);
    if i >= 0 {
        Some(s[i].1)
    } else {
        None
    }
}

/// Insertion into an insertion-ordered map: an existing key keeps its place and gets the
/// new value, a new key is appended.
pub open spec fn kv_put<K, V>(s: Seq<(K, V)>, k: K, v: V) -> Seq<(K, V)> {
    let i = kv_index(s, k);
    if i >= 0 {
        s.update(i, (k, v))
    } else {
        s.push((k, v))
    }
}

/// The keys of an insertion-ordered map are distinct.
pub open spec fn kv_unique<K, V>(s: Seq<(K, V)>) -> bool {
    forall|i: int, j: int| 0 <= i < s.len() && 0 <= j < s.len() && i != j ==> s[i].0 != s[j].0
}

/// Properties of the index of a key.
pub proof fn lemma_kv_index<K, V>(s: Seq<(K, V)>, k: K)
    ensures
        -1 <= kv_index(s, k) < s.len(),
        kv_index(s, k) >= 0 ==> s[kv_index(s, k)].0 == k,
        kv_index(s, k) >= 0 ==> forall|j: int| 0 <= j < kv_index(s, k) ==> s[j].0 != k,
        kv_index(s, k) < 0 ==> forall|j: int| 0 <= j < s.len() ==> s[j].0 != k,
    decreases s.len(),
{
    if s.len() > 0 {
        let d = s.drop_last();
        lemma_kv_index(d, k);
        assert forall|j: int| 0 <= j < d.len() implies d[j] == s[j] by {}
    }
}

/// Law: reading a key right after putting it gives the value put; other keys are unaffected.
pub proof fn lemma_kv_put_get<K, V>(s: Seq<(K, V)>, k: K, v: V, k2: K)
    ensures
        kv_get(kv_put(s, k, v), k) == Some(v),
        k2 != k ==> kv_get(kv_put(s, k, v), k2) == kv_get(s, k2),
{
    let t = kv_put(s, k, v);
    lemma_kv_index(s, k);
    lemma_kv_index(s, k2);
    lemma_kv_index(t, k);
    lemma_kv_index(t, k2);
    let i = kv_index(s, k);
    if i >= 0 {
        assert(t[i].0 == k);
        if kv_index(t, k) < i {
            assert(t[kv_index(t, k)] == s[kv_index(t, k)]);
        }
        if k2 != k {
            let j = kv_index(s, k2);
            let j2 = kv_index(t, k2);
            if j >= 0 {
                assert(t[j] == s[j]);
                if j2 < j && j2 >= 0 {
                    assert(t[j2] == s[j2] || j2 == i);
                }
            } else if j2 >= 0 {
                assert(j2 != i);
                assert(t[j2] == s[j2]);
            }
        }
    } else {
        assert(t[s.len() as int].0 == k);
        if kv_index(t, k) >= 0 && kv_index(t, k) < s.len() {
            assert(t[kv_index(t, k)] == s[kv_index(t, k)]);
        }
        if k2 != k {
            let j = kv_index(s, k2);
            let j2 = kv_index(t, k2);
            if j >= 0 {
                assert(t[j] == s[j]);
            }
            if j2 >= 0 {
                assert(j2 < s.len());
                assert(t[j2] == s[j2]);
            }
        }
    }
}

/// Putting a key that no entry has appends it.
pub proof fn lemma_kv_put_fresh<K, V>(s: Seq<(K, V)>, k: K, v: V)
    requires
        forall|j: int| 0 <= j < s.len() ==> s[j].0 != k,
    ensures
        kv_put(s, k, v) == s.push((k, v)),
        kv_get(s, k) is None,
{
    lemma_kv_index(s, k);
}

/// Reading the key of an entry whose key no earlier entry has gives its value.
pub proof fn lemma_kv_get_at<K, V>(s: Seq<(K, V)>, j: int)
    requires
        0 <= j < s.len(),
        forall|i: int| 0 <= i < j ==> s[i].0 != s[j].0,
    ensures
        kv_get(s, s[j].0) == Some(s[j].1),
{
    lemma_kv_index(s, s[j].0);
}

/// The entity value named `k` in `d`, or `old` when `d` holds none.
pub open spec fn entity_field(d: Seq<(Seq<char>, ValueView)>, k: Seq<char>, old: u64) -> u64 {
    match kv_get(d, k) {
        Some(ValueView::Entity(v)) => v,
        _ => old,
    }
}

/// The entity list value named `k` in `d`, or `old` when `d` holds none.
pub open spec fn entities_field(d: Seq<(Seq<char>, ValueView)>, k: Seq<char>, old: Seq<u64>) -> Seq<u64> {
    match kv_get(d, k) {
        Some(ValueView::VecEntity(v)) => v,
        _ => old,
    }
}

/// The string value named `k` in `d`, or `old` when `d` holds none.
pub open spec fn string_field(d: Seq<(Seq<char>, ValueView)>, k: Seq<char>, old: Seq<char>) -> Seq<char> {
    match kv_get(d, k) {
        Some(ValueView::String(v)) => v,
        _ => old,
    }
}

/// The `u32` value named `k` in `d`, or `old` when `d` holds none.
pub open spec fn uint32_field(d: Seq<(Seq<char>, ValueView)>, k: Seq<char>, old: u32) -> u32 {
    match kv_get(d, k) {
        Some(ValueView::UInt32(v)) => v,
        _ => old,
    }
}

/// The `f32` value (by its bits) named `k` in `d`, or `old` when `d` holds none.
pub open spec fn float32_field(d: Seq<(Seq<char>, ValueView)>, k: Seq<char>, old: u32) -> u32 {
    match kv_get(d, k) {
        Some(ValueView::Float32(v)) => v,
        _ => old,
    }
}

/// The data of a component or a unique: named values, and limits on how they are edited.
#[derive(Clone, Debug)]
pub struct Data {
    pub values: Vec<(String, Value)>,
    pub limits: Vec<(String, Limit)>,
}

/// The view of named values.
pub open spec fn values_view(v: Seq<(String, Value)>) -> Seq<(Seq<char>, ValueView)> {
    v.map_values(|p: (String, Value)| (p.0@, p.1@))
}

/// The view of named limits.
pub open spec fn limits_view(v: Seq<(String, Limit)>) -> Seq<(Seq<char>, LimitView)> {
    v.map_values(|p: (String, Limit)| (p.0@, p.1@))
}

impl View for Data {
    type V = Seq<(Seq<char>, ValueView)>;

    open spec fn view(&self) -> Seq<(Seq<char>, ValueView)> {
        values_view(self.values@)
    }
}

/// The index of `name` among the names of `v`, as found by a forward scan.
fn find_name<T>(v: &Vec<(String, T)>, name: &str) -> (r: Option<usize>)
    ensures
        match r {
            Some(i) => i < v.len() && i as int == kv_index(
                v@.map_values(|p: (String, T)| (p.0@, ())),
                name@,
            ),
            None => kv_index(v@.map_values(|p: (String, T)| (p.0@, ())), name@) < 0,
        },
{
    let ghost s = v@.map_values(|p: (String, T)| (p.0@, ()));
    let mut i: usize = 0;
    while i < v.len()
        invariant
            i <= v.len(),
            s == v@.map_values(|p: (String, T)| (p.0@, ())),
            kv_index(s.take(i as int), name@) < 0,
        decreases v.len() - i,
    {
        assert(s.take(i + 1).drop_last() =~= s.take(i as int));
        let eq = str_eq(v[i].0.as_str(), name);
        if eq {
            proof {
                lemma_kv_index(s, name@);
                lemma_kv_index(s.take(i as int), name@);
                assert(s[i as int].0 == name@);
                assert(kv_index(s.take(i + 1), name@) == i);
                lemma_kv_index_prefix(s, name@, i + 1);
            }
            return Some(i);
        }
        i = i + 1;
    }
    proof {
        assert(s.take(v.len() as int) =~= s);
    }
    None
}

/// A found index in a prefix is the index in the whole sequence.
pub proof fn lemma_kv_index_prefix<K, V>(s: Seq<(K, V)>, k: K, n: int)
    requires
        0 <= n <= s.len(),
        kv_index(s.take(n), k) >= 0,
    ensures
        kv_index(s, k) == kv_index(s.take(n), k),
    decreases s.len() - n,
{
    if n < s.len() {
        assert(s.take(n + 1).drop_last() =~= s.take(n));
        lemma_kv_index_prefix(s, k, n + 1);
    } else {
        assert(s.take(n) =~= s);
    }
}

/// Compares two strings.
fn str_eq(a: &str, b: &str) -> (r: bool)
    ensures
        r == (a@ == b@),
{
    let x = a.to_owned();
    let y = b.to_owned();
    x == y
}

/// The index of a key depends only on the keys.
proof fn lemma_kv_index_keys<K, V, W>(s1: Seq<(K, V)>, s2: Seq<(K, W)>, k: K)
    requires
        s1.len() == s2.len(),
        forall|j: int| 0 <= j < s1.len() ==> s1[j].0 == s2[j].0,
    ensures
        kv_index(s1, k) == kv_index(s2, k),
    decreases s1.len(),
{
    if s1.len() > 0 {
        let d1 = s1.drop_last();
        let d2 = s2.drop_last();
        assert forall|j: int| 0 <= j < d1.len() implies d1[j].0 == d2[j].0 by {
            assert(d1[j] == s1[j] && d2[j] == s2[j]);
        }
        lemma_kv_index_keys(d1, d2, k);
        assert(s1.last().0 == s2.last().0);
    }
}

/// Puts a named value, replacing the value of an existing name in place.
fn put_value(values: &mut Vec<(String, Value)>, name: &str, value: Value)
    ensures
        values_view(final(values)@) == kv_put(values_view(old(values)@), name@, value@),
{
    let ghost v0 = values_view(values@);
    proof {
        lemma_kv_index_keys(values@.map_values(|p: (String, Value)| (p.0@, ())), v0, name@);
    }
    match find_name(values, name) {
        Some(i) => {
            values[i] = (name.to_owned(), value);
            assert(values_view(values@) =~= kv_put(v0, name@, value@));
        },
        None => {
            values.push((name.to_owned(), value));
            assert(values_view(values@) =~= kv_put(v0, name@, value@));
        },
    }
}

/// Puts a named limit, replacing the limit of an existing name in place.
fn put_limit(limits: &mut Vec<(String, Limit)>, name: &str, limit: Limit)
    ensures
        limits_view(final(limits)@) == kv_put(limits_view(old(limits)@), name@, limit@),
{
    let ghost v0 = limits_view(limits@);
    proof {
        lemma_kv_index_keys(limits@.map_values(|p: (String, Limit)| (p.0@, ())), v0, name@);
    }
    match find_name(limits, name) {
        Some(i) => {
            limits[i] = (name.to_owned(), limit);
            assert(limits_view(limits@) =~= kv_put(v0, name@, limit@));
        },
        None => {
            limits.push((name.to_owned(), limit));
            assert(limits_view(limits@) =~= kv_put(v0, name@, limit@));
        },
    }
}

impl Data {
    /// An empty data.
    pub fn new() -> (r: Data)
        ensures
            r@ == Seq::<(Seq<char>, ValueView)>::empty(),
            limits_view(r.limits@) == Seq::<(Seq<char>, LimitView)>::empty(),
    {
        let r = Data { values: Vec::new(), limits: Vec::new() };
        assert(r@ =~= Seq::<(Seq<char>, ValueView)>::empty());
        assert(limits_view(r.limits@) =~= Seq::<(Seq<char>, LimitView)>::empty());
        r
    }

    /// Insert a named value (replacing the value of an existing name), returning the data.
    pub fn insert(self, name: &str, value: Value) -> (r: Data)
        ensures
            r@ == kv_put(self@, name@, value@),
            limits_view(r.limits@) == limits_view(self.limits@),
    {
        let mut d = self;
        put_value(&mut d.values, name, value);
        d
    }

    /// Insert a named value with a limit, returning the data.
    pub fn insert_with_limit(self, name: &str, value: Value, limit: Limit) -> (r: Data)
        ensures
            r@ == kv_put(self@, name@, value@),
            limits_view(r.limits@) == kv_put(limits_view(self.limits@), name@, limit@),
    {
        let mut d = self;
        put_value(&mut d.values, name, value);
        put_limit(&mut d.limits, name, limit);
        d
    }

    /// Insert a named value in place.
    pub fn add_value(&mut self, name: &str, value: Value)
        ensures
            final(self)@ == kv_put(old(self)@, name@, value@),
            limits_view(final(self).limits@) == limits_view(old(self).limits@),
    {
        put_value(&mut self.values, name, value);
    }

    /// Insert a named value with a limit in place.
    pub fn add_value_with_limit(&mut self, name: &str, value: Value, limit: Limit)
        ensures
            final(self)@ == kv_put(old(self)@, name@, value@),
            limits_view(final(self).limits@) == kv_put(limits_view(old(self).limits@), name@, limit@),
    {
        put_value(&mut self.values, name, value);
        put_limit(&mut self.limits, name, limit);
    }

    /// The value of a name.
    pub fn get(&self, name: &str) -> (r: Option<&Value>)
        ensures
            r is Some <==> kv_get(self@, name@) is Some,
            r is Some ==> r.unwrap()@ == kv_get(self@, name@).unwrap(),
    {
        proof {
            lemma_kv_index_keys(self.values@.map_values(|p: (String, Value)| (p.0@, ())), self@, name@);
        }
        match find_name(&self.values, name) {
            Some(i) => Some(&self.values[i].1),
            None => None,
        }
    }
}

/// A copy of a list of u64.
pub fn copy_u64s(v: &Vec<u64>) -> (r: Vec<u64>)
    ensures
        r@ == v@,
{
    let mut r: Vec<u64> = Vec::new();
    let mut i: usize = 0;
    while i < v.len()
        invariant
            i <= v.len(),
            r@ == v@.take(i as int),
        decreases v.len() - i,
    {
        r.push(v[i]);
        assert(r@ =~= v@.take(i + 1));
        i = i + 1;
    }
    assert(v@.take(v.len() as int) =~= v@);
    r
}

impl Value {
    /// A copy of this value.
    pub fn clone_value(&self) -> (r: Value)
        ensures
            r@ == self@,
    {
        match self {
            Value::Bool(b) => Value::Bool(*b),
            Value::Int32(i) => Value::Int32(*i),
            Value::UInt32(u) => Value::UInt32(*u),
            Value::UInt64(u) => Value::UInt64(*u),
            Value::Float32(f) => Value::Float32(*f),
            Value::String(s) => Value::String(s.clone()),
            Value::Entity(e) => Value::Entity(*e),
            Value::VecEntity(v) => Value::VecEntity(copy_u64s(v)),
            Value::VecUInt64(v) => Value::VecUInt64(copy_u64s(v)),
            Value::Asset(a) => Value::Asset(AssetId(a.0)),
            Value::Vec2(x, y) => Value::Vec2(*x, *y),
            Value::Vec3(x, y, z) => Value::Vec3(*x, *y, *z),
            Value::Vec4(x, y, z, w) => Value::Vec4(*x, *y, *z, *w),
        }
    }
}

/// The new id of an entity: its image under `m` when mapped, itself otherwise.
pub open spec fn remap_eid(e: u64, m: Map<u64, u64>) -> u64 {
    if m.contains_key(e) {
        m[e]
    } else {
        e
    }
}

/// An entity id that can be remapped: it is mapped, dead, or alive in the world.
pub open spec fn eid_resolvable(e: u64, m: Map<u64, u64>, alive: Set<u64>) -> bool {
    m.contains_key(e) || e == DEAD || alive.contains(e)
}

/// A value with every entity id in it remapped.
pub open spec fn remap_value(v: ValueView, m: Map<u64, u64>) -> ValueView {
    match v {
        ValueView::Entity(e) => ValueView::Entity(remap_eid(e, m)),
        ValueView::VecEntity(es) => ValueView::VecEntity(es.map_values(|e: u64| remap_eid(e, m))),
        _ => v,
    }
}

/// Every entity id in a value can be remapped.
pub open spec fn value_resolvable(v: ValueView, m: Map<u64, u64>, alive: Set<u64>) -> bool {
    match v {
        ValueView::Entity(e) => eid_resolvable(e, m, alive),
        ValueView::VecEntity(es) => forall|i: int|
            0 <= i < es.len() ==> #[trigger] eid_resolvable(es[i], m, alive),
        _ => true,
    }
}

/// Every entity id in a data can be remapped.
pub open spec fn data_resolvable(
    d: Seq<(Seq<char>, ValueView)>,
    m: Map<u64, u64>,
    alive: Set<u64>,
) -> bool {
    forall|i: int| 0 <= i < d.len() ==> #[trigger] value_resolvable(d[i].1, m, alive)
}

/// A data rebuilt entry by entry with remapped entity ids.
pub open spec fn remap_data(d: Seq<(Seq<char>, ValueView)>, m: Map<u64, u64>) -> Seq<
    (Seq<char>, ValueView),
>
    decreases d.len(),
{
    if d.len() == 0 {
        Seq::empty()
    } else {
        kv_put(remap_data(d.drop_last(), m), d.last().0, remap_value(d.last().1, m))
    }
}

/// The new id of one entity id: its image when mapped; a dead or alive id stays.
fn update_eid(e: u64, old_id_to_new_id: &HashMap<u64, u64>, alive: &HashSet<u64>) -> (r: u64)
    requires
        eid_resolvable(e, old_id_to_new_id@, alive@),
    ensures
        r == remap_eid(e, old_id_to_new_id@),
{
    broadcast use vstd::std_specs::hash::group_hash_axioms;

    match old_id_to_new_id.get(&e) {
        Some(new_id) => *new_id,
        None => e,
    }
}

/// A value with every entity id in it remapped.
fn map_value_entities(v: &Value, old_id_to_new_id: &HashMap<u64, u64>, alive: &HashSet<u64>) -> (r:
    Value)
    requires
        value_resolvable(v@, old_id_to_new_id@, alive@),
    ensures
        r@ == remap_value(v@, old_id_to_new_id@),
{
    match v {
        Value::Entity(e) => Value::Entity(update_eid(*e, old_id_to_new_id, alive)),
        Value::VecEntity(es) => {
            let mut r: Vec<u64> = Vec::new();
            let mut i: usize = 0;
            while i < es.len()
                invariant
                    i <= es.len(),
                    forall|j: int| 0 <= j < es@.len() ==> #[trigger] eid_resolvable(es@[j], old_id_to_new_id@, alive@),
                    r@ == es@.take(i as int).map_values(|e: u64| remap_eid(e, old_id_to_new_id@)),
                decreases es.len() - i,
            {
                let n = update_eid(es[i], old_id_to_new_id, alive);
                r.push(n);
                assert(r@ =~= es@.take(i + 1).map_values(|e: u64| remap_eid(e, old_id_to_new_id@)));
                i = i + 1;
            }
            assert(es@.take(es.len() as int) =~= es@);
            Value::VecEntity(r)
        },
        _ => v.clone_value(),
    }
}

/// Update entity ids in data according to `old_id_to_new_id`: a mapped id becomes its
/// image, a dead or alive id stays. Limits are not carried over.
pub fn update_eid_in_data(data: &Data, old_id_to_new_id: &HashMap<u64, u64>, alive: &HashSet<u64>) -> (r:
    Data)
    requires
        data_resolvable(data@, old_id_to_new_id@, alive@),
    ensures
        r@ == remap_data(data@, old_id_to_new_id@),
        limits_view(r.limits@) == Seq::<(Seq<char>, LimitView)>::empty(),
{
    let mut new_data = Data::new();
    let mut i: usize = 0;
    while i < data.values.len()
        invariant
            i <= data.values.len(),
            data_resolvable(data@, old_id_to_new_id@, alive@),
            new_data@ == remap_data(data@.take(i as int), old_id_to_new_id@),
            limits_view(new_data.limits@) == Seq::<(Seq<char>, LimitView)>::empty(),
        decreases data.values.len() - i,
    {
        let (name, value) = &data.values[i];
        assert(data@[i as int] == (name@, value@));
        assert(value_resolvable(data@[i as int].1, old_id_to_new_id@, alive@));
        let new_value = map_value_entities(value, old_id_to_new_id, alive);
        assert(data@.take(i + 1).drop_last() =~= data@.take(i as int));
        new_data.add_value(name.as_str(), new_value);
        i = i + 1;
    }
    assert(data@.take(data.values.len() as int) =~= data@);
    new_data
}

/// Law: remapping data whose names are distinct keeps every name at its place and remaps
/// each value.
pub proof fn lemma_remap_data_unique(d: Seq<(Seq<char>, ValueView)>, m: Map<u64, u64>)
    requires
        kv_unique(d),
    ensures
        remap_data(d, m) == d.map_values(|p: (Seq<char>, ValueView)| (p.0, remap_value(p.1, m))),
    decreases d.len(),
{
    let f = |p: (Seq<char>, ValueView)| (p.0, remap_value(p.1, m));
    if d.len() == 0 {
        assert(remap_data(d, m) =~= d.map_values(f));
    } else {
        let dl = d.drop_last();
        assert forall|i: int, j: int| 0 <= i < dl.len() && 0 <= j < dl.len() && i != j implies dl[i].0
            != dl[j].0 by {
            assert(dl[i] == d[i] && dl[j] == d[j]);
        }
        lemma_remap_data_unique(dl, m);
        let r = remap_data(dl, m);
        lemma_kv_index(r, d.last().0);
        assert forall|j: int| 0 <= j < r.len() implies r[j].0 != d.last().0 by {
            assert(r[j].0 == dl[j].0);
            assert(dl[j] == d[j]);
            assert(d[d.len() - 1] == d.last());
        }
        assert(kv_index(r, d.last().0) < 0);
        assert(remap_data(d, m) =~= d.map_values(f));
    }
}

/// Law: remapping with no mapped entity leaves data with distinct names unchanged.
pub proof fn lemma_remap_data_identity(d: Seq<(Seq<char>, ValueView)>)
    requires
        kv_unique(d),
    ensures
        remap_data(d, Map::empty()) == d,
{
    lemma_remap_data_unique(d, Map::empty());
    assert forall|i: int| 0 <= i < d.len() implies remap_value(d[i].1, Map::<u64, u64>::empty()) == d[i].1 by {
        match d[i].1 {
            ValueView::VecEntity(es) => {
                assert(es.map_values(|e: u64| remap_eid(e, Map::<u64, u64>::empty())) =~= es);
            },
            _ => {},
        }
    }
    assert(d.map_values(|p: (Seq<char>, ValueView)| (p.0, remap_value(p.1, Map::empty()))) =~= d);
}

/// Law: a value inserted into data under a name is read back under that name, and other
/// names read as before.
pub proof fn lemma_data_insert_get(d: Seq<(Seq<char>, ValueView)>, name: Seq<char>, v: ValueView, other: Seq<char>)
    ensures
        kv_get(kv_put(d, name, v), name) == Some(v),
        other != name ==> kv_get(kv_put(d, name, v), other) == kv_get(d, other),
{
    lemma_kv_put_get(d, name, v, other);
}

/// The view of a list of named items.
pub open spec fn named_view<T: View>(v: Seq<(String, T)>) -> Seq<(Seq<char>, T::V)> {
    v.map_values(|p: (String, T)| (p.0@, p.1@))
}

/// Puts a named item, replacing the item of an existing name in place.
fn put_named<T: View>(v: &mut Vec<(String, T)>, name: &str, x: T)
    ensures
        named_view(final(v)@) == kv_put(named_view(old(v)@), name@, x@),
        forall|j: int|
            0 <= j < final(v).len() ==> #[trigger] final(v)@[j].1 == x || (j < old(v).len() && final(v)@[j].1
                == old(v)@[j].1),
{
    let ghost v0 = named_view(v@);
    proof {
        lemma_kv_index_keys(v@.map_values(|p: (String, T)| (p.0@, ())), v0, name@);
    }
    match find_name(v, name) {
        Some(i) => {
            v[i] = (name.to_owned(), x);
            assert(named_view(v@) =~= kv_put(v0, name@, x@));
        },
        None => {
            v.push((name.to_owned(), x));
            assert(named_view(v@) =~= kv_put(v0, name@, x@));
        },
    }
}

/// The data of one entity: the data of each of its components, by component name.
#[derive(Clone, Debug)]
pub struct EntityData {
    pub components: Vec<(String, Data)>,
}

impl View for EntityData {
    type V = Seq<(Seq<char>, Seq<(Seq<char>, ValueView)>)>;

    open spec fn view(&self) -> Seq<(Seq<char>, Seq<(Seq<char>, ValueView)>)> {
        named_view(self.components@)
    }
}

impl EntityData {
    /// An entity data without components.
    pub fn new() -> (r: EntityData)
        ensures
            r@ == Seq::<(Seq<char>, Seq<(Seq<char>, ValueView)>)>::empty(),
    {
        let r = EntityData { components: Vec::new() };
        assert(r@ =~= Seq::<(Seq<char>, Seq<(Seq<char>, ValueView)>)>::empty());
        r
    }
}

/// The data of many entities, by entity id, in insertion order.
#[derive(Clone, Debug)]
pub struct EntitiesData {
    pub entities: Vec<(u64, EntityData)>,
}

/// The view of the data of many entities.
pub open spec fn entities_view(v: Seq<(u64, EntityData)>) -> Seq<
    (u64, Seq<(Seq<char>, Seq<(Seq<char>, ValueView)>)>),
> {
    v.map_values(|p: (u64, EntityData)| (p.0, p.1@))
}

impl View for EntitiesData {
    type V = Seq<(u64, Seq<(Seq<char>, Seq<(Seq<char>, ValueView)>)>)>;

    open spec fn view(&self) -> Seq<(u64, Seq<(Seq<char>, Seq<(Seq<char>, ValueView)>)>)> {
        entities_view(self.entities@)
    }
}

impl EntitiesData {
    /// No entity data.
    pub fn new() -> (r: EntitiesData)
        ensures
            r@ == Seq::<(u64, Seq<(Seq<char>, Seq<(Seq<char>, ValueView)>)>)>::empty(),
    {
        let r = EntitiesData { entities: Vec::new() };
        assert(r@ =~= Seq::<(u64, Seq<(Seq<char>, Seq<(Seq<char>, ValueView)>)>)>::empty());
        r
    }

    /// The index of an entity id.
    fn index_of(&self, id: u64) -> (r: Option<usize>)
        ensures
            match r {
                Some(i) => i < self@.len() && i as int == kv_index(self@, id),
                None => kv_index(self@, id) < 0,
            },
    {
        let ghost v0 = self@;
        let mut i: usize = 0;
        while i < self.entities.len()
            invariant
                i <= self.entities.len(),
                self@ == v0,
                kv_index(v0.take(i as int), id) < 0,
            decreases self.entities.len() - i,
        {
            assert(v0.take(i + 1).drop_last() =~= v0.take(i as int));
            if self.entities[i].0 == id {
                proof {
                    assert(v0[i as int].0 == id);
                    assert(kv_index(v0.take(i + 1), id) == i);
                    lemma_kv_index_prefix(v0, id, i + 1);
                }
                return Some(i);
            }
            i = i + 1;
        }
        assert(v0.take(v0.len() as int) =~= v0);
        None
    }

    /// Insert the data of an entity (replacing the data of an existing id in place).
    pub fn insert(&mut self, id: u64, entity_data: EntityData)
        ensures
            final(self)@ == kv_put(old(self)@, id, entity_data@),
            final(self).entities@ == (if kv_index(old(self)@, id) >= 0 {
                old(self).entities@.update(kv_index(old(self)@, id), (id, entity_data))
            } else {
                old(self).entities@.push((id, entity_data))
            }),
    {
        let ghost v0 = self@;
        let ghost ev = entity_data@;
        match self.index_of(id) {
            Some(i) => {
                self.entities[i] = (id, entity_data);
                assert(self@ =~= kv_put(v0, id, ev));
            },
            None => {
                self.entities.push((id, entity_data));
                assert(self@ =~= kv_put(v0, id, ev));
            },
        }
    }

    /// The data of an entity.
    pub fn get(&self, id: u64) -> (r: Option<&EntityData>)
        ensures
            r is Some <==> kv_get(self@, id) is Some,
            r is Some ==> r.unwrap()@ == kv_get(self@, id).unwrap(),
    {
        match self.index_of(id) {
            Some(i) => Some(&self.entities[i].1),
            None => None,
        }
    }
}

/// The data of a world: the data of its entities and of its uniques.
#[derive(Clone, Debug)]
pub struct WorldData {
    pub entities: EntitiesData,
    pub uniques: Vec<(String, Data)>,
}

/// No data of the named data has limits.
pub open spec fn no_limits(cs: Seq<(String, Data)>) -> bool {
    forall|j: int| 0 <= j < cs.len() ==> (#[trigger] cs[j]).1.limits@.len() == 0
}

/// The first entry of the entity data with id `id`, if any, holds component data without
/// limits.
pub open spec fn first_entry_without_limits(es: Seq<(u64, EntityData)>, id: u64) -> bool {
    forall|i: int|
        0 <= i < es.len() && (#[trigger] es[i]).0 == id && (forall|j: int| 0 <= j < i ==> es[j].0 != id)
            ==> no_limits(es[i].1.components@)
}

/// The named data of components (or uniques), rebuilt entry by entry with remapped ids.
pub open spec fn remap_components(
    cs: Seq<(Seq<char>, Seq<(Seq<char>, ValueView)>)>,
    m: Map<u64, u64>,
) -> Seq<(Seq<char>, Seq<(Seq<char>, ValueView)>)>
    decreases cs.len(),
{
    if cs.len() == 0 {
        Seq::empty()
    } else {
        kv_put(remap_components(cs.drop_last(), m), cs.last().0, remap_data(cs.last().1, m))
    }
}

/// Entity data added, entry by entry, to `start` under new ids with remapped ids inside.
pub open spec fn remap_entities(
    start: Seq<(u64, Seq<(Seq<char>, Seq<(Seq<char>, ValueView)>)>)>,
    es: Seq<(u64, Seq<(Seq<char>, Seq<(Seq<char>, ValueView)>)>)>,
    m: Map<u64, u64>,
) -> Seq<(u64, Seq<(Seq<char>, Seq<(Seq<char>, ValueView)>)>)>
    decreases es.len(),
{
    if es.len() == 0 {
        start
    } else {
        kv_put(remap_entities(start, es.drop_last(), m), m[es.last().0], remap_components(es.last().1, m))
    }
}

/// Law: remapping the data of components with distinct names keeps every component, each
/// under its name at its place, with its data remapped.
pub proof fn lemma_remap_components_keeps_names(
    cs: Seq<(Seq<char>, Seq<(Seq<char>, ValueView)>)>,
    m: Map<u64, u64>,
)
    requires
        kv_unique(cs),
    ensures
        remap_components(cs, m).len() == cs.len(),
        forall|i: int|
            0 <= i < cs.len() ==> #[trigger] remap_components(cs, m)[i] == (cs[i].0, remap_data(cs[i].1, m)),
        forall|n: Seq<char>| (kv_get(remap_components(cs, m), n) is Some) <==> (kv_get(cs, n) is Some),
    decreases cs.len(),
{
    if cs.len() > 0 {
        let dl = cs.drop_last();
        assert forall|i: int, j: int| 0 <= i < dl.len() && 0 <= j < dl.len() && i != j implies dl[i].0
            != dl[j].0 by {
            assert(dl[i] == cs[i] && dl[j] == cs[j]);
        }
        lemma_remap_components_keeps_names(dl, m);
        let r = remap_components(dl, m);
        let last = cs.last();
        assert(cs[cs.len() - 1] == last);
        assert forall|j: int| 0 <= j < r.len() implies r[j].0 != last.0 by {
            assert(r[j].0 == dl[j].0);
            assert(dl[j] == cs[j]);
        }
        lemma_kv_put_fresh(r, last.0, remap_data(last.1, m));
        let res = remap_components(cs, m);
        assert(res == r.push((last.0, remap_data(last.1, m))));
        assert forall|i: int| 0 <= i < cs.len() implies #[trigger] res[i] == (cs[i].0, remap_data(cs[i].1, m)) by {
            if i < dl.len() {
                assert(res[i] == r[i]);
                assert(dl[i] == cs[i]);
            }
        }
        assert forall|n: Seq<char>| (kv_get(res, n) is Some) <==> (kv_get(cs, n) is Some) by {
            lemma_kv_index(res, n);
            lemma_kv_index(cs, n);
            if kv_get(res, n) is Some {
                let k = kv_index(res, n);
                assert(cs[k].0 == n);
            }
            if kv_get(cs, n) is Some {
                let k = kv_index(cs, n);
                assert(res[k].0 == n);
            }
        }
    }
}

/// Every entity id in named component data can be remapped.
pub open spec fn components_resolvable(
    cs: Seq<(Seq<char>, Seq<(Seq<char>, ValueView)>)>,
    m: Map<u64, u64>,
    alive: Set<u64>,
) -> bool {
    forall|i: int| 0 <= i < cs.len() ==> #[trigger] data_resolvable(cs[i].1, m, alive)
}

/// Every entity of the data is mapped and every entity id inside can be remapped.
pub open spec fn entities_resolvable(
    es: Seq<(u64, Seq<(Seq<char>, Seq<(Seq<char>, ValueView)>)>)>,
    m: Map<u64, u64>,
    alive: Set<u64>,
) -> bool {
    forall|i: int|
        0 <= i < es.len() ==> m.contains_key(#[trigger] es[i].0) && components_resolvable(
            es[i].1,
            m,
            alive,
        )
}

/// Named data rebuilt with remapped entity ids.
fn remap_named_data(cs: &Vec<(String, Data)>, old_id_to_new_id: &HashMap<u64, u64>, alive: &HashSet<u64>) -> (r: Vec<
    (String, Data),
>)
    requires
        components_resolvable(named_view(cs@), old_id_to_new_id@, alive@),
    ensures
        named_view(r@) == remap_components(named_view(cs@), old_id_to_new_id@),
        no_limits(r@),
{
    let ghost v = named_view(cs@);
    let mut r: Vec<(String, Data)> = Vec::new();
    assert(named_view(r@) =~= remap_components(v.take(0), old_id_to_new_id@));
    let mut i: usize = 0;
    while i < cs.len()
        invariant
            i <= cs.len(),
            v == named_view(cs@),
            components_resolvable(v, old_id_to_new_id@, alive@),
            named_view(r@) == remap_components(v.take(i as int), old_id_to_new_id@),
            no_limits(r@),
        decreases cs.len() - i,
    {
        let (name, data) = &cs[i];
        assert(v[i as int] == (name@, data@));
        assert(data_resolvable(v[i as int].1, old_id_to_new_id@, alive@));
        let new_data = update_eid_in_data(data, old_id_to_new_id, alive);
        assert(v.take(i + 1).drop_last() =~= v.take(i as int));
        let ghost r0 = r@;
        let ghost nd = new_data;
        assert(nd.limits@.len() == 0) by {
            assert(limits_view(nd.limits@).len() == nd.limits@.len());
        }
        put_named(&mut r, name.as_str(), new_data);
        assert forall|j: int| 0 <= j < r@.len() implies (#[trigger] r@[j]).1.limits@.len() == 0 by {
            if r@[j].1 != nd {
                assert(r0[j].1.limits@.len() == 0);
            }
        }
        i = i + 1;
    }
    assert(v.take(cs.len() as int) =~= v);
    r
}

/// Fill `new_entities_data` from `old_entities_data` by changing old entity ids to new
/// entity ids, both as keys and inside the component data.
pub fn fill_new_entities_data(
    new_entities_data: &mut EntitiesData,
    old_entities_data: &EntitiesData,
    old_id_to_new_id: &HashMap<u64, u64>,
    alive: &HashSet<u64>,
)
    requires
        entities_resolvable(old_entities_data@, old_id_to_new_id@, alive@),
    ensures
        final(new_entities_data)@ == remap_entities(
            old(new_entities_data)@,
            old_entities_data@,
            old_id_to_new_id@,
        ),
        forall|k: int|
            0 <= k < old_entities_data.entities.len() ==> first_entry_without_limits(
                final(new_entities_data).entities@,
                old_id_to_new_id@[#[trigger] old_entities_data.entities@[k].0],
            ),
{
    broadcast use vstd::std_specs::hash::group_hash_axioms;

    let ghost start = new_entities_data@;
    let ghost es = old_entities_data@;
    assert(es.take(0) =~= Seq::<(u64, Seq<(Seq<char>, Seq<(Seq<char>, ValueView)>)>)>::empty());
    let mut i: usize = 0;
    while i < old_entities_data.entities.len()
        invariant
            i <= old_entities_data.entities.len(),
            es == old_entities_data@,
            entities_resolvable(es, old_id_to_new_id@, alive@),
            new_entities_data@ == remap_entities(start, es.take(i as int), old_id_to_new_id@),
            forall|k: int|
                0 <= k < i ==> first_entry_without_limits(
                    new_entities_data.entities@,
                    old_id_to_new_id@[#[trigger] old_entities_data.entities@[k].0],
                ),
        decreases old_entities_data.entities.len() - i,
    {
        let (old_id, entity_data) = &old_entities_data.entities[i];
        assert(es[i as int] == (*old_id, entity_data@));
        assert(old_id_to_new_id@.contains_key(es[i as int].0));
        let new_id = match old_id_to_new_id.get(old_id) {
            Some(n) => *n,
            None => 0,
        };
        let new_components = remap_named_data(&entity_data.components, old_id_to_new_id, alive);
        assert(es.take(i + 1).drop_last() =~= es.take(i as int));
        let ghost before = new_entities_data.entities@;
        let ghost x = kv_index(new_entities_data@, new_id);
        proof {
            lemma_kv_index(new_entities_data@, new_id);
            assert forall|j: int| 0 <= j < before.len() implies before[j].0 == new_entities_data@[j].0 by {}
        }
        let ed = EntityData { components: new_components };
        let ghost dd = ed;
        new_entities_data.insert(new_id, ed);
        proof {
            let after = new_entities_data.entities@;
            lemma_first_entry_put(before, after, new_id, dd, x, i as int, old_entities_data.entities@, old_id_to_new_id@);
        }
        i = i + 1;
    }
    assert(es.take(es.len() as int) =~= es);
}

/// After the first entry of `id` was replaced (at `x`) or appended (`x` negative) with
/// component data without limits, the first entry of every id holds data without limits
/// where it did before, and that of `id` does.
proof fn lemma_first_entry_put(
    before: Seq<(u64, EntityData)>,
    after: Seq<(u64, EntityData)>,
    id: u64,
    d: EntityData,
    x: int,
    i: int,
    es: Seq<(u64, EntityData)>,
    m: Map<u64, u64>,
)
    requires
        0 <= i < es.len(),
        m[es[i].0] == id,
        no_limits(d.components@),
        forall|k: int| 0 <= k < i ==> first_entry_without_limits(before, m[#[trigger] es[k].0]),
        x >= 0 ==> x < before.len() && before[x].0 == id && (forall|j: int| 0 <= j < x ==> before[j].0 != id)
            && after == before.update(x, (id, d)),
        x < 0 ==> (forall|j: int| 0 <= j < before.len() ==> before[j].0 != id) && after == before.push((id, d)),
    ensures
        forall|k: int| 0 <= k < i + 1 ==> first_entry_without_limits(after, m[#[trigger] es[k].0]),
{
    assert forall|k: int| 0 <= k < i + 1 implies first_entry_without_limits(after, m[#[trigger] es[k].0]) by {
        let key = m[es[k].0];
        assert forall|y: int|
            0 <= y < after.len() && (#[trigger] after[y]).0 == key && (forall|j: int| 0 <= j < y ==> after[j].0 != key)
                implies no_limits(after[y].1.components@) by {
            if key == id {
                if x >= 0 {
                    if y < x {
                        assert(after[y] == before[y]);
                    } else if y > x {
                        assert(after[x].0 == id);
                    }
                } else if y < before.len() {
                    assert(after[y] == before[y]);
                }
            } else {
                assert(k < i);
                assert(y < before.len() ==> after[y] == before[y]);
                if y < before.len() {
                    assert forall|j: int| 0 <= j < y implies before[j].0 != key by {
                        assert(after[j] == before[j] || after[j].0 == id);
                    }
                    assert(before[y].0 == key);
                    assert(first_entry_without_limits(before, key));
                } else {
                    assert(after[y].0 == id);
                }
            }
        }
    }
}

/// The map that sends each old id to the new id created for it, in order.
pub open spec fn id_map(old_ids: Seq<u64>, new_ids: Seq<u64>) -> Map<u64, u64>
    decreases old_ids.len(),
{
    if old_ids.len() == 0 || new_ids.len() == 0 {
        Map::empty()
    } else {
        id_map(old_ids.drop_last(), new_ids.drop_last()).insert(old_ids.last(), new_ids.last())
    }
}

/// Create the old_id_to_new_id map from the ids of new entities created in the world, one
/// per entity of `entities_data`, in order.
pub fn create_old_id_to_new_id_map(entities_data: &EntitiesData, new_ids: &Vec<u64>) -> (r: HashMap<
    u64,
    u64,
>)
    requires
        new_ids.len() == entities_data.entities.len(),
    ensures
        r@ == id_map(entities_data@.map_values(|p: (u64, Seq<(Seq<char>, Seq<(Seq<char>, ValueView)>)>)| p.0), new_ids@),
{
    broadcast use vstd::std_specs::hash::group_hash_axioms;

    let ghost keys = entities_data@.map_values(|p: (u64, Seq<(Seq<char>, Seq<(Seq<char>, ValueView)>)>)| p.0);
    let mut map: HashMap<u64, u64> = HashMap::new();
    let mut i: usize = 0;
    while i < new_ids.len()
        invariant
            i <= new_ids.len(),
            new_ids.len() == entities_data.entities.len(),
            keys == entities_data@.map_values(|p: (u64, Seq<(Seq<char>, Seq<(Seq<char>, ValueView)>)>)| p.0),
            map@ == id_map(keys.take(i as int), new_ids@.take(i as int)),
        decreases new_ids.len() - i,
    {
        let old_id = entities_data.entities[i].0;
        assert(keys[i as int] == old_id);
        assert(keys.take(i + 1).drop_last() =~= keys.take(i as int));
        assert(new_ids@.take(i + 1).drop_last() =~= new_ids@.take(i as int));
        map.insert(old_id, new_ids[i]);
        i = i + 1;
    }
    assert(keys.take(new_ids.len() as int) =~= keys);
    assert(new_ids@.take(new_ids.len() as int) =~= new_ids@);
    map
}

impl WorldData {
    /// No entity and no unique.
    pub fn new() -> (r: WorldData)
        ensures
            r.entities@.len() == 0,
            named_view(r.uniques@).len() == 0,
    {
        WorldData { entities: EntitiesData::new(), uniques: Vec::new() }
    }

    /// The world data with entity ids changed to new ids: entities under their new ids, and
    /// entity ids inside component and unique data remapped.
    pub fn remap(&self, old_id_to_new_id: &HashMap<u64, u64>, alive: &HashSet<u64>) -> (r: WorldData)
        requires
            entities_resolvable(self.entities@, old_id_to_new_id@, alive@),
            components_resolvable(named_view(self.uniques@), old_id_to_new_id@, alive@),
        ensures
            r.entities@ == remap_entities(Seq::empty(), self.entities@, old_id_to_new_id@),
            named_view(r.uniques@) == remap_components(named_view(self.uniques@), old_id_to_new_id@),
    {
        let mut entities = EntitiesData::new();
        fill_new_entities_data(&mut entities, &self.entities, old_id_to_new_id, alive);
        let uniques = remap_named_data(&self.uniques, old_id_to_new_id, alive);
        WorldData { entities, uniques }
    }

    /// The data of a component of an entity.
    pub fn component_data(&self, id: u64, name: &str) -> (r: Option<&Data>)
        ensures
            r is Some <==> (kv_get(self.entities@, id) is Some && kv_get(kv_get(self.entities@, id).unwrap(), name@) is Some),
            r is Some ==> r.unwrap()@ == kv_get(kv_get(self.entities@, id).unwrap(), name@).unwrap(),
    {
        match self.entities.get(id) {
            Some(entity_data) => {
                proof {
                    lemma_kv_index_keys(entity_data.components@.map_values(|p: (String, Data)| (p.0@, ())), entity_data@, name@);
                }
                match find_name(&entity_data.components, name) {
                    Some(i) => Some(&entity_data.components[i].1),
                    None => None,
                }
            },
            None => None,
        }
    }

    /// The data of a unique.
    pub fn unique_data(&self, name: &str) -> (r: Option<&Data>)
        ensures
            r is Some <==> kv_get(named_view(self.uniques@), name@) is Some,
            r is Some ==> r.unwrap()@ == kv_get(named_view(self.uniques@), name@).unwrap(),
    {
        proof {
            lemma_kv_index_keys(self.uniques@.map_values(|p: (String, Data)| (p.0@, ())), named_view(self.uniques@), name@);
        }
        match find_name(&self.uniques, name) {
            Some(i) => Some(&self.uniques[i].1),
            None => None,
        }
    }
}

} // verus!
