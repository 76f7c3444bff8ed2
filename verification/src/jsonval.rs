//! The structured wire value passed between payloads: a tagged union with
//! the six JSON shapes. Numbers are carried as their decimal literal text,
//! which keeps every variant exact.

use vstd::prelude::*;

verus! {

/// A structured value: the sole wire type between payloads.
///
/// A number is held as its decimal literal (`"8.5"`, `"1999"`), exactly as
/// the producing parser rendered it.
#[derive(Debug, PartialEq, Eq)]
pub enum JsonValue {
    /// JSON `null`.
    Null,
    /// A boolean.
    Bool(bool),
    /// A number, as its decimal literal text.
    Num(String),
    /// A string.
    Str(String),
    /// An ordered sequence of values.
    Arr(Vec<JsonValue>),
    /// A mapping from string key to value, in insertion order, keys unique.
    Obj(Vec<(String, JsonValue)>),
}

/// The mathematical shape of a [`JsonValue`]: the same tree over sequences.
#[verifier::ext_equal]
pub enum JsonV {
    /// JSON `null`.
    Null,
    /// A boolean.
    Bool(bool),
    /// A number literal.
    Num(Seq<char>),
    /// A string.
    Str(Seq<char>),
    /// An ordered sequence of values.
    Arr(Seq<JsonV>),
    /// Key-value pairs in order.
    Obj(Seq<(Seq<char>, JsonV)>),
}

impl JsonValue {
    /// The abstract tree that this value denotes.
    pub open spec fn jv(self) -> JsonV
        decreases self,
        via Self::jv_decreases
    {
        match self {
            JsonValue::Null => JsonV::Null,
            JsonValue::Bool(b) => JsonV::Bool(b),
            JsonValue::Num(s) => JsonV::Num(s@),
            JsonValue::Str(s) => JsonV::Str(s@),
            JsonValue::Arr(items) => JsonV::Arr(Self::jv_seq(items@)),
            JsonValue::Obj(fields) => JsonV::Obj(Self::jv_pairs(fields@)),
        }
    }

    #[via_fn]
    proof fn jv_decreases(self) {
        match self {
            JsonValue::Arr(items) => {
                assert(decreases_to!(self => self->Arr_0));
                assert(decreases_to!(self->Arr_0 => self->Arr_0@));
            }
            JsonValue::Obj(fields) => {
                assert(decreases_to!(self => self->Obj_0));
                assert(decreases_to!(self->Obj_0 => self->Obj_0@));
            }
            _ => {}
        }
    }

    /// Element-wise abstraction of a sequence of values.
    pub open spec fn jv_seq(s: Seq<JsonValue>) -> Seq<JsonV>
        decreases s,
    {
        if s.len() <= 0 {
            Seq::empty()
        } else {
            Self::jv_seq(s.subrange(0, s.len() - 1)).push(s[s.len() - 1].jv())
        }
    }

    /// Element-wise abstraction of a sequence of key-value pairs.
    pub open spec fn jv_pairs(s: Seq<(String, JsonValue)>) -> Seq<(Seq<char>, JsonV)>
        decreases s,
    {
        if s.len() <= 0 {
            Seq::empty()
        } else {
            Self::jv_pairs(s.subrange(0, s.len() - 1)).push(
                (s[s.len() - 1].0@, s[s.len() - 1].1.jv()),
            )
        }
    }
}

/// `jv_seq` abstracts element by element.
pub proof fn lemma_jv_seq(s: Seq<JsonValue>)
    ensures
        JsonValue::jv_seq(s).len() == s.len(),
        forall|i: int| 0 <= i < s.len() ==> JsonValue::jv_seq(s)[i] == s[i].jv(),
    decreases s.len(),
{
    if s.len() > 0 {
        lemma_jv_seq(s.subrange(0, s.len() - 1));
        assert(forall|i: int|
            0 <= i < s.len() - 1 ==> s.subrange(0, s.len() - 1)[i] == s[i]);
    }
}

/// `jv_pairs` abstracts pair by pair.
pub proof fn lemma_jv_pairs(s: Seq<(String, JsonValue)>)
    ensures
        JsonValue::jv_pairs(s).len() == s.len(),
        forall|i: int| 0 <= i < s.len()
            ==> JsonValue::jv_pairs(s)[i] == (s[i].0@, s[i].1.jv()),
    decreases s.len(),
{
    if s.len() > 0 {
        lemma_jv_pairs(s.subrange(0, s.len() - 1));
        assert(forall|i: int|
            0 <= i < s.len() - 1 ==> s.subrange(0, s.len() - 1)[i] == s[i]);
    }
}

impl View for JsonValue {
    type V = JsonV;

    open spec fn view(&self) -> JsonV {
        self.jv()
    }
}

impl JsonValue {
    /// Structure-preserving copy; the result has the same view.
    pub fn deep_clone(&self) -> (r: JsonValue)
        ensures
            r@ == self@,
        decreases *self,
    {
        match self {
            JsonValue::Null => JsonValue::Null,
            JsonValue::Bool(b) => JsonValue::Bool(*b),
            JsonValue::Num(s) => JsonValue::Num(s.clone()),
            JsonValue::Str(s) => JsonValue::Str(s.clone()),
            JsonValue::Arr(items) => {
                let mut out: Vec<JsonValue> = Vec::new();
                let n = items.len();
                let mut i: usize = 0;
                while i < n
                    invariant
                        *self == JsonValue::Arr(*items),
                        n == items@.len(),
                        i <= n,
                        out@.len() == i as int,
                        forall|k: int| 0 <= k < i ==> out@[k]@ == items@[k]@,
                    decreases n - i,
                {
                    proof {
                        assert(decreases_to!(*self => (*self)->Arr_0));
                        assert((*self)->Arr_0 == *items);
                        assert(decreases_to!(*items => items@));
                        assert(decreases_to!(items@ => items@[i as int]));
                    }
                    out.push(items[i].deep_clone());
                    i = i + 1;
                }
                let r = JsonValue::Arr(out);
                proof {
                    lemma_jv_seq(out@);
                    lemma_jv_seq(items@);
                    assert(r@->Arr_0 =~= self@->Arr_0);
                }
                r
            }
            JsonValue::Obj(fields) => {
                let mut out: Vec<(String, JsonValue)> = Vec::new();
                let n = fields.len();
                let mut i: usize = 0;
                while i < n
                    invariant
                        *self == JsonValue::Obj(*fields),
                        n == fields@.len(),
                        i <= n,
                        out@.len() == i as int,
                        forall|k: int| 0 <= k < i
                            ==> out@[k].0@ == fields@[k].0@ && out@[k].1@ == fields@[k].1@,
                    decreases n - i,
                {
                    proof {
                        assert(decreases_to!(*self => (*self)->Obj_0));
                        assert((*self)->Obj_0 == *fields);
                        assert(decreases_to!(*fields => fields@));
                        assert(decreases_to!(fields@ => fields@[i as int]));
                        assert(decreases_to!(fields@[i as int] => fields@[i as int].1));
                    }
                    let key = fields[i].0.clone();
                    let val = fields[i].1.deep_clone();
                    out.push((key, val));
                    i = i + 1;
                }
                let r = JsonValue::Obj(out);
                proof {
                    lemma_jv_pairs(out@);
                    lemma_jv_pairs(fields@);
                    assert(r@->Obj_0 =~= self@->Obj_0);
                }
                r
            }
        }
    }
}

/// The first value under `key` among an object's fields.
pub open spec fn jv_lookup(fields: Seq<(Seq<char>, JsonV)>, key: Seq<char>) -> Option<JsonV>
    decreases fields.len(),
{
    if fields.len() == 0 {
        None
    } else if fields[0].0 == key {
        Some(fields[0].1)
    } else {
        jv_lookup(fields.drop_first(), key)
    }
}

impl JsonValue {
    /// The value under `key` when this value is an object that has it.
    #[verifier::loop_isolation(false)]
    pub fn get(&self, key: &str) -> (r: Option<&JsonValue>)
        ensures
            match r {
                Some(v) => self@ matches JsonV::Obj(fields) && jv_lookup(fields, key@) == Some(
                    v@,
                ),
                None => match self@ {
                    JsonV::Obj(fields) => jv_lookup(fields, key@) is None,
                    _ => true,
                },
            },
    {
        match self {
            JsonValue::Obj(fields) => {
                let n = fields.len();
                proof {
                    lemma_jv_pairs(fields@);
                }
                let ghost fv = JsonValue::jv_pairs(fields@);
                proof {
                    assert(fv.subrange(0, n as int) =~= fv);
                }
                let kv = crate::text::chars_of(key);
                let mut i: usize = 0;
                while i < n
                    invariant
                        0 <= i <= n,
                        n == fields@.len(),
                        fv == JsonValue::jv_pairs(fields@),
                        fv.len() == n,
                        forall|j: int| 0 <= j < n ==> fv[j] == (fields@[j].0@, fields@[j].1@),
                        self@ == JsonV::Obj(fv),
                        kv@ == key@,
                        jv_lookup(fv, key@) == jv_lookup(fv.subrange(i as int, n as int), key@),
                    decreases n - i,
                {
                    proof {
                        assert(fv.subrange(i as int, n as int)[0] == fv[i as int]);
                        assert(fv.subrange(i as int, n as int).drop_first() =~= fv.subrange(
                            i + 1,
                            n as int,
                        ));
                    }
                    let fk = crate::text::chars_of(fields[i].0.as_str());
                    if fk.len() == kv.len() && crate::text::matches_at(&fk, &kv, 0) {
                        proof {
                            assert(fk@.subrange(0, fk@.len() as int) =~= fk@);
                        }
                        return Some(&fields[i].1);
                    }
                    proof {
                        assert(fk@.subrange(0, fk@.len() as int) =~= fk@);
                    }
                    i = i + 1;
                }
                proof {
                    assert(fv.subrange(n as int, n as int) =~= Seq::<(Seq<char>, JsonV)>::empty());
                }
                None
            }
            _ => None,
        }
    }
}

/// Looking a key up finds the value at its first occurrence.
pub proof fn lemma_jv_lookup_at(fields: Seq<(Seq<char>, JsonV)>, key: Seq<char>, i: int)
    requires
        0 <= i < fields.len(),
        fields[i].0 == key,
        forall|j: int| 0 <= j < i ==> (#[trigger] fields[j]).0 != key,
    ensures
        jv_lookup(fields, key) == Some(fields[i].1),
    decreases fields.len(),
{
    if i > 0 {
        assert(fields.drop_first() =~= fields.subrange(1, fields.len() as int));
        assert(forall|j: int| 0 <= j < fields.drop_first().len() ==> (#[trigger] fields.drop_first()[j]) == fields[j + 1]);
        lemma_jv_lookup_at(fields.drop_first(), key, i - 1);
    }
}

/// Looking an absent key up finds nothing.
pub proof fn lemma_jv_lookup_none(fields: Seq<(Seq<char>, JsonV)>, key: Seq<char>)
    requires
        forall|j: int| 0 <= j < fields.len() ==> (#[trigger] fields[j]).0 != key,
    ensures
        jv_lookup(fields, key) is None,
    decreases fields.len(),
{
    if fields.len() > 0 {
        assert(forall|j: int| 0 <= j < fields.drop_first().len() ==> (#[trigger] fields.drop_first()[j]) == fields[j + 1]);
        lemma_jv_lookup_none(fields.drop_first(), key);
    }
}

} // verus!
