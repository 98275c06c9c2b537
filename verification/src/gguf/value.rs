//! Metadata values and the metadata table.
use vstd::prelude::*;

use crate::text::same_str;

verus! {

/// A metadata value. Floating-point values are held by their IEEE-754 bits.
#[derive(Debug)]
pub enum Value {
    U8(u8),
    I8(i8),
    U16(u16),
    I16(i16),
    U32(u32),
    I32(i32),
    F32(u32),
    Bool(bool),
    String(String),
    U64(u64),
    I64(i64),
    F64(u64),
    Array(Vec<Value>),
}

/// What a metadata value says, with strings as character sequences.
pub enum Val {
    U8(u8),
    I8(i8),
    U16(u16),
    I16(i16),
    U32(u32),
    I32(i32),
    F32(u32),
    Bool(bool),
    Str(Seq<char>),
    U64(u64),
    I64(i64),
    F64(u64),
    Array(Seq<Val>),
}

/// The meaning of a value.
pub open spec fn val(v: Value) -> Val
    decreases v,
{
    match v {
        Value::U8(x) => Val::U8(x),
        Value::I8(x) => Val::I8(x),
        Value::U16(x) => Val::U16(x),
        Value::I16(x) => Val::I16(x),
        Value::U32(x) => Val::U32(x),
        Value::I32(x) => Val::I32(x),
        Value::F32(x) => Val::F32(x),
        Value::Bool(x) => Val::Bool(x),
        Value::String(s) => Val::Str(s@),
        Value::U64(x) => Val::U64(x),
        Value::I64(x) => Val::I64(x),
        Value::F64(x) => Val::F64(x),
        Value::Array(a) => Val::Array(vals(a@)),
    }
}

/// The meanings of the elements of a sequence.
pub open spec fn vals(s: Seq<Value>) -> Seq<Val>
    decreases s,
{
    if s.len() == 0 {
        Seq::empty()
    } else {
        vals(s.drop_last()).push(val(s.last()))
    }
}

/// `vals` keeps the length and maps each element.
pub proof fn lemma_vals(s: Seq<Value>)
    ensures
        vals(s).len() == s.len(),
        forall|i: int| 0 <= i < s.len() ==> #[trigger] vals(s)[i] == val(s[i]),
    decreases s.len(),
{
    if s.len() > 0 {
        lemma_vals(s.drop_last());
        assert forall|i: int| 0 <= i < s.len() implies #[trigger] vals(s)[i] == val(s[i]) by {
            if i < s.len() - 1 {
                assert(s.drop_last()[i] == s[i]);
            }
        }
    }
}

impl View for Value {
    type V = Val;

    open spec fn view(&self) -> Val {
        val(*self)
    }
}

impl Val {
    /// The value as a natural number, for the integer kinds that hold one.
    pub open spec fn to_u64(self) -> Option<u64> {
        match self {
            Val::U8(x) => Some(x as u64),
            Val::U16(x) => Some(x as u64),
            Val::U32(x) => Some(x as u64),
            Val::U64(x) => Some(x),
            Val::I8(x) => if x >= 0 { Some(x as u64) } else { None },
            Val::I16(x) => if x >= 0 { Some(x as u64) } else { None },
            Val::I32(x) => if x >= 0 { Some(x as u64) } else { None },
            Val::I64(x) => if x >= 0 { Some(x as u64) } else { None },
            _ => None,
        }
    }

    /// The bits of the value in single precision, for the floating-point kinds.
    pub open spec fn to_f32(self) -> Option<u32> {
        match self {
            Val::F32(x) => Some(x),
            Val::F64(x) => Some(crate::fp::narrow_of(x) as u32),
            _ => None,
        }
    }
}

impl Value {
    pub fn as_u64(&self) -> (r: Option<u64>)
        ensures
            r == self@.to_u64(),
    {
        match self {
            Value::U8(v) => Some(*v as u64),
            Value::U16(v) => Some(*v as u64),
            Value::U32(v) => Some(*v as u64),
            Value::U64(v) => Some(*v),
            Value::I8(v) => if *v >= 0 { Some(*v as u64) } else { None },
            Value::I16(v) => if *v >= 0 { Some(*v as u64) } else { None },
            Value::I32(v) => if *v >= 0 { Some(*v as u64) } else { None },
            Value::I64(v) => if *v >= 0 { Some(*v as u64) } else { None },
            _ => None,
        }
    }

    pub fn as_str(&self) -> (r: Option<&str>)
        ensures
            r is Some <==> self@ is Str,
            r matches Some(s) ==> self@ == Val::Str(s@),
    {
        match self {
            Value::String(s) => Some(s.as_str()),
            _ => None,
        }
    }

    /// The bits of the value in single precision; a double is rounded to the nearest.
    pub fn as_f32(&self) -> (r: Option<u32>)
        ensures
            r == self@.to_f32(),
    {
        match self {
            Value::F32(v) => Some(*v),
            Value::F64(v) => Some(crate::fp::f64_to_f32(*v)),
            _ => None,
        }
    }

    pub fn as_array(&self) -> (r: Option<&[Value]>)
        ensures
            r is Some <==> self@ is Array,
            r matches Some(a) ==> self@ == Val::Array(vals(a@)),
    {
        match self {
            Value::Array(v) => Some(v.as_slice()),
            _ => None,
        }
    }
}

impl Value {
    /// A copy that says the same.
    fn dup(&self) -> (r: Value)
        ensures
            r@ == self@,
        decreases self,
    {
        match self {
            Value::U8(v) => Value::U8(*v),
            Value::I8(v) => Value::I8(*v),
            Value::U16(v) => Value::U16(*v),
            Value::I16(v) => Value::I16(*v),
            Value::U32(v) => Value::U32(*v),
            Value::I32(v) => Value::I32(*v),
            Value::F32(v) => Value::F32(*v),
            Value::Bool(v) => Value::Bool(*v),
            Value::String(s) => Value::String(s.clone()),
            Value::U64(v) => Value::U64(*v),
            Value::I64(v) => Value::I64(*v),
            Value::F64(v) => Value::F64(*v),
            Value::Array(a) => {
                let mut out: Vec<Value> = Vec::new();
                let mut i: usize = 0;
                while i < a.len()
                    invariant
                        i <= a@.len(),
                        *self == Value::Array(*a),
                        vals(out@) == vals(a@.take(i as int)),
                    decreases a@.len() - i,
                {
                    proof {
                        assert(decreases_to!(*self => self->Array_0));
                        assert(decreases_to!(*a => a@));
                        assert(decreases_to!(a@ => a@[i as int]));
                    }
                    let x = a[i].dup();
                    proof {
                        assert(a@.take(i + 1).drop_last() =~= a@.take(i as int));
                        assert(out@.push(x).drop_last() =~= out@);
                    }
                    out.push(x);
                    i = i + 1;
                }
                assert(a@.take(i as int) =~= a@);
                Value::Array(out)
            },
        }
    }
}

impl Clone for Value {
    fn clone(&self) -> (r: Self)
        ensures
            r@ == self@,
    {
        self.dup()
    }
}

/// Metadata table: string keys, each at most once. A later entry replaces an earlier one.
#[derive(Debug)]
pub struct Metadata {
    entries: Vec<(String, Value)>,
}

/// The table that a run of distinct entries stands for.
pub open spec fn entries_map(s: Seq<(String, Value)>) -> Map<Seq<char>, Val>
    decreases s.len(),
{
    if s.len() == 0 {
        Map::empty()
    } else {
        entries_map(s.drop_last()).insert(s.last().0@, val(s.last().1))
    }
}

/// No key occurs twice.
pub open spec fn distinct_keys(s: Seq<(String, Value)>) -> bool {
    forall|i: int, j: int| 0 <= i < j < s.len() ==> #[trigger] s[i].0@ != #[trigger] s[j].0@
}

proof fn lemma_entries_map(s: Seq<(String, Value)>)
    requires
        distinct_keys(s),
    ensures
        forall|i: int|
            0 <= i < s.len() ==> entries_map(s).contains_key(#[trigger] s[i].0@)
                && entries_map(s)[s[i].0@] == val(s[i].1),
        forall|k: Seq<char>|
            entries_map(s).contains_key(k) ==> exists|i: int|
                0 <= i < s.len() && #[trigger] s[i].0@ == k,
    decreases s.len(),
{
    if s.len() > 0 {
        let t = s.drop_last();
        assert(distinct_keys(t)) by {
            assert forall|i: int, j: int| 0 <= i < j < t.len() implies #[trigger] t[i].0@
                != #[trigger] t[j].0@ by {
                assert(s[i].0@ != s[j].0@);
            }
        }
        lemma_entries_map(t);
        assert forall|i: int| 0 <= i < s.len() implies entries_map(s).contains_key(
            #[trigger] s[i].0@,
        ) && entries_map(s)[s[i].0@] == val(s[i].1) by {
            if i < s.len() - 1 {
                assert(t[i] == s[i]);
                assert(s[i].0@ != s[s.len() - 1].0@);
            }
        }
        assert forall|k: Seq<char>| entries_map(s).contains_key(k) implies exists|i: int|
            0 <= i < s.len() && #[trigger] s[i].0@ == k by {
            if k == s.last().0@ {
                assert(s[s.len() - 1].0@ == k);
            } else {
                let i = choose|i: int| 0 <= i < t.len() && #[trigger] t[i].0@ == k;
                assert(s[i].0@ == k);
            }
        }
    }
}

impl View for Metadata {
    type V = Map<Seq<char>, Val>;

    closed spec fn view(&self) -> Map<Seq<char>, Val> {
        entries_map(self.entries@)
    }
}

impl Metadata {
    #[verifier::type_invariant]
    closed spec fn wf(self) -> bool {
        distinct_keys(self.entries@)
    }

    /// The keys in the order in which they entered the table.
    pub closed spec fn keys(self) -> Seq<Seq<char>> {
        Seq::new(self.entries@.len(), |i: int| self.entries@[i].0@)
    }

    pub fn new() -> (r: Metadata)
        ensures
            r@ == Map::<Seq<char>, Val>::empty(),
            r.keys() == Seq::<Seq<char>>::empty(),
    {
        let r = Metadata { entries: Vec::new() };
        assert(r.keys() =~= Seq::<Seq<char>>::empty());
        r
    }

    /// Where a key stands in the table.
    fn position(&self, key: &str) -> (r: Option<usize>)
        ensures
            r is Some <==> self@.contains_key(key@),
            r matches Some(i) ==> i < self.entries@.len() && self.entries@[i as int].0@ == key@
                && val(self.entries@[i as int].1) == self@[key@],
    {
        proof {
            use_type_invariant(self);
            lemma_entries_map(self.entries@);
        }
        let mut i: usize = 0;
        while i < self.entries.len()
            invariant
                i <= self.entries@.len(),
                forall|j: int| 0 <= j < i ==> #[trigger] self.entries@[j].0@ != key@,
                distinct_keys(self.entries@),
            decreases self.entries@.len() - i,
        {
            proof {
                lemma_entries_map(self.entries@);
            }
            if same_str(self.entries[i].0.as_str(), key) {
                return Some(i);
            }
            i = i + 1;
        }
        None
    }

    pub fn get(&self, key: &str) -> (r: Option<&Value>)
        ensures
            r is Some <==> self@.contains_key(key@),
            r matches Some(v) ==> v@ == self@[key@],
    {
        match self.position(key) {
            Some(i) => Some(&self.entries[i].1),
            None => None,
        }
    }

    /// Sets a key, replacing what it held. A new key comes last.
    pub fn insert(&mut self, key: String, value: Value)
        ensures
            final(self)@ == old(self)@.insert(key@, value@),
            final(self).keys() == if old(self)@.contains_key(key@) {
                old(self).keys()
            } else {
                old(self).keys().push(key@)
            },
    {
        proof {
            use_type_invariant(&*self);
            lemma_entries_map(self.entries@);
        }
        let at = self.position(key.as_str());
        let mut entries: Vec<(String, Value)> = Vec::new();
        std::mem::swap(&mut entries, &mut self.entries);
        let ghost was = entries@;
        let ghost val_in = value@;
        let ghost key_in = key@;
        match at {
            Some(i) => {
                entries.set(i, (key, value));
                proof {
                    assert forall|a: int, b: int| 0 <= a < b < entries@.len() implies #[trigger] entries@[a].0@
                        != #[trigger] entries@[b].0@ by {
                        assert(was[a].0@ != was[b].0@);
                    }
                    lemma_entries_map(entries@);
                    assert(entries_map(entries@) =~= entries_map(was).insert(key_in, val_in)) by {
                        assert forall|k: Seq<char>| entries_map(entries@).contains_key(k)
                            == entries_map(was).insert(key_in, val_in).contains_key(k) by {
                            if entries_map(entries@).contains_key(k) {
                                let j = choose|j: int|
                                    0 <= j < entries@.len() && #[trigger] entries@[j].0@ == k;
                                assert(was[j].0@ == k);
                            }
                            if entries_map(was).contains_key(k) {
                                let j = choose|j: int| 0 <= j < was.len() && #[trigger] was[j].0@ == k;
                                assert(entries@[j].0@ == k);
                            }
                            assert(entries@[i as int].0@ == key_in);
                        }
                        assert forall|k: Seq<char>| #[trigger] entries_map(entries@).contains_key(
                            k,
                        ) implies entries_map(entries@)[k] == entries_map(was).insert(
                            key_in,
                            val_in,
                        )[k] by {
                            let j = choose|j: int|
                                0 <= j < entries@.len() && #[trigger] entries@[j].0@ == k;
                            assert(was[j].0@ == k);
                            if j != i {
                                assert(entries@[j] == was[j]);
                            }
                        }
                    }
                    assert(Seq::new(entries@.len(), |j: int| entries@[j].0@) =~= Seq::new(
                        was.len(),
                        |j: int| was[j].0@,
                    ));
                }
            },
            None => {
                entries.push((key, value));
                proof {
                    assert(entries@.drop_last() =~= was);
                    assert forall|a: int, b: int| 0 <= a < b < entries@.len() implies #[trigger] entries@[a].0@
                        != #[trigger] entries@[b].0@ by {
                        if b < was.len() {
                            assert(was[a].0@ != was[b].0@);
                        } else {
                            assert(entries_map(was).contains_key(was[a].0@));
                        }
                    }
                    assert(Seq::new(entries@.len(), |j: int| entries@[j].0@) =~= Seq::new(
                        was.len(),
                        |j: int| was[j].0@,
                    ).push(key_in));
                }
            },
        }
        self.entries = entries;
    }

    /// The entries in the order in which they entered the table.
    pub fn entries(&self) -> (r: &Vec<(String, Value)>)
        ensures
            distinct_keys(r@),
            entries_map(r@) == self@,
            self.keys() == Seq::new(r@.len(), |i: int| r@[i].0@),
    {
        proof {
            use_type_invariant(self);
        }
        &self.entries
    }

    pub fn contains_key(&self, key: &str) -> (r: bool)
        ensures
            r == self@.contains_key(key@),
    {
        self.position(key).is_some()
    }
}

impl Clone for Metadata {
    fn clone(&self) -> (r: Self)
        ensures
            r@ == self@,
            r.keys() == self.keys(),
    {
        proof {
            use_type_invariant(self);
        }
        let mut out: Vec<(String, Value)> = Vec::new();
        let mut i: usize = 0;
        while i < self.entries.len()
            invariant
                i == out@.len() <= self.entries@.len(),
                distinct_keys(self.entries@),
                entries_map(out@) == entries_map(self.entries@.take(i as int)),
                forall|j: int| 0 <= j < i ==> #[trigger] out@[j].0@ == self.entries@[j].0@,
            decreases self.entries@.len() - i,
        {
            let k = self.entries[i].0.clone();
            let v = self.entries[i].1.clone();
            proof {
                assert(self.entries@.take(i + 1).drop_last() =~= self.entries@.take(i as int));
                assert(out@.push((k, v)).drop_last() =~= out@);
            }
            out.push((k, v));
            i = i + 1;
        }
        assert(self.entries@.take(i as int) =~= self.entries@);
        proof {
            assert forall|a: int, b: int| 0 <= a < b < out@.len() implies #[trigger] out@[a].0@
                != #[trigger] out@[b].0@ by {
                assert(self.entries@[a].0@ != self.entries@[b].0@);
            }
        }
        let r = Metadata { entries: out };
        assert(r.keys() =~= self.keys());
        r
    }
}

} // verus!
