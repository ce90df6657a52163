//! Values on the message bus.
//!
//! The bus carries typed values. Only the types that the shell extension and
//! the tray host speak are told apart here; any other is known by its type
//! string alone.

use vstd::prelude::*;
use vstd::string::StringExecFns;

verus! {

/// A value on the bus.
#[derive(Debug, PartialEq, Eq)]
pub enum Value {
    /// `b`
    Bool(bool),
    /// `i`
    Int32(i32),
    /// `u`
    Uint32(u32),
    /// `s`
    Str(String),
    /// `o`
    ObjectPath(String),
    /// `g`
    Signature(String),
    /// `v`: a value with its type.
    Boxed(Box<Value>),
    /// `a` and the element type: any number of values of one type.
    Array(String, Vec<Value>),
    /// Values in round brackets.
    Tuple(Vec<Value>),
    /// A key and its value, as an element of a dictionary.
    Entry(Box<Value>, Box<Value>),
    /// Any other type.
    Other(String),
}

/// A value on the bus, as a mathematical value.
pub enum Wire {
    Bool(bool),
    Int32(int),
    Uint32(int),
    Str(Seq<char>),
    ObjectPath(Seq<char>),
    Signature(Seq<char>),
    Boxed(Box<Wire>),
    Array(Seq<char>, Seq<Wire>),
    Tuple(Seq<Wire>),
    Entry(Box<Wire>, Box<Wire>),
    Other(Seq<char>),
}

impl Value {
    /// The value as a mathematical value.
    pub open spec fn model(self) -> Wire
        decreases self,
    {
        match self {
            Value::Bool(b) => Wire::Bool(b),
            Value::Int32(n) => Wire::Int32(n as int),
            Value::Uint32(n) => Wire::Uint32(n as int),
            Value::Str(s) => Wire::Str(s@),
            Value::ObjectPath(s) => Wire::ObjectPath(s@),
            Value::Signature(s) => Wire::Signature(s@),
            Value::Boxed(v) => Wire::Boxed(Box::new(v.model())),
            Value::Array(element, items) => Wire::Array(element@, models(items@)),
            Value::Tuple(items) => Wire::Tuple(models(items@)),
            Value::Entry(k, v) => Wire::Entry(Box::new(k.model()), Box::new(v.model())),
            Value::Other(s) => Wire::Other(s@),
        }
    }
}

/// Every value as a mathematical value, in order.
pub open spec fn models(items: Seq<Value>) -> Seq<Wire>
    decreases items,
{
    Seq::new(
        items.len(),
        |i: int|
            if 0 <= i < items.len() {
                items[i].model()
            } else {
                Wire::Bool(false)
            },
    )
}

impl View for Value {
    type V = Wire;

    open spec fn view(&self) -> Wire {
        self.model()
    }
}

/// The models of a sequence are the models of its elements.
pub proof fn lemma_models(items: Seq<Value>)
    ensures
        models(items).len() == items.len(),
        forall|i: int| 0 <= i < items.len() ==> #[trigger] models(items)[i] == items[i]@,
{
}

/// Adding a value adds its model.
pub proof fn lemma_models_push(items: Seq<Value>, v: Value)
    ensures
        models(items.push(v)) == models(items).push(v@),
{
    lemma_models(items);
    lemma_models(items.push(v));
    assert(models(items.push(v)) =~= models(items).push(v@));
}

// ---- types ----

impl Wire {
    /// The type string.
    pub open spec fn kind(self) -> Seq<char>
        decreases self,
    {
        match self {
            Wire::Bool(_) => seq!['b'],
            Wire::Int32(_) => seq!['i'],
            Wire::Uint32(_) => seq!['u'],
            Wire::Str(_) => seq!['s'],
            Wire::ObjectPath(_) => seq!['o'],
            Wire::Signature(_) => seq!['g'],
            Wire::Boxed(_) => seq!['v'],
            Wire::Array(element, _) => seq!['a'] + element,
            Wire::Tuple(items) => seq!['('] + kinds(items) + seq![')'],
            Wire::Entry(k, v) => seq!['{'] + k.kind() + v.kind() + seq!['}'],
            Wire::Other(kind) => kind,
        }
    }

    /// Do all elements of every array in the value have the type that the
    /// array declares?
    pub open spec fn sound(self) -> bool
        decreases self,
    {
        match self {
            Wire::Boxed(v) => v.sound(),
            Wire::Array(element, items) => all_sound(items) && all_of_kind(items, element),
            Wire::Tuple(items) => all_sound(items),
            Wire::Entry(k, v) => k.sound() && v.sound(),
            _ => true,
        }
    }

    /// What a container holds; `None` of a value that is no container.
    pub open spec fn children(self) -> Option<Seq<Wire>> {
        match self {
            Wire::Boxed(v) => Some(seq![*v]),
            Wire::Array(_, items) => Some(items),
            Wire::Tuple(items) => Some(items),
            Wire::Entry(k, v) => Some(seq![*k, *v]),
            _ => None,
        }
    }

    /// The `i`th thing in a container.
    pub open spec fn child(self, i: int) -> Option<Wire> {
        match self.children() {
            Some(items) if 0 <= i < items.len() => Some(items[i]),
            _ => None,
        }
    }

    /// The truth value, if this is one.
    pub open spec fn as_bool(self) -> Option<bool> {
        match self {
            Wire::Bool(b) => Some(b),
            _ => None,
        }
    }

    /// The signed number, if this is one.
    pub open spec fn as_int32(self) -> Option<int> {
        match self {
            Wire::Int32(n) => Some(n),
            _ => None,
        }
    }

    /// The unsigned number, if this is one.
    pub open spec fn as_uint32(self) -> Option<int> {
        match self {
            Wire::Uint32(n) => Some(n),
            _ => None,
        }
    }

    /// The text of a string, an object path or a signature.
    pub open spec fn as_text(self) -> Option<Seq<char>> {
        match self {
            Wire::Str(s) => Some(s),
            Wire::ObjectPath(s) => Some(s),
            Wire::Signature(s) => Some(s),
            _ => None,
        }
    }

    /// What a boxed value holds.
    pub open spec fn unboxed(self) -> Option<Wire> {
        match self {
            Wire::Boxed(v) => Some(*v),
            _ => None,
        }
    }

    /// The value under this key, if this is an entry for it.
    pub open spec fn entry_value(self, key: Seq<char>) -> Option<Wire> {
        match self {
            Wire::Entry(k, v) => if *k == Wire::Str(key) {
                v.unboxed()
            } else {
                None
            },
            _ => None,
        }
    }
}

/// The type strings of all items, one after the other.
pub open spec fn kinds(items: Seq<Wire>) -> Seq<char>
    decreases items,
{
    if items.len() == 0 {
        seq![]
    } else {
        kinds(items.drop_last()) + items.last().kind()
    }
}

/// The type strings of one item more.
pub proof fn lemma_kinds_take(items: Seq<Wire>, n: int)
    requires
        0 <= n < items.len(),
    ensures
        kinds(items.take(n + 1)) == kinds(items.take(n)) + items[n].kind(),
        kinds(items.take(0)) == Seq::<char>::empty(),
{
    assert(items.take(n + 1).drop_last() =~= items.take(n));
}

/// Is every item sound?
pub open spec fn all_sound(items: Seq<Wire>) -> bool
    decreases items,
{
    forall|i: int| 0 <= i < items.len() ==> (#[trigger] items[i]).sound()
}

/// Is every item of this type?
pub open spec fn all_of_kind(items: Seq<Wire>, kind: Seq<char>) -> bool {
    forall|i: int| 0 <= i < items.len() ==> (#[trigger] items[i]).kind() == kind
}

/// The value under `key` in a dictionary's entries, from entry `from` on.
pub open spec fn lookup_from(entries: Seq<Wire>, key: Seq<char>, from: int) -> Option<Wire>
    decreases entries.len() - from,
{
    if from >= entries.len() {
        None
    } else if entries[from].entry_value(key) is Some {
        entries[from].entry_value(key)
    } else {
        lookup_from(entries, key, from + 1)
    }
}

impl Value {
    /// The type string.
    pub fn type_string(&self) -> (r: String)
        ensures
            r@ == self@.kind(),
        decreases self,
    {
        let mut out = String::new();
        match self {
            Value::Bool(_) => out.push('b'),
            Value::Int32(_) => out.push('i'),
            Value::Uint32(_) => out.push('u'),
            Value::Str(_) => out.push('s'),
            Value::ObjectPath(_) => out.push('o'),
            Value::Signature(_) => out.push('g'),
            Value::Boxed(_) => out.push('v'),
            Value::Array(element, _) => {
                out.push('a');
                out.append(element.as_str());
            },
            Value::Tuple(items) => {
                out.push('(');
                let mut i: usize = 0;
                while i < items.len()
                    invariant
                        i <= items@.len(),
                        *self == Value::Tuple(*items),
                        out@ == seq!['('] + kinds(models(items@).take(i as int)),
                    decreases items@.len() - i,
                {
                    proof {
                        lemma_models(items@);
                        assert(models(items@).take(i + 1).drop_last() =~= models(items@).take(
                            i as int,
                        ));
                    }
                    assert(decreases_to!(*self => self->Tuple_0));
                    assert(decreases_to!(*items => items@));
                    assert(decreases_to!(items@ => items@[i as int]));
                    out.append(items[i].type_string().as_str());
                    i += 1;
                }
                assert(models(items@).take(i as int) =~= models(items@));
                out.push(')');
            },
            Value::Entry(k, v) => {
                out.push('{');
                out.append(k.type_string().as_str());
                out.append(v.type_string().as_str());
                out.push('}');
            },
            Value::Other(kind) => out.append(kind.as_str()),
        }
        assert(out@ =~= self@.kind());
        out
    }

    /// The `i`th thing in a container; `None` of a value that is no container,
    /// or past its end.
    pub fn child(&self, i: usize) -> (r: Option<&Value>)
        ensures
            match r {
                Some(v) => self@.child(i as int) == Some(v@),
                None => self@.child(i as int) is None,
            },
    {
        match self {
            Value::Boxed(v) => if i == 0 {
                Some(&**v)
            } else {
                None
            },
            Value::Array(_, items) => {
                proof {
                    lemma_models(items@);
                }
                if i < items.len() {
                    Some(&items[i])
                } else {
                    None
                }
            },
            Value::Tuple(items) => {
                proof {
                    lemma_models(items@);
                }
                if i < items.len() {
                    Some(&items[i])
                } else {
                    None
                }
            },
            Value::Entry(k, v) => if i == 0 {
                Some(&**k)
            } else if i == 1 {
                Some(&**v)
            } else {
                None
            },
            _ => None,
        }
    }

    /// How many things a container holds; 0 of a value that is no container.
    pub fn n_children(&self) -> (r: usize)
        ensures
            r == (match self@.children() {
                Some(items) => items.len(),
                None => 0,
            }),
    {
        match self {
            Value::Boxed(_) => 1,
            Value::Array(_, items) => {
                proof {
                    lemma_models(items@);
                }
                items.len()
            },
            Value::Tuple(items) => {
                proof {
                    lemma_models(items@);
                }
                items.len()
            },
            Value::Entry(_, _) => 2,
            _ => 0,
        }
    }

    /// The truth value, if this is one.
    pub fn get_bool(&self) -> (r: Option<bool>)
        ensures
            r == self@.as_bool(),
    {
        match self {
            Value::Bool(b) => Some(*b),
            _ => None,
        }
    }

    /// The signed number, if this is one.
    pub fn get_i32(&self) -> (r: Option<i32>)
        ensures
            match r {
                Some(n) => self@.as_int32() == Some(n as int),
                None => self@.as_int32() is None,
            },
    {
        match self {
            Value::Int32(n) => Some(*n),
            _ => None,
        }
    }

    /// The unsigned number, if this is one.
    pub fn get_u32(&self) -> (r: Option<u32>)
        ensures
            match r {
                Some(n) => self@.as_uint32() == Some(n as int),
                None => self@.as_uint32() is None,
            },
    {
        match self {
            Value::Uint32(n) => Some(*n),
            _ => None,
        }
    }

    /// The text of a string, an object path or a signature.
    pub fn get_str(&self) -> (r: Option<&str>)
        ensures
            match r {
                Some(s) => self@.as_text() == Some(s@),
                None => self@.as_text() is None,
            },
    {
        match self {
            Value::Str(s) => Some(s.as_str()),
            Value::ObjectPath(s) => Some(s.as_str()),
            Value::Signature(s) => Some(s.as_str()),
            _ => None,
        }
    }

    /// The value under this key in a dictionary.
    pub fn lookup(&self, key: &str) -> (r: Option<&Value>)
        ensures
            match self@ {
                Wire::Array(_, entries) => match r {
                    Some(v) => lookup_from(entries, key@, 0) == Some(v@),
                    None => lookup_from(entries, key@, 0) is None,
                },
                _ => r is None,
            },
    {
        match self {
            Value::Array(_, entries) => {
                let mut i: usize = 0;
                while i < entries.len()
                    invariant
                        i <= entries@.len(),
                        *self == (Value::Array(self->Array_0, *entries)),
                        lookup_from(models(entries@), key@, 0) == lookup_from(
                            models(entries@),
                            key@,
                            i as int,
                        ),
                    decreases entries@.len() - i,
                {
                    proof {
                        lemma_models(entries@);
                        reveal_with_fuel(Value::model, 3);
                    }
                    if let Value::Entry(k, v) = &entries[i] {
                        if let Value::Str(name) = &**k {
                            if *name.as_str() == *key {
                                if let Value::Boxed(inner) = &**v {
                                    return Some(&**inner);
                                }
                            }
                        }
                    }
                    i += 1;
                }
                None
            },
            _ => None,
        }
    }
}

} // verus!
