//! A JSON-like structural value: a string, or an object of named fields.
use vstd::prelude::*;

verus! {

/// The logical content of a wire value.
pub enum WireV {
    Null,
    Bool(bool),
    Num(int),
    Str(Seq<char>),
    Arr(Seq<WireV>),
    Obj(Seq<(Seq<char>, WireV)>),
}

/// One named field of an object.
#[derive(Debug, PartialEq, Eq)]
pub struct Field {
    pub name: String,
    pub value: Wire,
}

/// A value on the wire.
#[derive(Debug, PartialEq, Eq)]
pub enum Wire {
    Null,
    Bool(bool),
    Num(i64),
    Str(String),
    Arr(Vec<Wire>),
    Obj(Vec<Field>),
}

/// The logical content of a sequence of values, in order.
pub open spec fn items_view(xs: Seq<Wire>) -> Seq<WireV>
    decreases xs,
{
    if xs.len() == 0 {
        Seq::empty()
    } else {
        items_view(xs.drop_last()).push(xs.last().view())
    }
}

/// The logical content of a sequence of fields, in order.
pub open spec fn fields_view(fs: Seq<Field>) -> Seq<(Seq<char>, WireV)>
    decreases fs,
{
    if fs.len() == 0 {
        Seq::empty()
    } else {
        fields_view(fs.drop_last()).push((fs.last().name@, fs.last().value.view()))
    }
}

impl View for Wire {
    type V = WireV;

    open spec fn view(&self) -> WireV
        decreases self,
    {
        match self {
            Wire::Null => WireV::Null,
            Wire::Bool(b) => WireV::Bool(*b),
            Wire::Num(n) => WireV::Num(*n as int),
            Wire::Str(s) => WireV::Str(s@),
            Wire::Arr(xs) => WireV::Arr(items_view(xs@)),
            Wire::Obj(fs) => WireV::Obj(fields_view(fs@)),
        }
    }
}

/// The value of the last field named `k`, if any: a later field of the same
/// name overrides an earlier one.
pub open spec fn lookup(fs: Seq<(Seq<char>, WireV)>, k: Seq<char>) -> Option<WireV>
    decreases fs.len(),
{
    if fs.len() == 0 {
        None
    } else if fs.last().0 == k {
        Some(fs.last().1)
    } else {
        lookup(fs.drop_last(), k)
    }
}

/// The fields of a value, empty for a string.
pub open spec fn fields_of(w: WireV) -> Seq<(Seq<char>, WireV)> {
    match w {
        WireV::Obj(fs) => fs,
        WireV::Str(_) | WireV::Null | WireV::Bool(_) | WireV::Num(_) | WireV::Arr(_) => Seq::empty(),
    }
}

/// Viewing a sequence of fields with one more field at its end adds that field.
pub proof fn lemma_fields_view_push(fs: Seq<Field>, f: Field)
    ensures
        fields_view(fs.push(f)) == fields_view(fs).push((f.name@, f.value@)),
{
    assert(fs.push(f).drop_last() =~= fs);
}

/// Looking up a key in the fields followed by one more field.
pub proof fn lemma_lookup_push(fs: Seq<(Seq<char>, WireV)>, k: Seq<char>, e: (Seq<char>, WireV))
    ensures
        lookup(fs.push(e), k) == (if e.0 == k { Some(e.1) } else { lookup(fs, k) }),
{
    assert(fs.push(e).drop_last() =~= fs);
}

impl Wire {
    /// Whether the value is an object.
    pub fn is_object(&self) -> (r: bool)
        ensures
            r == self@ is Obj,
    {
        match self {
            Wire::Obj(_) => true,
            _ => false,
        }
    }

    /// A string value.
    pub fn from_string(s: String) -> (r: Wire)
        ensures
            r@ == WireV::Str(s@),
    {
        Wire::Str(s)
    }

    /// An object with no field.
    pub fn empty_object() -> (r: Wire)
        ensures
            r@ == WireV::Obj(Seq::empty()),
    {
        let r = Wire::Obj(Vec::new());
        assert(r@ == WireV::Obj(Seq::empty())) by {
            let ghost v: Seq<Field> = Seq::empty();
        };
        r
    }

    /// Appends a field to an object; a string is left as it is.
    pub fn push_field(&mut self, name: String, value: Wire)
        ensures
            final(self)@ == match old(self)@ {
                WireV::Obj(fs) => WireV::Obj(fs.push((name@, value@))),
                other => other,
            },
    {
        match self {
            Wire::Obj(fs) => {
                let ghost before = fs@;
                let f = Field { name, value };
                proof {
                    lemma_fields_view_push(before, f);
                }
                fs.push(f);
            },
            _ => {},
        }
    }

    /// The value of the last field named `k` of an object; `None` for a string
    /// or where no field has that name.
    pub fn get(&self, k: &String) -> (r: Option<&Wire>)
        ensures
            match r {
                Some(w) => lookup(fields_of(self@), k@) == Some(w@),
                None => lookup(fields_of(self@), k@) is None,
            },
    {
        match self {
            Wire::Null | Wire::Bool(_) | Wire::Num(_) | Wire::Str(_) | Wire::Arr(_) => None,
            Wire::Obj(fs) => {
                let mut i: usize = fs.len();
                proof {
                    assert(fs@.subrange(0, i as int) =~= fs@);
                }
                while i > 0
                    invariant
                        i <= fs.len(),
                        self@ == WireV::Obj(fields_view(fs@)),
                        lookup(fields_view(fs@), k@) == lookup(
                            fields_view(fs@.subrange(0, i as int)),
                            k@,
                        ),
                    decreases i,
                {
                    let ghost sub = fs@.subrange(0, i as int);
                    proof {
                        assert(sub.drop_last() =~= fs@.subrange(0, i - 1));
                        assert(sub.last() == fs@[i - 1]);
                        assert(fields_view(sub) == fields_view(sub.drop_last()).push(
                            (sub.last().name@, sub.last().value@),
                        ));
                        lemma_lookup_push(
                            fields_view(sub.drop_last()),
                            k@,
                            (sub.last().name@, sub.last().value@),
                        );
                    }
                    if fs[i - 1].name == *k {
                        return Some(&fs[i - 1].value);
                    }
                    i = i - 1;
                }
                None
            },
        }
    }
}

} // verus!
