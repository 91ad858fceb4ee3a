//! The JSON-like value: nulls, booleans, unsigned numbers, strings, arrays
//! and objects with insertion-ordered keys, together with its binary codec.
//!
//! The binary form tags every value with a type byte; numbers and lengths
//! are 64-bit little-endian; string contents cross as UTF-8.  The codec is
//! specified against a ghost model of the value tree, and decoding is
//! proved to invert encoding, byte for byte.

use vstd::prelude::*;
use vstd::bytes::{spec_u64_from_le_bytes, spec_u64_to_le_bytes, u64_from_le_bytes, u64_to_le_bytes};
use vstd::string::{StrSliceExecFns, StringSliceAdditionalSpecFns};
use vstd::utf8::{decode_utf8, encode_utf8, valid_utf8};
use crate::strutil::string_from_utf8;

verus! {

broadcast use vstd::std_specs::vec::axiom_vec_index_decreases;

/// A decoding failure: the bytes end too soon, a boolean byte is neither
/// zero nor one, a type tag is unknown, or string contents are not UTF-8.
#[derive(Clone, Copy, Debug, PartialEq, Eq, Structural)]
pub enum DecodeError {
    UnexpectedEof,
    InvalidBool,
    InvalidTypeId,
    InvalidUtf8,
}

impl DecodeError {
    /// A readable rendering of the failure.
    pub fn message(&self) -> (r: String)
        ensures
            r@ == self.spec_message(),
    {
        match self {
            DecodeError::UnexpectedEof => "Unexpected end of input.".to_owned(),
            DecodeError::InvalidBool => "Unexpected value for boolean byte.".to_owned(),
            DecodeError::InvalidTypeId => "Unexpected value for type id byte.".to_owned(),
            DecodeError::InvalidUtf8 => "String contents were not valid UTF-8.".to_owned(),
        }
    }

    /// The rendering, as a specification.
    pub open spec fn spec_message(&self) -> Seq<char> {
        match self {
            DecodeError::UnexpectedEof => "Unexpected end of input."@,
            DecodeError::InvalidBool => "Unexpected value for boolean byte."@,
            DecodeError::InvalidTypeId => "Unexpected value for type id byte."@,
            DecodeError::InvalidUtf8 => "String contents were not valid UTF-8."@,
        }
    }
}

/// The ghost model of a value tree: strings as character sequences,
/// aggregates as sequences.
pub enum VModel {
    Null,
    Bool(bool),
    Number(u64),
    Str(Seq<char>),
    Array(Seq<VModel>),
    Object(Seq<(Seq<char>, VModel)>),
}

/// The value itself.
#[derive(Debug, PartialEq, Eq)]
pub enum Value {
    Null,
    Bool(bool),
    Number(u64),
    String(String),
    Array(Vec<Value>),
    Object(Vec<(String, Value)>),
}

impl Value {
    /// The ghost model of this value.
    pub open spec fn dview(self) -> VModel
        decreases self,
    {
        match self {
            Value::Null => VModel::Null,
            Value::Bool(b) => VModel::Bool(b),
            Value::Number(n) => VModel::Number(n),
            Value::String(s) => VModel::Str(s@),
            Value::Array(a) => VModel::Array(
                Seq::new(
                    a@.len(),
                    |i: int| if 0 <= i < a@.len() {
                        a[i].dview()
                    } else {
                        VModel::Null
                    },
                ),
            ),
            Value::Object(o) => VModel::Object(
                Seq::new(
                    o@.len(),
                    |i: int| if 0 <= i < o@.len() {
                        (o[i].0@, o[i].1.dview())
                    } else {
                        (Seq::empty(), VModel::Null)
                    },
                ),
            ),
        }
    }

    /// The type tag of this value's binary form.
    pub open spec fn spec_type_id(m: VModel) -> u8 {
        match m {
            VModel::Null => 0,
            VModel::Bool(_) => 1,
            VModel::Number(_) => 2,
            VModel::Str(_) => 3,
            VModel::Array(_) => 4,
            VModel::Object(_) => 5,
        }
    }

    fn type_id(&self) -> (r: u8)
        ensures
            r == Self::spec_type_id(self.dview()),
    {
        match self {
            Value::Null => 0,
            Value::Bool(_) => 1,
            Value::Number(_) => 2,
            Value::String(_) => 3,
            Value::Array(_) => 4,
            Value::Object(_) => 5,
        }
    }
}

/// The binary form of a value.
pub open spec fn spec_serialize(m: VModel) -> Seq<u8>
    decreases m,
{
    match m {
        VModel::Null => seq![0u8],
        VModel::Bool(b) => seq![1u8, if b { 1u8 } else { 0u8 }],
        VModel::Number(n) => seq![2u8] + spec_u64_to_le_bytes(n),
        VModel::Str(s) => seq![3u8] + spec_u64_to_le_bytes(encode_utf8(s).len() as u64)
            + encode_utf8(s),
        VModel::Array(a) => seq![4u8] + spec_u64_to_le_bytes(a.len() as u64)
            + spec_serialize_list(a),
        VModel::Object(o) => seq![5u8] + spec_u64_to_le_bytes(o.len() as u64)
            + spec_serialize_object(o),
    }
}

/// The concatenated binary forms of a sequence of values.
pub open spec fn spec_serialize_list(a: Seq<VModel>) -> Seq<u8>
    decreases a,
{
    if a.len() == 0 {
        Seq::empty()
    } else {
        spec_serialize(a[0]) + spec_serialize_list(a.drop_first())
    }
}

/// The concatenated binary forms of an object's entries: each key as a
/// string record, then its value.
pub open spec fn spec_serialize_object(o: Seq<(Seq<char>, VModel)>) -> Seq<u8>
    decreases o,
{
    if o.len() == 0 {
        Seq::empty()
    } else {
        spec_u64_to_le_bytes(encode_utf8(o[0].0).len() as u64) + encode_utf8(o[0].0)
            + spec_serialize(o[0].1) + spec_serialize_object(o.drop_first())
    }
}

/// Appending one more value extends the list's binary form at the end.
pub proof fn lemma_serialize_list_snoc(a: Seq<VModel>, x: VModel)
    ensures
        spec_serialize_list(a.push(x)) == spec_serialize_list(a) + spec_serialize(x),
    decreases a,
{
    if a.len() == 0 {
        let p = a.push(x);
        assert(p[0] == x);
        assert(p.drop_first() =~= Seq::<VModel>::empty());
        assert(spec_serialize_list(p) == spec_serialize(x) + spec_serialize_list(p.drop_first()));
        assert(spec_serialize_list(p.drop_first()) == Seq::<u8>::empty());
        assert(a =~= Seq::<VModel>::empty());
        assert(spec_serialize_list(a) == Seq::<u8>::empty());
        assert(spec_serialize(x) + Seq::<u8>::empty() =~= Seq::<u8>::empty() + spec_serialize(x));
    } else {
        assert(a.push(x).drop_first() =~= a.drop_first().push(x));
        assert(a.push(x)[0] == a[0]);
        lemma_serialize_list_snoc(a.drop_first(), x);
        assert(spec_serialize_list(a.push(x)) == spec_serialize(a[0]) + (spec_serialize_list(
            a.drop_first(),
        ) + spec_serialize(x)));
        assert(spec_serialize(a[0]) + (spec_serialize_list(a.drop_first()) + spec_serialize(x))
            =~= (spec_serialize(a[0]) + spec_serialize_list(a.drop_first())) + spec_serialize(x));
    }
}

/// Appending one more entry extends the object's binary form at the end.
pub proof fn lemma_serialize_object_snoc(o: Seq<(Seq<char>, VModel)>, k: Seq<char>, x: VModel)
    ensures
        spec_serialize_object(o.push((k, x))) == spec_serialize_object(o) + (spec_u64_to_le_bytes(
            encode_utf8(k).len() as u64,
        ) + encode_utf8(k) + spec_serialize(x)),
    decreases o,
{
    if o.len() == 0 {
        let p = o.push((k, x));
        let rec = spec_u64_to_le_bytes(encode_utf8(k).len() as u64) + encode_utf8(k)
            + spec_serialize(x);
        assert(p[0] == (k, x));
        assert(p.drop_first() =~= Seq::<(Seq<char>, VModel)>::empty());
        assert(spec_serialize_object(p) == rec + spec_serialize_object(p.drop_first()));
        assert(spec_serialize_object(p.drop_first()) == Seq::<u8>::empty());
        assert(o =~= Seq::<(Seq<char>, VModel)>::empty());
        assert(spec_serialize_object(o) == Seq::<u8>::empty());
        assert(rec + Seq::<u8>::empty() =~= Seq::<u8>::empty() + rec);
    } else {
        assert(o.push((k, x)).drop_first() =~= o.drop_first().push((k, x)));
        assert(o.push((k, x))[0] == o[0]);
        lemma_serialize_object_snoc(o.drop_first(), k, x);
        let rec = spec_u64_to_le_bytes(encode_utf8(k).len() as u64) + encode_utf8(k)
            + spec_serialize(x);
        let head = spec_u64_to_le_bytes(encode_utf8(o[0].0).len() as u64) + encode_utf8(o[0].0)
            + spec_serialize(o[0].1);
        assert(spec_serialize_object(o.push((k, x))) == head + (spec_serialize_object(
            o.drop_first(),
        ) + rec));
        assert(head + (spec_serialize_object(o.drop_first()) + rec) =~= (head
            + spec_serialize_object(o.drop_first())) + rec);
    }
}

/// Writes the binary form of values into a growing byte vector.
pub struct ValueWriter {
    pub v: Vec<u8>,
}

impl Default for ValueWriter {
    /// An empty writer.
    fn default() -> (r: Self)
        ensures
            r.v@ == Seq::<u8>::empty(),
    {
        ValueWriter { v: Vec::new() }
    }
}

impl ValueWriter {
    /// Append one byte.
    pub fn write_u8(&mut self, n: u8)
        ensures
            final(self).v@ == old(self).v@.push(n),
    {
        self.v.push(n);
    }

    /// Append a number, little-endian.
    pub fn write_u64(&mut self, n: u64)
        ensures
            final(self).v@ == old(self).v@ + spec_u64_to_le_bytes(n),
    {
        let mut le = u64_to_le_bytes(n);
        self.v.append(&mut le);
    }

    /// Append a string record: byte length, then UTF-8 contents.
    pub fn write_str(&mut self, s: &str)
        ensures
            final(self).v@ == old(self).v@ + spec_u64_to_le_bytes(s.spec_bytes().len() as u64)
                + s.spec_bytes(),
    {
        let mut b = s.as_bytes_vec();
        self.write_u64(b.len() as u64);
        self.v.append(&mut b);
    }
}

/// Reads the binary form of values back, front to back.
pub struct ValueReader {
    data: Vec<u8>,
    pos: usize,
}

impl ValueReader {
    /// The bytes not consumed yet.
    pub closed spec fn remaining(&self) -> Seq<u8> {
        self.data@.skip(self.pos as int)
    }

    /// The position has not run past the data.
    pub closed spec fn wf(&self) -> bool {
        self.pos <= self.data@.len()
    }

    /// A reader over the whole of the given bytes.
    pub fn from_reader(data: Vec<u8>) -> (r: Self)
        ensures
            r.wf(),
            r.remaining() == data@,
    {
        let r = ValueReader { data, pos: 0 };
        proof {
            assert(r.remaining() =~= r.data@);
        }
        r
    }

    /// Read one byte.
    pub fn read_u8(&mut self) -> (r: Result<u8, DecodeError>)
        requires
            old(self).wf(),
        ensures
            final(self).wf(),
            match r {
                Ok(b) => old(self).remaining().len() >= 1 && b == old(self).remaining()[0]
                    && final(self).remaining() == old(self).remaining().skip(1),
                Err(e) => old(self).remaining().len() == 0 && e == DecodeError::UnexpectedEof,
            },
    {
        if self.pos < self.data.len() {
            let b = self.data[self.pos];
            self.pos = self.pos + 1;
            proof {
                assert(final(self).remaining() =~= old(self).remaining().skip(1));
            }
            Ok(b)
        } else {
            Err(DecodeError::UnexpectedEof)
        }
    }

    /// Read a number, little-endian.
    pub fn read_u64(&mut self) -> (r: Result<u64, DecodeError>)
        requires
            old(self).wf(),
        ensures
            final(self).wf(),
            match r {
                Ok(n) => old(self).remaining().len() >= 8 && n == spec_u64_from_le_bytes(
                    old(self).remaining().subrange(0, 8),
                ) && final(self).remaining() == old(self).remaining().skip(8),
                Err(e) => old(self).remaining().len() < 8 && e == DecodeError::UnexpectedEof,
            },
    {
        let n = self.data.len();
        if self.pos < n && 8 <= n - self.pos {
            let le = vstd::slice::slice_subrange(self.data.as_slice(), self.pos, self.pos + 8);
            let v = u64_from_le_bytes(le);
            proof {
                assert(le@ =~= old(self).remaining().subrange(0, 8));
            }
            self.pos = self.pos + 8;
            proof {
                assert(final(self).remaining() =~= old(self).remaining().skip(8));
            }
            Ok(v)
        } else {
            Err(DecodeError::UnexpectedEof)
        }
    }

    /// Read a string record: byte length, then UTF-8 contents.
    pub fn read_string(&mut self) -> (r: Result<String, DecodeError>)
        requires
            old(self).wf(),
        ensures
            final(self).wf(),
            match r {
                Ok(s) => {
                    let rem = old(self).remaining();
                    let l = spec_u64_from_le_bytes(rem.subrange(0, 8)) as int;
                    &&& rem.len() >= 8
                    &&& 8 + l <= rem.len()
                    &&& valid_utf8(rem.subrange(8, 8 + l))
                    &&& s@ == decode_utf8(rem.subrange(8, 8 + l))
                    &&& final(self).remaining() == rem.skip(8 + l)
                },
                Err(e) => {
                    let rem = old(self).remaining();
                    if rem.len() < 8 {
                        e == DecodeError::UnexpectedEof
                    } else {
                        let l = spec_u64_from_le_bytes(rem.subrange(0, 8)) as int;
                        if 8 + l > rem.len() {
                            e == DecodeError::UnexpectedEof
                        } else {
                            e == DecodeError::InvalidUtf8 && !valid_utf8(rem.subrange(8, 8 + l))
                        }
                    }
                },
            },
    {
        let ghost rem = old(self).remaining();
        let l = match self.read_u64() {
            Ok(x) => x,
            Err(e) => {
                return Err(e);
            },
        };
        let ghost mid = self.remaining();
        let n = self.data.len();
        proof {
            assert(mid == rem.skip(8));
            assert(self.pos <= n);
            assert(mid.len() == n - self.pos);
        }
        if (l as u128) > ((n - self.pos) as u128) {
            proof {
                assert(8 + l as int > rem.len());
            }
            return Err(DecodeError::UnexpectedEof);
        }
        let lu = l as usize;
        let bytes = vstd::slice::slice_to_vec(
            vstd::slice::slice_subrange(self.data.as_slice(), self.pos, self.pos + lu),
        );
        proof {
            assert(bytes@ =~= mid.subrange(0, l as int));
            assert(mid.subrange(0, l as int) =~= rem.subrange(8, 8 + l as int));
        }
        self.pos = self.pos + lu;
        proof {
            assert(self.remaining() =~= mid.skip(l as int));
            assert(mid.skip(l as int) =~= rem.skip(8 + l as int));
        }
        match string_from_utf8(bytes) {
            Some(s) => Ok(s),
            None => Err(DecodeError::InvalidUtf8),
        }
    }
}

/// One value decoded off the front of the bytes, with what is left; or
/// nothing, when the bytes are not a value's binary form.
pub open spec fn spec_deser(b: Seq<u8>) -> Option<(VModel, Seq<u8>)>
    decreases b.len(), 0int,
{
    if b.len() == 0 {
        None
    } else {
        let t = b[0];
        let r0 = b.drop_first();
        if t == 0 {
            Some((VModel::Null, r0))
        } else if t == 1 {
            if r0.len() >= 1 {
                if r0[0] == 0 {
                    Some((VModel::Bool(false), r0.drop_first()))
                } else if r0[0] == 1 {
                    Some((VModel::Bool(true), r0.drop_first()))
                } else {
                    None
                }
            } else {
                None
            }
        } else if t == 2 {
            if r0.len() >= 8 {
                Some((VModel::Number(spec_u64_from_le_bytes(r0.subrange(0, 8))), r0.skip(8)))
            } else {
                None
            }
        } else if t == 3 {
            if r0.len() >= 8 {
                let l = spec_u64_from_le_bytes(r0.subrange(0, 8)) as int;
                if 8 + l <= r0.len() {
                    let bs = r0.subrange(8, 8 + l);
                    if valid_utf8(bs) {
                        Some((VModel::Str(decode_utf8(bs)), r0.skip(8 + l)))
                    } else {
                        None
                    }
                } else {
                    None
                }
            } else {
                None
            }
        } else if t == 4 {
            if r0.len() >= 8 {
                let n = spec_u64_from_le_bytes(r0.subrange(0, 8)) as int;
                match spec_deser_list(r0.skip(8), n) {
                    Some((l, rest)) => Some((VModel::Array(l), rest)),
                    None => None,
                }
            } else {
                None
            }
        } else if t == 5 {
            if r0.len() >= 8 {
                let n = spec_u64_from_le_bytes(r0.subrange(0, 8)) as int;
                match spec_deser_object(r0.skip(8), n) {
                    Some((o, rest)) => Some((VModel::Object(o), rest)),
                    None => None,
                }
            } else {
                None
            }
        } else {
            None
        }
    }
}

/// `n` values decoded off the front of the bytes.
pub open spec fn spec_deser_list(b: Seq<u8>, n: int) -> Option<(Seq<VModel>, Seq<u8>)>
    decreases b.len(), n,
{
    if n <= 0 {
        Some((Seq::empty(), b))
    } else {
        match spec_deser(b) {
            Some((v, rest)) => if rest.len() < b.len() {
                match spec_deser_list(rest, n - 1) {
                    Some((l, rest2)) => Some((seq![v] + l, rest2)),
                    None => None,
                }
            } else {
                None
            },
            None => None,
        }
    }
}

/// `n` key–value entries decoded off the front of the bytes.
pub open spec fn spec_deser_object(b: Seq<u8>, n: int) -> Option<
    (Seq<(Seq<char>, VModel)>, Seq<u8>),
>
    decreases b.len(), n,
{
    if n <= 0 {
        Some((Seq::empty(), b))
    } else if b.len() < 8 {
        None
    } else {
        let l = spec_u64_from_le_bytes(b.subrange(0, 8)) as int;
        if 8 + l <= b.len() && valid_utf8(b.subrange(8, 8 + l)) {
            let key = decode_utf8(b.subrange(8, 8 + l));
            let rest0 = b.skip(8 + l);
            match spec_deser(rest0) {
                Some((v, rest)) => if rest.len() < b.len() {
                    match spec_deser_object(rest, n - 1) {
                        Some((o, rest2)) => Some((seq![(key, v)] + o, rest2)),
                        None => None,
                    }
                } else {
                    None
                },
                None => None,
            }
        } else {
            None
        }
    }
}

impl Value {
    /// The binary form of this value.
    pub fn serialize(&self) -> (r: Vec<u8>)
        ensures
            r@ == spec_serialize(self.dview()),
    {
        let mut w = ValueWriter::default();
        self.serialize_(&mut w);
        proof {
            assert(w.v@ =~= spec_serialize(self.dview()));
        }
        w.v
    }

    #[verifier::loop_isolation(false)]
    fn serialize_(&self, w: &mut ValueWriter)
        ensures
            final(w).v@ == old(w).v@ + spec_serialize(self.dview()),
        decreases *self,
    {
        let ghost pre = old(w).v@;
        let t = self.type_id();
        w.write_u8(t);
        match self {
            Value::Null => {
                proof {
                    assert(w.v@ =~= pre + spec_serialize(self.dview()));
                }
            },
            Value::Bool(b) => {
                w.write_u8(
                    if *b {
                        1
                    } else {
                        0
                    },
                );
                proof {
                    assert(w.v@ =~= pre + spec_serialize(self.dview()));
                }
            },
            Value::Number(n) => {
                w.write_u64(*n);
                proof {
                    assert(w.v@ =~= pre + spec_serialize(self.dview()));
                }
            },
            Value::String(s) => {
                w.write_str(s.as_str());
                proof {
                    assert(w.v@ =~= pre + spec_serialize(self.dview()));
                }
            },
            Value::Array(a) => {
                let n = a.len();
                w.write_u64(n as u64);
                let ghost models = Seq::new(
                    a@.len(),
                    |i: int| if 0 <= i < a@.len() {
                        a[i].dview()
                    } else {
                        VModel::Null
                    },
                );
                let ghost head = pre + seq![4u8] + spec_u64_to_le_bytes(n as u64);
                proof {
                    assert(w.v@ =~= head);
                    assert(models.subrange(0, 0) =~= Seq::<VModel>::empty());
                    assert(w.v@ =~= head + spec_serialize_list(models.subrange(0, 0)));
                }
                let mut i: usize = 0;
                while i < n
                    invariant
                        n == a@.len(),
                        0 <= i <= n,
                        models == Seq::new(
                            a@.len(),
                            |j: int| if 0 <= j < a@.len() {
                                a[j].dview()
                            } else {
                                VModel::Null
                            },
                        ),
                        w.v@ == head + spec_serialize_list(models.subrange(0, i as int)),
                    decreases n - i,
                {
                    proof {
                        assert(decreases_to!(*self => self->Array_0@[i as int]));
                        assert(self->Array_0@[i as int] == a@[i as int]);
                    }
                    a[i].serialize_(w);
                    i += 1;
                    proof {
                        lemma_serialize_list_snoc(models.subrange(0, i - 1), models[i - 1]);
                        assert(models.subrange(0, i as int) =~= models.subrange(0, i - 1).push(
                            models[i - 1],
                        ));
                        assert(w.v@ =~= head + spec_serialize_list(models.subrange(0, i as int)));
                    }
                }
                proof {
                    assert(models.subrange(0, n as int) =~= models);
                    assert(self.dview() matches VModel::Array(ms) && ms =~= models);
                    assert(w.v@ =~= pre + spec_serialize(self.dview()));
                }
            },
            Value::Object(o) => {
                let n = o.len();
                w.write_u64(n as u64);
                let ghost entries = Seq::new(
                    o@.len(),
                    |i: int| if 0 <= i < o@.len() {
                        (o[i].0@, o[i].1.dview())
                    } else {
                        (Seq::<char>::empty(), VModel::Null)
                    },
                );
                let ghost head = pre + seq![5u8] + spec_u64_to_le_bytes(n as u64);
                proof {
                    assert(w.v@ =~= head);
                    assert(entries.subrange(0, 0) =~= Seq::<(Seq<char>, VModel)>::empty());
                    assert(w.v@ =~= head + spec_serialize_object(entries.subrange(0, 0)));
                }
                let mut i: usize = 0;
                while i < n
                    invariant
                        n == o@.len(),
                        0 <= i <= n,
                        entries == Seq::new(
                            o@.len(),
                            |j: int| if 0 <= j < o@.len() {
                                (o[j].0@, o[j].1.dview())
                            } else {
                                (Seq::<char>::empty(), VModel::Null)
                            },
                        ),
                        w.v@ == head + spec_serialize_object(entries.subrange(0, i as int)),
                    decreases n - i,
                {
                    w.write_str(o[i].0.as_str());
                    proof {
                        assert(decreases_to!(*self => self->Object_0@[i as int].1));
                        assert(self->Object_0@[i as int] == o@[i as int]);
                    }
                    o[i].1.serialize_(w);
                    i += 1;
                    proof {
                        lemma_serialize_object_snoc(
                            entries.subrange(0, i - 1),
                            entries[i - 1].0,
                            entries[i - 1].1,
                        );
                        assert(entries.subrange(0, i as int) =~= entries.subrange(0, i - 1).push(
                            entries[i - 1],
                        ));
                        assert(w.v@ =~= head + spec_serialize_object(entries.subrange(0, i as int)));
                    }
                }
                proof {
                    assert(entries.subrange(0, n as int) =~= entries);
                    assert(self.dview() matches VModel::Object(es) && es =~= entries);
                    assert(w.v@ =~= pre + spec_serialize(self.dview()));
                }
            },
        }
    }

    /// Decode one value off the front of the bytes; trailing bytes are
    /// ignored, as a reader that stops after one value ignores them.
    pub fn deserialize(bytes: &[u8]) -> (r: Result<Self, DecodeError>)
        ensures
            match spec_deser(bytes@) {
                Some((m, _rest)) => r matches Ok(v) && v.dview() == m,
                None => r is Err,
            },
    {
        let data = vstd::slice::slice_to_vec(bytes);
        let mut rd = ValueReader::from_reader(data);
        Self::deserialize_(&mut rd)
    }

    #[verifier::loop_isolation(false)]
    fn deserialize_(rd: &mut ValueReader) -> (r: Result<Self, DecodeError>)
        requires
            old(rd).wf(),
        ensures
            final(rd).wf(),
            match spec_deser(old(rd).remaining()) {
                Some((m, rest)) => r matches Ok(v) && v.dview() == m && final(rd).remaining()
                    == rest && rest.len() < old(rd).remaining().len(),
                None => r is Err,
            },
        decreases old(rd).remaining().len(),
    {
        let ghost rem = old(rd).remaining();
        let t = match rd.read_u8() {
            Ok(x) => x,
            Err(e) => {
                return Err(e);
            },
        };
        let ghost r0 = rem.drop_first();
        proof {
            assert(rd.remaining() =~= r0);
            assert(t == rem[0]);
        }
        if t == 0 {
            Ok(Value::Null)
        } else if t == 1 {
            let b = match rd.read_u8() {
                Ok(x) => x,
                Err(e) => {
                    return Err(e);
                },
            };
            proof {
                assert(rd.remaining() =~= r0.drop_first());
            }
            if b == 0 {
                Ok(Value::Bool(false))
            } else if b == 1 {
                Ok(Value::Bool(true))
            } else {
                Err(DecodeError::InvalidBool)
            }
        } else if t == 2 {
            match rd.read_u64() {
                Ok(n) => {
                    proof {
                        assert(rd.remaining() =~= r0.skip(8));
                    }
                    Ok(Value::Number(n))
                },
                Err(e) => Err(e),
            }
        } else if t == 3 {
            match rd.read_string() {
                Ok(s) => {
                    proof {
                        let l = spec_u64_from_le_bytes(r0.subrange(0, 8)) as int;
                        assert(rd.remaining() =~= r0.skip(8 + l));
                    }
                    Ok(Value::String(s))
                },
                Err(e) => Err(e),
            }
        } else if t == 4 {
            let n = match rd.read_u64() {
                Ok(x) => x,
                Err(e) => {
                    return Err(e);
                },
            };
            let ghost b0 = rd.remaining();
            proof {
                assert(b0 =~= r0.skip(8));
                assert(b0.len() < rem.len());
            }
            let mut out: Vec<Value> = Vec::new();
            let mut i: u64 = 0;
            proof {
                assert(Seq::new(out@.len(), |j: int| out[j].dview()) =~= Seq::<VModel>::empty());
                match spec_deser_list(b0, n as int) {
                    Some((l, rest)) => {
                        assert(Seq::<VModel>::empty() + l =~= l);
                    },
                    None => {},
                }
            }
            while i < n
                invariant
                    rd.wf(),
                    0 <= i <= n,
                    out@.len() == i,
                    rd.remaining().len() <= b0.len(),
                    b0.len() < rem.len(),
                    ({
                        let models = Seq::new(out@.len(), |j: int| out[j].dview());
                        spec_deser_list(b0, n as int) == (match spec_deser_list(
                            rd.remaining(),
                            n - i,
                        ) {
                            Some((l, rest)) => Some::<(Seq<VModel>, Seq<u8>)>((models + l, rest)),
                            None => None::<(Seq<VModel>, Seq<u8>)>,
                        })
                    }),
                decreases n - i,
            {
                let ghost before = rd.remaining();
                let ghost models_pre = Seq::new(out@.len(), |j: int| out[j].dview());
                let v = match Self::deserialize_(rd) {
                    Ok(x) => x,
                    Err(e) => {
                        proof {
                            assert(spec_deser_list(before, n - i) is None);
                            assert(spec_deser_list(b0, n as int) is None);
                            assert(spec_deser(rem) is None);
                        }
                        return Err(e);
                    },
                };
                out.push(v);
                i += 1;
                proof {
                    let m = spec_deser(before)->Some_0.0;
                    let models = Seq::new(out@.len(), |j: int| out[j].dview());
                    assert(models =~= models_pre.push(m));
                    match spec_deser_list(rd.remaining(), n - i) {
                        Some((l, rest)) => {
                            assert(models_pre + (seq![m] + l) =~= models + l);
                        },
                        None => {},
                    }
                }
            }
            proof {
                let models = Seq::new(out@.len(), |j: int| out[j].dview());
                assert(models + Seq::<VModel>::empty() =~= models);
                assert(spec_deser_list(b0, n as int) == Some::<(Seq<VModel>, Seq<u8>)>(
                    (models, rd.remaining()),
                ));
                assert(Value::Array(out).dview() matches VModel::Array(ms) && ms =~= models);
            }
            Ok(Value::Array(out))
        } else if t == 5 {
            let n = match rd.read_u64() {
                Ok(x) => x,
                Err(e) => {
                    return Err(e);
                },
            };
            let ghost b0 = rd.remaining();
            proof {
                assert(b0 =~= r0.skip(8));
                assert(b0.len() < rem.len());
            }
            let mut out: Vec<(String, Value)> = Vec::new();
            let mut i: u64 = 0;
            proof {
                assert(Seq::new(out@.len(), |j: int| (out[j].0@, out[j].1.dview())) =~= Seq::<
                    (Seq<char>, VModel),
                >::empty());
                match spec_deser_object(b0, n as int) {
                    Some((l, rest)) => {
                        assert(Seq::<(Seq<char>, VModel)>::empty() + l =~= l);
                    },
                    None => {},
                }
            }
            while i < n
                invariant
                    rd.wf(),
                    0 <= i <= n,
                    out@.len() == i,
                    rd.remaining().len() <= b0.len(),
                    b0.len() < rem.len(),
                    ({
                        let entries = Seq::new(out@.len(), |j: int| (out[j].0@, out[j].1.dview()));
                        spec_deser_object(b0, n as int) == (match spec_deser_object(
                            rd.remaining(),
                            n - i,
                        ) {
                            Some((l, rest)) => Some::<(Seq<(Seq<char>, VModel)>, Seq<u8>)>(
                                (entries + l, rest),
                            ),
                            None => None::<(Seq<(Seq<char>, VModel)>, Seq<u8>)>,
                        })
                    }),
                decreases n - i,
            {
                let ghost before = rd.remaining();
                let ghost entries_pre = Seq::new(out@.len(), |j: int| (out[j].0@, out[j].1.dview()));
                let key = match rd.read_string() {
                    Ok(x) => x,
                    Err(e) => {
                        proof {
                            assert(spec_deser_object(before, n - i) is None);
                            assert(spec_deser_object(b0, n as int) is None);
                            assert(spec_deser(rem) is None);
                        }
                        return Err(e);
                    },
                };
                let ghost kl = spec_u64_from_le_bytes(before.subrange(0, 8)) as int;
                let ghost km = decode_utf8(before.subrange(8, 8 + kl));
                let ghost mid = rd.remaining();
                proof {
                    assert(mid =~= before.skip(8 + kl));
                    assert(mid.len() < before.len());
                }
                let v = match Self::deserialize_(rd) {
                    Ok(x) => x,
                    Err(e) => {
                        proof {
                            assert(spec_deser(mid) is None);
                            assert(spec_deser_object(before, n - i) is None);
                            assert(spec_deser_object(b0, n as int) is None);
                            assert(spec_deser(rem) is None);
                        }
                        return Err(e);
                    },
                };
                out.push((key, v));
                i += 1;
                proof {
                    let m = spec_deser(mid)->Some_0.0;
                    let entries = Seq::new(out@.len(), |j: int| (out[j].0@, out[j].1.dview()));
                    assert(entries =~= entries_pre.push((km, m)));
                    match spec_deser_object(rd.remaining(), n - i) {
                        Some((l, rest)) => {
                            assert(entries_pre + (seq![(km, m)] + l) =~= entries + l);
                        },
                        None => {},
                    }
                }
            }
            proof {
                let entries = Seq::new(out@.len(), |j: int| (out[j].0@, out[j].1.dview()));
                assert(entries + Seq::<(Seq<char>, VModel)>::empty() =~= entries);
                assert(spec_deser_object(b0, n as int) == Some::<(Seq<(Seq<char>, VModel)>, Seq<u8>)>(
                    (entries, rd.remaining()),
                ));
                assert(Value::Object(out).dview() matches VModel::Object(es) && es =~= entries);
            }
            Ok(Value::Object(out))
        } else {
            Err(DecodeError::InvalidTypeId)
        }
    }
}


/// A model small enough to serialize: every aggregate and every string's
/// encoding is addressable by a 64-bit length.
pub open spec fn spec_model_ok(m: VModel) -> bool
    decreases m,
{
    match m {
        VModel::Null => true,
        VModel::Bool(_) => true,
        VModel::Number(_) => true,
        VModel::Str(s) => encode_utf8(s).len() < 0x1_0000_0000_0000_0000,
        VModel::Array(a) => a.len() < 0x1_0000_0000_0000_0000 && (forall|i: int|
            0 <= i < a.len() ==> spec_model_ok(#[trigger] a[i])),
        VModel::Object(o) => o.len() < 0x1_0000_0000_0000_0000 && (forall|i: int|
            0 <= i < o.len() ==> {
                &&& encode_utf8((#[trigger] o[i]).0).len() < 0x1_0000_0000_0000_0000
                &&& spec_model_ok(o[i].1)
            }),
    }
}

/// Every value's binary form opens with its type tag.
pub proof fn lemma_serialize_len_pos(m: VModel)
    ensures
        spec_serialize(m).len() >= 1,
{
}

/// Decoding inverts encoding: the binary form of a value, followed by
/// anything, decodes to exactly that value with exactly that remainder.
pub proof fn lemma_value_round_trip(m: VModel, rest: Seq<u8>)
    requires
        spec_model_ok(m),
    ensures
        spec_deser(spec_serialize(m) + rest) == Some::<(VModel, Seq<u8>)>((m, rest)),
    decreases m, 0int,
{
    vstd::bytes::lemma_auto_spec_u64_to_from_le_bytes();
    let b = spec_serialize(m) + rest;
    match m {
        VModel::Null => {
            assert(b[0] == 0);
            assert(b.drop_first() =~= rest);
        },
        VModel::Bool(v) => {
            assert(b[0] == 1);
            let r0 = b.drop_first();
            assert(r0[0] == (if v { 1u8 } else { 0u8 }));
            assert(r0.drop_first() =~= rest);
        },
        VModel::Number(n) => {
            assert(b[0] == 2);
            let r0 = b.drop_first();
            assert(r0 =~= spec_u64_to_le_bytes(n) + rest);
            assert(r0.subrange(0, 8) =~= spec_u64_to_le_bytes(n));
            assert(r0.skip(8) =~= rest);
        },
        VModel::Str(s) => {
            assert(b[0] == 3);
            let e = encode_utf8(s);
            let le = spec_u64_to_le_bytes(e.len() as u64);
            let r0 = b.drop_first();
            assert(r0 =~= le + e + rest);
            assert(r0.subrange(0, 8) =~= le);
            let l = spec_u64_from_le_bytes(r0.subrange(0, 8)) as int;
            assert(l == e.len());
            assert(r0.subrange(8, 8 + l) =~= e);
            vstd::utf8::encode_utf8_valid_utf8(s);
            vstd::utf8::encode_utf8_decode_utf8(s);
            assert(r0.skip(8 + l) =~= rest);
        },
        VModel::Array(a) => {
            assert(b[0] == 4);
            let le = spec_u64_to_le_bytes(a.len() as u64);
            let r0 = b.drop_first();
            assert(r0 =~= le + (spec_serialize_list(a) + rest));
            assert(r0.subrange(0, 8) =~= le);
            let n = spec_u64_from_le_bytes(r0.subrange(0, 8)) as int;
            assert(n == a.len());
            assert(r0.skip(8) =~= spec_serialize_list(a) + rest);
            lemma_list_round_trip(a, rest);
        },
        VModel::Object(o) => {
            assert(b[0] == 5);
            let le = spec_u64_to_le_bytes(o.len() as u64);
            let r0 = b.drop_first();
            assert(r0 =~= le + (spec_serialize_object(o) + rest));
            assert(r0.subrange(0, 8) =~= le);
            let n = spec_u64_from_le_bytes(r0.subrange(0, 8)) as int;
            assert(n == o.len());
            assert(r0.skip(8) =~= spec_serialize_object(o) + rest);
            lemma_object_round_trip(o, rest);
        },
    }
}

/// Decoding inverts encoding for a list of values.
pub proof fn lemma_list_round_trip(a: Seq<VModel>, rest: Seq<u8>)
    requires
        forall|i: int| 0 <= i < a.len() ==> spec_model_ok(#[trigger] a[i]),
    ensures
        spec_deser_list(spec_serialize_list(a) + rest, a.len() as int) == Some::<
            (Seq<VModel>, Seq<u8>),
        >((a, rest)),
    decreases a, 1int,
{
    if a.len() == 0 {
        assert(spec_serialize_list(a) + rest =~= rest);
        assert(a =~= Seq::<VModel>::empty());
    } else {
        let b = spec_serialize_list(a) + rest;
        let tail = a.drop_first();
        assert(b =~= spec_serialize(a[0]) + (spec_serialize_list(tail) + rest));
        lemma_value_round_trip(a[0], spec_serialize_list(tail) + rest);
        lemma_serialize_len_pos(a[0]);
        let mid = spec_serialize_list(tail) + rest;
        assert(spec_deser(b) == Some::<(VModel, Seq<u8>)>((a[0], mid)));
        assert(mid.len() < b.len());
        lemma_list_round_trip(tail, rest);
        assert(seq![a[0]] + tail =~= a);
    }
}

/// Decoding inverts encoding for an object's entries.
pub proof fn lemma_object_round_trip(o: Seq<(Seq<char>, VModel)>, rest: Seq<u8>)
    requires
        forall|i: int|
            0 <= i < o.len() ==> {
                &&& encode_utf8((#[trigger] o[i]).0).len() < 0x1_0000_0000_0000_0000
                &&& spec_model_ok(o[i].1)
            },
    ensures
        spec_deser_object(spec_serialize_object(o) + rest, o.len() as int) == Some::<
            (Seq<(Seq<char>, VModel)>, Seq<u8>),
        >((o, rest)),
    decreases o, 1int,
{
    vstd::bytes::lemma_auto_spec_u64_to_from_le_bytes();
    if o.len() == 0 {
        assert(spec_serialize_object(o) + rest =~= rest);
        assert(o =~= Seq::<(Seq<char>, VModel)>::empty());
    } else {
        let b = spec_serialize_object(o) + rest;
        let tail = o.drop_first();
        let k = o[0].0;
        let e = encode_utf8(k);
        let le = spec_u64_to_le_bytes(e.len() as u64);
        let after_key = spec_serialize(o[0].1) + (spec_serialize_object(tail) + rest);
        assert(b =~= le + e + after_key);
        assert(b.len() >= 8);
        assert(b.subrange(0, 8) =~= le);
        let l = spec_u64_from_le_bytes(b.subrange(0, 8)) as int;
        assert(l == e.len());
        assert(b.subrange(8, 8 + l) =~= e);
        vstd::utf8::encode_utf8_valid_utf8(k);
        vstd::utf8::encode_utf8_decode_utf8(k);
        assert(b.skip(8 + l) =~= after_key);
        lemma_value_round_trip(o[0].1, spec_serialize_object(tail) + rest);
        lemma_serialize_len_pos(o[0].1);
        let mid = spec_serialize_object(tail) + rest;
        assert(spec_deser(after_key) == Some::<(VModel, Seq<u8>)>((o[0].1, mid)));
        assert(mid.len() < b.len());
        lemma_object_round_trip(tail, rest);
        assert(seq![(k, o[0].1)] + tail =~= o);
        assert((k, o[0].1) == o[0]);
    }
}

} // verus!
