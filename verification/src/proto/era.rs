//! Eras and time capsule eras.
use vstd::prelude::*;
use crate::codec::{
    concat_of, conv_bool, conv_bytes, conv_fields, conv_i32, conv_msgs, conv_opt_bytes,
    conv_packed_u64, conv_rep_string, conv_string, conv_u32, conv_u64, conv_entry, decode_with,
    entry_raw, last_of, lemma_bool_round_trip, lemma_bytes_round_trip, lemma_concat_of_at,
    lemma_encode_empty_piece, lemma_entry_payload_bound, lemma_i32_round_trip,
    lemma_map_round_trip, lemma_opt_bytes_round_trip, lemma_opt_msg_round_trip,
    lemma_packed_round_trip, lemma_piece_ok, lemma_piece_payload_bound,
    lemma_rep_msg_round_trip, lemma_rep_string_round_trip, lemma_sel_concat, lemma_sel_piece,
    lemma_sel_take_step, lemma_string_round_trip, lemma_u32_round_trip, lemma_u64_round_trip,
    lemma_val_msg_round_trip, map_of, opt_bytes_view, opt_msg, piece, put_bool_field,
    put_bytes_field, put_delimited, put_i32_field, put_map_u32, put_opt_bytes_field,
    put_opt_msg_field, put_packed_u64_field, put_rep_string_field, put_string_field,
    put_u32_field, put_u64_field, raw_fields, sel, step_bool, step_bytes, step_i32,
    step_map_u32, step_msg_fields, step_opt_bytes, step_packed_u64, step_rep_string,
    step_string, step_u32, step_u64, strings_view, val_msg, val_u32, vals_bool, vals_bytes,
    vals_i32, vals_map, vals_ok, vals_opt_bytes, vals_opt_msg, vals_packed_u64,
    vals_rep_msg, vals_rep_string, vals_string, vals_u32, vals_u64, venc_msg, venc_u32,
};
use crate::message::ProtoMessage;
use crate::string_map::{keys_sorted, view_entries, StringMap};
use crate::varint::MAX_TAG;
use crate::wire::{
    encode_fields, fields_ok, fields_view, lemma_encode_fields_concat, lemma_fields_ok_concat,
    lemma_parse_encode_fields, parse_fields_exec, RawField, RawV, RawValue, WireError,
};

verus! {

broadcast use {lemma_sel_concat, lemma_sel_piece};


/// An era as the activity service lists it, by its id; the fields this library does not read are skipped.
#[derive(Debug, Clone, Copy, PartialEq, Eq, Structural)]
pub struct Era {
    pub id: u32,
}

/// The value of a [`Era`].
pub struct EraV {
    pub id: u32,
}

impl View for Era {
    type V = EraV;

    open spec fn view(&self) -> EraV {
        EraV {
            id: self.id,
        }
    }
}

impl EraV {
    /// The message with every field at its default.
    pub open spec fn default_value() -> EraV {
        EraV {
            id: 0,
        }
    }

    /// Map fields hold their keys in order, each once, here and in nested messages.
    pub open spec fn wf(self) -> bool {
        true
    }

    pub open spec fn piece_id(self) -> Seq<(u32, RawV)> {
        piece(1, vals_u32(self.id))
    }

    /// The raw fields the message is written as, in field order.
    pub open spec fn to_raw(self) -> Seq<(u32, RawV)> {
        self.piece_id()
    }

    /// The message read from raw fields, as prost reads it.
    pub open spec fn from_raw(fs: Seq<(u32, RawV)>) -> Option<EraV> {
        let id = last_of(sel(fs, 1), conv_u32(), 0);
        if id is Some {
            Some(EraV {
                id: id.unwrap(),
            })
        } else {
            None
        }
    }

    pub open spec fn from_raw_fn() -> spec_fn(Seq<(u32, RawV)>) -> Option<EraV> {
        |fs: Seq<(u32, RawV)>| EraV::from_raw(fs)
    }

    /// The protobuf encoding of the message.
    pub open spec fn encode(self) -> Seq<u8> {
        encode_fields(self.to_raw())
    }

    pub open spec fn encode_fn() -> spec_fn(EraV) -> Seq<u8> {
        |m: EraV| m.encode()
    }

    /// The message read from bytes, if they hold one.
    pub open spec fn decode(s: Seq<u8>) -> Option<EraV> {
        decode_with(s, EraV::from_raw_fn())
    }

    /// The encoding is the encodings of the fields one after the other.
    pub proof fn lemma_encode_split(self)
        ensures
            self.encode() == encode_fields(self.piece_id()),
    {
    }

    /// Reading the raw fields of a message gives the message back.
    pub proof fn lemma_from_to_raw(self)
        requires
            self.wf(),
            self.encode().len() <= u64::MAX,
        ensures
            EraV::from_raw(self.to_raw()) == Some(self),
            fields_ok(self.to_raw()),
        decreases self.encode().len(),
    {
        let fs = self.to_raw();
        self.lemma_encode_split();
        assert(sel(fs, 1) =~= vals_u32(self.id));
        lemma_u32_round_trip(self.id);
        lemma_piece_ok(1, vals_u32(self.id));
    }

    pub open spec fn to_raw_fn() -> spec_fn(EraV) -> Seq<(u32, RawV)> {
        |m: EraV| m.to_raw()
    }
}

/// Decoding the encoding of a era gives it back.
pub proof fn lemma_era_round_trip(m: EraV)
    requires
        m.wf(),
        m.encode().len() <= u64::MAX,
    ensures
        EraV::decode(m.encode()) == Some(m),
{
    m.lemma_from_to_raw();
    lemma_parse_encode_fields(m.to_raw());
}

/// Empty bytes decode to the default era.
pub proof fn lemma_era_decode_empty()
    ensures
        EraV::decode(Seq::empty()) == Some(EraV::default_value()),
{
    let e = Seq::<(u32, RawV)>::empty();
    assert(sel(e, 1) == Seq::<RawV>::empty());
}

impl Era {
    /// Appends the protobuf encoding of the message.
    pub fn encode_raw(&self, buf: &mut Vec<u8>)
        ensures
            final(buf)@ == old(buf)@ + self@.encode(),
    {
        let ghost m = self@;
        put_u32_field(buf, 1, self.id);
        proof {
            m.lemma_encode_split();
        }
    }

    /// The protobuf encoding of the message.
    pub fn encode_to_vec(&self) -> (r: Vec<u8>)
        ensures
            r@ == self@.encode(),
    {
        let mut buf = Vec::new();
        self.encode_raw(&mut buf);
        proof {
            assert(buf@ =~= self@.encode());
        }
        buf
    }

    /// Reads the message from its raw fields.
    pub fn from_fields(fields: &Vec<RawField>) -> (res: Result<Era, WireError>)
        ensures
            match EraV::from_raw(fields_view(fields@)) {
                Some(m) => res matches Ok(x) && x@ == m,
                None => res is Err,
            },
    {
        let ghost fs = fields_view(fields@);
        let mut id: u32 = 0;
        let mut i: usize = 0;
        proof {
            assert(fs.take(0) =~= Seq::<(u32, RawV)>::empty());
            assert(fields_view(Seq::<RawField>::empty()) =~= Seq::<(u32, RawV)>::empty());
        }
        while i < fields.len()
            invariant
                fs == fields_view(fields@),
                i <= fields@.len(),
                last_of(sel(fs.take(i as int), 1), conv_u32(), 0) == Some(id),
            decreases fields@.len() - i,
        {
            let f = &fields[i];
            proof {
                lemma_sel_take_step(fs, i as int);
            }
            if f.tag == 1 {
                step_u32(&mut id, &f.value, Ghost(fs), Ghost(i as int))?;
            }
            i = i + 1;
        }
        proof {
            assert(fs.take(i as int) =~= fs);
        }
        Ok(Era { id })
    }

    /// Reads the message from its protobuf encoding.
    pub fn decode(bytes: &[u8]) -> (res: Result<Era, WireError>)
        ensures
            match EraV::decode(bytes@) {
                Some(m) => res matches Ok(x) && x@ == m,
                None => res is Err,
            },
    {
        let fields = parse_fields_exec(bytes)?;
        Era::from_fields(&fields)
    }

    /// The values of a sequence of messages.
    pub open spec fn views(v: Seq<Era>) -> Seq<EraV> {
        Seq::new(v.len(), |i: int| v[i]@)
    }

    /// Appends a repeated field of these messages.
    pub fn put_repeated(buf: &mut Vec<u8>, t: u32, v: &Vec<Era>)
        requires
            1 <= t <= MAX_TAG,
        ensures
            final(buf)@ == old(buf)@ + encode_fields(piece(t, vals_rep_msg(Era::views(v@), EraV::encode_fn()))),
    {
        let mut i: usize = 0;
        proof {
            assert(vals_rep_msg(Era::views(v@.take(0)), EraV::encode_fn()) =~= Seq::<RawV>::empty());
            lemma_encode_empty_piece(t);
            assert(buf@ =~= old(buf)@ + Seq::<u8>::empty());
        }
        while i < v.len()
            invariant
                1 <= t <= MAX_TAG,
                i <= v@.len(),
                buf@ == old(buf)@ + encode_fields(piece(t, vals_rep_msg(Era::views(v@.take(i as int)), EraV::encode_fn()))),
            decreases v@.len() - i,
        {
            let b = v[i].encode_to_vec();
            put_delimited(buf, t, b.as_slice());
            proof {
                let p0 = piece(t, vals_rep_msg(Era::views(v@.take(i as int)), EraV::encode_fn()));
                let q = piece(t, seq![RawV::Bytes(b@)]);
                assert(piece(t, vals_rep_msg(Era::views(v@.take(i + 1)), EraV::encode_fn())) =~= p0 + q);
                lemma_encode_fields_concat(p0, q);
            }
            i = i + 1;
        }
        proof {
            assert(v@.take(i as int) =~= v@);
        }
    }

    /// One more occurrence of a repeated field of these messages.
    pub fn step_repeated(cur: &mut Vec<Era>, r: &RawValue, Ghost(fs): Ghost<Seq<(u32, RawV)>>, Ghost(i): Ghost<int>) -> (res: Result<(), WireError>)
        requires
            0 <= i < fs.len(),
            fs[i].1 == r@,
            concat_of(sel(fs.take(i), fs[i].0), conv_msgs(EraV::from_raw_fn())) == Some(Era::views(old(cur)@)),
        ensures
            res is Ok ==> concat_of(sel(fs.take(i + 1), fs[i].0), conv_msgs(EraV::from_raw_fn())) == Some(Era::views(final(cur)@)),
            res is Err ==> concat_of(sel(fs, fs[i].0), conv_msgs(EraV::from_raw_fn())) is None,
    {
        proof {
            lemma_concat_of_at(fs, i, conv_msgs(EraV::from_raw_fn()));
        }
        let ef = raw_fields(r)?;
        let m = Era::from_fields(&ef)?;
        let ghost mv = m@;
        cur.push(m);
        proof {
            assert(Era::views(final(cur)@) =~= Era::views(old(cur)@) + seq![mv]);
        }
        Ok(())
    }

}

impl Default for Era {
    fn default() -> (r: Era)
        ensures
            r@ == EraV::default_value(),
    {
        let r = Era {
            id: 0,
        };
        proof {
            assert(r@ =~= EraV::default_value());
        }
        r
    }
}

impl ProtoMessage for Era {
    open spec fn encoded(m: EraV) -> Seq<u8> {
        m.encode()
    }

    open spec fn decoded(bytes: Seq<u8>) -> Option<EraV> {
        EraV::decode(bytes)
    }

    fn encode_bytes(&self) -> (r: Vec<u8>) {
        self.encode_to_vec()
    }

    fn decode_bytes(bytes: &[u8]) -> (r: Result<Era, WireError>) {
        Era::decode(bytes)
    }
}

/// A time capsule era as the activity service lists it, by its id; the fields this library does not read are skipped.
#[derive(Debug, Clone, Copy, PartialEq, Eq, Structural)]
pub struct Tca {
    pub id: u32,
}

/// The value of a [`Tca`].
pub struct TcaV {
    pub id: u32,
}

impl View for Tca {
    type V = TcaV;

    open spec fn view(&self) -> TcaV {
        TcaV {
            id: self.id,
        }
    }
}

impl TcaV {
    /// The message with every field at its default.
    pub open spec fn default_value() -> TcaV {
        TcaV {
            id: 0,
        }
    }

    /// Map fields hold their keys in order, each once, here and in nested messages.
    pub open spec fn wf(self) -> bool {
        true
    }

    pub open spec fn piece_id(self) -> Seq<(u32, RawV)> {
        piece(1, vals_u32(self.id))
    }

    /// The raw fields the message is written as, in field order.
    pub open spec fn to_raw(self) -> Seq<(u32, RawV)> {
        self.piece_id()
    }

    /// The message read from raw fields, as prost reads it.
    pub open spec fn from_raw(fs: Seq<(u32, RawV)>) -> Option<TcaV> {
        let id = last_of(sel(fs, 1), conv_u32(), 0);
        if id is Some {
            Some(TcaV {
                id: id.unwrap(),
            })
        } else {
            None
        }
    }

    pub open spec fn from_raw_fn() -> spec_fn(Seq<(u32, RawV)>) -> Option<TcaV> {
        |fs: Seq<(u32, RawV)>| TcaV::from_raw(fs)
    }

    /// The protobuf encoding of the message.
    pub open spec fn encode(self) -> Seq<u8> {
        encode_fields(self.to_raw())
    }

    pub open spec fn encode_fn() -> spec_fn(TcaV) -> Seq<u8> {
        |m: TcaV| m.encode()
    }

    /// The message read from bytes, if they hold one.
    pub open spec fn decode(s: Seq<u8>) -> Option<TcaV> {
        decode_with(s, TcaV::from_raw_fn())
    }

    /// The encoding is the encodings of the fields one after the other.
    pub proof fn lemma_encode_split(self)
        ensures
            self.encode() == encode_fields(self.piece_id()),
    {
    }

    /// Reading the raw fields of a message gives the message back.
    pub proof fn lemma_from_to_raw(self)
        requires
            self.wf(),
            self.encode().len() <= u64::MAX,
        ensures
            TcaV::from_raw(self.to_raw()) == Some(self),
            fields_ok(self.to_raw()),
        decreases self.encode().len(),
    {
        let fs = self.to_raw();
        self.lemma_encode_split();
        assert(sel(fs, 1) =~= vals_u32(self.id));
        lemma_u32_round_trip(self.id);
        lemma_piece_ok(1, vals_u32(self.id));
    }

    pub open spec fn to_raw_fn() -> spec_fn(TcaV) -> Seq<(u32, RawV)> {
        |m: TcaV| m.to_raw()
    }
}

/// Decoding the encoding of a tca gives it back.
pub proof fn lemma_tca_round_trip(m: TcaV)
    requires
        m.wf(),
        m.encode().len() <= u64::MAX,
    ensures
        TcaV::decode(m.encode()) == Some(m),
{
    m.lemma_from_to_raw();
    lemma_parse_encode_fields(m.to_raw());
}

/// Empty bytes decode to the default tca.
pub proof fn lemma_tca_decode_empty()
    ensures
        TcaV::decode(Seq::empty()) == Some(TcaV::default_value()),
{
    let e = Seq::<(u32, RawV)>::empty();
    assert(sel(e, 1) == Seq::<RawV>::empty());
}

impl Tca {
    /// Appends the protobuf encoding of the message.
    pub fn encode_raw(&self, buf: &mut Vec<u8>)
        ensures
            final(buf)@ == old(buf)@ + self@.encode(),
    {
        let ghost m = self@;
        put_u32_field(buf, 1, self.id);
        proof {
            m.lemma_encode_split();
        }
    }

    /// The protobuf encoding of the message.
    pub fn encode_to_vec(&self) -> (r: Vec<u8>)
        ensures
            r@ == self@.encode(),
    {
        let mut buf = Vec::new();
        self.encode_raw(&mut buf);
        proof {
            assert(buf@ =~= self@.encode());
        }
        buf
    }

    /// Reads the message from its raw fields.
    pub fn from_fields(fields: &Vec<RawField>) -> (res: Result<Tca, WireError>)
        ensures
            match TcaV::from_raw(fields_view(fields@)) {
                Some(m) => res matches Ok(x) && x@ == m,
                None => res is Err,
            },
    {
        let ghost fs = fields_view(fields@);
        let mut id: u32 = 0;
        let mut i: usize = 0;
        proof {
            assert(fs.take(0) =~= Seq::<(u32, RawV)>::empty());
            assert(fields_view(Seq::<RawField>::empty()) =~= Seq::<(u32, RawV)>::empty());
        }
        while i < fields.len()
            invariant
                fs == fields_view(fields@),
                i <= fields@.len(),
                last_of(sel(fs.take(i as int), 1), conv_u32(), 0) == Some(id),
            decreases fields@.len() - i,
        {
            let f = &fields[i];
            proof {
                lemma_sel_take_step(fs, i as int);
            }
            if f.tag == 1 {
                step_u32(&mut id, &f.value, Ghost(fs), Ghost(i as int))?;
            }
            i = i + 1;
        }
        proof {
            assert(fs.take(i as int) =~= fs);
        }
        Ok(Tca { id })
    }

    /// Reads the message from its protobuf encoding.
    pub fn decode(bytes: &[u8]) -> (res: Result<Tca, WireError>)
        ensures
            match TcaV::decode(bytes@) {
                Some(m) => res matches Ok(x) && x@ == m,
                None => res is Err,
            },
    {
        let fields = parse_fields_exec(bytes)?;
        Tca::from_fields(&fields)
    }

    /// The values of a sequence of messages.
    pub open spec fn views(v: Seq<Tca>) -> Seq<TcaV> {
        Seq::new(v.len(), |i: int| v[i]@)
    }

    /// Appends a repeated field of these messages.
    pub fn put_repeated(buf: &mut Vec<u8>, t: u32, v: &Vec<Tca>)
        requires
            1 <= t <= MAX_TAG,
        ensures
            final(buf)@ == old(buf)@ + encode_fields(piece(t, vals_rep_msg(Tca::views(v@), TcaV::encode_fn()))),
    {
        let mut i: usize = 0;
        proof {
            assert(vals_rep_msg(Tca::views(v@.take(0)), TcaV::encode_fn()) =~= Seq::<RawV>::empty());
            lemma_encode_empty_piece(t);
            assert(buf@ =~= old(buf)@ + Seq::<u8>::empty());
        }
        while i < v.len()
            invariant
                1 <= t <= MAX_TAG,
                i <= v@.len(),
                buf@ == old(buf)@ + encode_fields(piece(t, vals_rep_msg(Tca::views(v@.take(i as int)), TcaV::encode_fn()))),
            decreases v@.len() - i,
        {
            let b = v[i].encode_to_vec();
            put_delimited(buf, t, b.as_slice());
            proof {
                let p0 = piece(t, vals_rep_msg(Tca::views(v@.take(i as int)), TcaV::encode_fn()));
                let q = piece(t, seq![RawV::Bytes(b@)]);
                assert(piece(t, vals_rep_msg(Tca::views(v@.take(i + 1)), TcaV::encode_fn())) =~= p0 + q);
                lemma_encode_fields_concat(p0, q);
            }
            i = i + 1;
        }
        proof {
            assert(v@.take(i as int) =~= v@);
        }
    }

    /// One more occurrence of a repeated field of these messages.
    pub fn step_repeated(cur: &mut Vec<Tca>, r: &RawValue, Ghost(fs): Ghost<Seq<(u32, RawV)>>, Ghost(i): Ghost<int>) -> (res: Result<(), WireError>)
        requires
            0 <= i < fs.len(),
            fs[i].1 == r@,
            concat_of(sel(fs.take(i), fs[i].0), conv_msgs(TcaV::from_raw_fn())) == Some(Tca::views(old(cur)@)),
        ensures
            res is Ok ==> concat_of(sel(fs.take(i + 1), fs[i].0), conv_msgs(TcaV::from_raw_fn())) == Some(Tca::views(final(cur)@)),
            res is Err ==> concat_of(sel(fs, fs[i].0), conv_msgs(TcaV::from_raw_fn())) is None,
    {
        proof {
            lemma_concat_of_at(fs, i, conv_msgs(TcaV::from_raw_fn()));
        }
        let ef = raw_fields(r)?;
        let m = Tca::from_fields(&ef)?;
        let ghost mv = m@;
        cur.push(m);
        proof {
            assert(Tca::views(final(cur)@) =~= Tca::views(old(cur)@) + seq![mv]);
        }
        Ok(())
    }

}

impl Default for Tca {
    fn default() -> (r: Tca)
        ensures
            r@ == TcaV::default_value(),
    {
        let r = Tca {
            id: 0,
        };
        proof {
            assert(r@ =~= TcaV::default_value());
        }
        r
    }
}

impl ProtoMessage for Tca {
    open spec fn encoded(m: TcaV) -> Seq<u8> {
        m.encode()
    }

    open spec fn decoded(bytes: Seq<u8>) -> Option<TcaV> {
        TcaV::decode(bytes)
    }

    fn encode_bytes(&self) -> (r: Vec<u8>) {
        self.encode_to_vec()
    }

    fn decode_bytes(bytes: &[u8]) -> (r: Result<Tca, WireError>) {
        Tca::decode(bytes)
    }
}

} // verus!
