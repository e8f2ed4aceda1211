//! Messages of the activity service: era listings, records and traversals.
use vstd::prelude::*;
use crate::codec::{
    concat_of, conv_bool, conv_bytes, conv_fields, conv_i32, conv_msgs, conv_opt_bytes,
    conv_packed_u64, conv_rep_string, conv_string, conv_u32, conv_u64, conv_entry, decode_with,
    entry_raw, last_of, lemma_bool_round_trip, lemma_bytes_round_trip, lemma_concat_of_at,
    lemma_encode_empty_piece, lemma_entry_payload_bound, lemma_i32_round_trip,
    lemma_map_round_trip, lemma_opt_bytes_round_trip, lemma_opt_msg_round_trip,
    lemma_packed_round_trip, lemma_piece_ok, lemma_piece_payload_bound,
    lemma_rep_msg_round_trip, lemma_rep_string_round_trip, lemma_sel_concat, lemma_sel_piece,
    lemma_sel_take_step, lemma_string_round_trip, lemma_u32_round_trip, lemma_u64_round_trip,
    lemma_val_msg_round_trip, map_of, opt_bytes_view, opt_msg, piece, put_bool_field,
    put_bytes_field, put_delimited, put_i32_field, put_map_u32, put_opt_bytes_field,
    put_opt_msg_field, put_packed_u64_field, put_rep_string_field, put_string_field,
    put_u32_field, put_u64_field, raw_fields, sel, step_bool, step_bytes, step_i32,
    step_map_u32, step_msg_fields, step_opt_bytes, step_packed_u64, step_rep_string,
    step_string, step_u32, step_u64, strings_view, val_msg, val_u32, vals_bool, vals_bytes,
    vals_i32, vals_map, vals_ok, vals_opt_bytes, vals_opt_msg, vals_packed_u64,
    vals_rep_msg, vals_rep_string, vals_string, vals_u32, vals_u64, venc_msg, venc_u32,
};
use crate::message::ProtoMessage;
use crate::string_map::{keys_sorted, view_entries, StringMap};
use crate::varint::MAX_TAG;
use crate::wire::{
    encode_fields, fields_ok, fields_view, lemma_encode_fields_concat, lemma_fields_ok_concat,
    lemma_parse_encode_fields, parse_fields_exec, RawField, RawV, RawValue, WireError,
};
use crate::proto::era::{Era, EraV, Tca, TcaV};
use crate::proto::activity_tree::{ActivityTreeTraversedNode, ActivityTreeTraversedNodeV};

verus! {

broadcast use {lemma_sel_concat, lemma_sel_piece};


/// A page of eras and the cursor of the next page.
#[derive(Debug)]
pub struct GetErasResponse {
    pub records: Vec<Era>,
    pub next_cursor: Option<Vec<u8>>,
}

/// The value of a [`GetErasResponse`].
pub struct GetErasResponseV {
    pub records: Seq<EraV>,
    pub next_cursor: Option<Seq<u8>>,
}

impl View for GetErasResponse {
    type V = GetErasResponseV;

    open spec fn view(&self) -> GetErasResponseV {
        GetErasResponseV {
            records: Era::views(self.records@),
            next_cursor: opt_bytes_view(&self.next_cursor),
        }
    }
}

impl GetErasResponseV {
    /// The message with every field at its default.
    pub open spec fn default_value() -> GetErasResponseV {
        GetErasResponseV {
            records: Seq::<EraV>::empty(),
            next_cursor: None,
        }
    }

    /// Map fields hold their keys in order, each once, here and in nested messages.
    pub open spec fn wf(self) -> bool {
        &&& (forall|i: int| 0 <= i < self.records.len() ==> (#[trigger] self.records[i]).wf())
    }

    pub open spec fn piece_records(self) -> Seq<(u32, RawV)> {
        piece(1, vals_rep_msg(self.records, EraV::encode_fn()))
    }

    pub open spec fn piece_next_cursor(self) -> Seq<(u32, RawV)> {
        piece(2, vals_opt_bytes(self.next_cursor))
    }

    /// The raw fields the message is written as, in field order.
    pub open spec fn to_raw(self) -> Seq<(u32, RawV)> {
        self.piece_records() + self.piece_next_cursor()
    }

    /// The message read from raw fields, as prost reads it.
    pub open spec fn from_raw(fs: Seq<(u32, RawV)>) -> Option<GetErasResponseV> {
        let records = concat_of(sel(fs, 1), conv_msgs(EraV::from_raw_fn()));
        let next_cursor = last_of(sel(fs, 2), conv_opt_bytes(), None);
        if records is Some && next_cursor is Some {
            Some(GetErasResponseV {
                records: records.unwrap(),
                next_cursor: next_cursor.unwrap(),
            })
        } else {
            None
        }
    }

    pub open spec fn from_raw_fn() -> spec_fn(Seq<(u32, RawV)>) -> Option<GetErasResponseV> {
        |fs: Seq<(u32, RawV)>| GetErasResponseV::from_raw(fs)
    }

    /// The protobuf encoding of the message.
    pub open spec fn encode(self) -> Seq<u8> {
        encode_fields(self.to_raw())
    }

    pub open spec fn encode_fn() -> spec_fn(GetErasResponseV) -> Seq<u8> {
        |m: GetErasResponseV| m.encode()
    }

    /// The message read from bytes, if they hold one.
    pub open spec fn decode(s: Seq<u8>) -> Option<GetErasResponseV> {
        decode_with(s, GetErasResponseV::from_raw_fn())
    }

    /// The encoding is the encodings of the fields one after the other.
    pub proof fn lemma_encode_split(self)
        ensures
            self.encode() == encode_fields(self.piece_records()) + encode_fields(self.piece_next_cursor()),
    {
        lemma_encode_fields_concat(self.piece_records(), self.piece_next_cursor());
    }

    /// Reading the raw fields of a message gives the message back.
    pub proof fn lemma_from_to_raw(self)
        requires
            self.wf(),
            self.encode().len() <= u64::MAX,
        ensures
            GetErasResponseV::from_raw(self.to_raw()) == Some(self),
            fields_ok(self.to_raw()),
        decreases self.encode().len(),
    {
        let fs = self.to_raw();
        self.lemma_encode_split();
        assert(sel(fs, 1) =~= vals_rep_msg(self.records, EraV::encode_fn()));
        assert forall|i: int| 0 <= i < self.records.len() implies {
            &&& (EraV::encode_fn())(#[trigger] self.records[i]) == encode_fields((EraV::to_raw_fn())(self.records[i]))
            &&& fields_ok((EraV::to_raw_fn())(self.records[i]))
            &&& (EraV::encode_fn())(self.records[i]).len() <= u64::MAX
            &&& (EraV::from_raw_fn())((EraV::to_raw_fn())(self.records[i])) == Some(self.records[i])
        } by {
            lemma_piece_payload_bound(1, vals_rep_msg(self.records, EraV::encode_fn()), i);
            self.records[i].lemma_from_to_raw();
        }
        lemma_rep_msg_round_trip(self.records, EraV::encode_fn(), EraV::to_raw_fn(), EraV::from_raw_fn());
        lemma_piece_ok(1, vals_rep_msg(self.records, EraV::encode_fn()));
        assert(sel(fs, 2) =~= vals_opt_bytes(self.next_cursor));
        lemma_opt_bytes_round_trip(self.next_cursor);
        lemma_piece_ok(2, vals_opt_bytes(self.next_cursor));
        lemma_fields_ok_concat(self.piece_records(), self.piece_next_cursor());
    }

    pub open spec fn to_raw_fn() -> spec_fn(GetErasResponseV) -> Seq<(u32, RawV)> {
        |m: GetErasResponseV| m.to_raw()
    }
}

/// Decoding the encoding of a get eras response gives it back.
pub proof fn lemma_get_eras_response_round_trip(m: GetErasResponseV)
    requires
        m.wf(),
        m.encode().len() <= u64::MAX,
    ensures
        GetErasResponseV::decode(m.encode()) == Some(m),
{
    m.lemma_from_to_raw();
    lemma_parse_encode_fields(m.to_raw());
}

/// Empty bytes decode to the default get eras response.
pub proof fn lemma_get_eras_response_decode_empty()
    ensures
        GetErasResponseV::decode(Seq::empty()) == Some(GetErasResponseV::default_value()),
{
    let e = Seq::<(u32, RawV)>::empty();
    assert(sel(e, 1) == Seq::<RawV>::empty());
    assert(sel(e, 2) == Seq::<RawV>::empty());
}

impl GetErasResponse {
    /// Appends the protobuf encoding of the message.
    pub fn encode_raw(&self, buf: &mut Vec<u8>)
        ensures
            final(buf)@ == old(buf)@ + self@.encode(),
    {
        let ghost m = self@;
        Era::put_repeated(buf, 1, &self.records);
        put_opt_bytes_field(buf, 2, &self.next_cursor);
        proof {
            assert(buf@ =~= old(buf)@ + (encode_fields(m.piece_records()) + encode_fields(m.piece_next_cursor())));
        }
        proof {
            m.lemma_encode_split();
        }
    }

    /// The protobuf encoding of the message.
    pub fn encode_to_vec(&self) -> (r: Vec<u8>)
        ensures
            r@ == self@.encode(),
    {
        let mut buf = Vec::new();
        self.encode_raw(&mut buf);
        proof {
            assert(buf@ =~= self@.encode());
        }
        buf
    }

    /// Reads the message from its raw fields.
    pub fn from_fields(fields: &Vec<RawField>) -> (res: Result<GetErasResponse, WireError>)
        ensures
            match GetErasResponseV::from_raw(fields_view(fields@)) {
                Some(m) => res matches Ok(x) && x@ == m,
                None => res is Err,
            },
    {
        let ghost fs = fields_view(fields@);
        let mut records: Vec<Era> = Vec::new();
        let mut next_cursor: Option<Vec<u8>> = None;
        let mut i: usize = 0;
        proof {
            assert(fs.take(0) =~= Seq::<(u32, RawV)>::empty());
            assert(fields_view(Seq::<RawField>::empty()) =~= Seq::<(u32, RawV)>::empty());
        }
        while i < fields.len()
            invariant
                fs == fields_view(fields@),
                i <= fields@.len(),
                concat_of(sel(fs.take(i as int), 1), conv_msgs(EraV::from_raw_fn())) == Some(Era::views(records@)),
                last_of(sel(fs.take(i as int), 2), conv_opt_bytes(), None) == Some(opt_bytes_view(&next_cursor)),
            decreases fields@.len() - i,
        {
            let f = &fields[i];
            proof {
                lemma_sel_take_step(fs, i as int);
            }
            if f.tag == 1 {
                Era::step_repeated(&mut records, &f.value, Ghost(fs), Ghost(i as int))?;
            } else if f.tag == 2 {
                step_opt_bytes(&mut next_cursor, &f.value, Ghost(fs), Ghost(i as int))?;
            }
            i = i + 1;
        }
        proof {
            assert(fs.take(i as int) =~= fs);
        }
        Ok(GetErasResponse { records, next_cursor })
    }

    /// Reads the message from its protobuf encoding.
    pub fn decode(bytes: &[u8]) -> (res: Result<GetErasResponse, WireError>)
        ensures
            match GetErasResponseV::decode(bytes@) {
                Some(m) => res matches Ok(x) && x@ == m,
                None => res is Err,
            },
    {
        let fields = parse_fields_exec(bytes)?;
        GetErasResponse::from_fields(&fields)
    }

}

impl Default for GetErasResponse {
    fn default() -> (r: GetErasResponse)
        ensures
            r@ == GetErasResponseV::default_value(),
    {
        let r = GetErasResponse {
            records: Vec::new(),
            next_cursor: None,
        };
        proof {
            assert(r@.records =~= GetErasResponseV::default_value().records);
            assert(r@ =~= GetErasResponseV::default_value());
        }
        r
    }
}

impl ProtoMessage for GetErasResponse {
    open spec fn encoded(m: GetErasResponseV) -> Seq<u8> {
        m.encode()
    }

    open spec fn decoded(bytes: Seq<u8>) -> Option<GetErasResponseV> {
        GetErasResponseV::decode(bytes)
    }

    fn encode_bytes(&self) -> (r: Vec<u8>) {
        self.encode_to_vec()
    }

    fn decode_bytes(bytes: &[u8]) -> (r: Result<GetErasResponse, WireError>) {
        GetErasResponse::decode(bytes)
    }
}

/// A page of time capsule eras and the cursor of the next page.
#[derive(Debug)]
pub struct GetTcasResponse {
    pub records: Vec<Tca>,
    pub next_cursor: Option<Vec<u8>>,
}

/// The value of a [`GetTcasResponse`].
pub struct GetTcasResponseV {
    pub records: Seq<TcaV>,
    pub next_cursor: Option<Seq<u8>>,
}

impl View for GetTcasResponse {
    type V = GetTcasResponseV;

    open spec fn view(&self) -> GetTcasResponseV {
        GetTcasResponseV {
            records: Tca::views(self.records@),
            next_cursor: opt_bytes_view(&self.next_cursor),
        }
    }
}

impl GetTcasResponseV {
    /// The message with every field at its default.
    pub open spec fn default_value() -> GetTcasResponseV {
        GetTcasResponseV {
            records: Seq::<TcaV>::empty(),
            next_cursor: None,
        }
    }

    /// Map fields hold their keys in order, each once, here and in nested messages.
    pub open spec fn wf(self) -> bool {
        &&& (forall|i: int| 0 <= i < self.records.len() ==> (#[trigger] self.records[i]).wf())
    }

    pub open spec fn piece_records(self) -> Seq<(u32, RawV)> {
        piece(1, vals_rep_msg(self.records, TcaV::encode_fn()))
    }

    pub open spec fn piece_next_cursor(self) -> Seq<(u32, RawV)> {
        piece(2, vals_opt_bytes(self.next_cursor))
    }

    /// The raw fields the message is written as, in field order.
    pub open spec fn to_raw(self) -> Seq<(u32, RawV)> {
        self.piece_records() + self.piece_next_cursor()
    }

    /// The message read from raw fields, as prost reads it.
    pub open spec fn from_raw(fs: Seq<(u32, RawV)>) -> Option<GetTcasResponseV> {
        let records = concat_of(sel(fs, 1), conv_msgs(TcaV::from_raw_fn()));
        let next_cursor = last_of(sel(fs, 2), conv_opt_bytes(), None);
        if records is Some && next_cursor is Some {
            Some(GetTcasResponseV {
                records: records.unwrap(),
                next_cursor: next_cursor.unwrap(),
            })
        } else {
            None
        }
    }

    pub open spec fn from_raw_fn() -> spec_fn(Seq<(u32, RawV)>) -> Option<GetTcasResponseV> {
        |fs: Seq<(u32, RawV)>| GetTcasResponseV::from_raw(fs)
    }

    /// The protobuf encoding of the message.
    pub open spec fn encode(self) -> Seq<u8> {
        encode_fields(self.to_raw())
    }

    pub open spec fn encode_fn() -> spec_fn(GetTcasResponseV) -> Seq<u8> {
        |m: GetTcasResponseV| m.encode()
    }

    /// The message read from bytes, if they hold one.
    pub open spec fn decode(s: Seq<u8>) -> Option<GetTcasResponseV> {
        decode_with(s, GetTcasResponseV::from_raw_fn())
    }

    /// The encoding is the encodings of the fields one after the other.
    pub proof fn lemma_encode_split(self)
        ensures
            self.encode() == encode_fields(self.piece_records()) + encode_fields(self.piece_next_cursor()),
    {
        lemma_encode_fields_concat(self.piece_records(), self.piece_next_cursor());
    }

    /// Reading the raw fields of a message gives the message back.
    pub proof fn lemma_from_to_raw(self)
        requires
            self.wf(),
            self.encode().len() <= u64::MAX,
        ensures
            GetTcasResponseV::from_raw(self.to_raw()) == Some(self),
            fields_ok(self.to_raw()),
        decreases self.encode().len(),
    {
        let fs = self.to_raw();
        self.lemma_encode_split();
        assert(sel(fs, 1) =~= vals_rep_msg(self.records, TcaV::encode_fn()));
        assert forall|i: int| 0 <= i < self.records.len() implies {
            &&& (TcaV::encode_fn())(#[trigger] self.records[i]) == encode_fields((TcaV::to_raw_fn())(self.records[i]))
            &&& fields_ok((TcaV::to_raw_fn())(self.records[i]))
            &&& (TcaV::encode_fn())(self.records[i]).len() <= u64::MAX
            &&& (TcaV::from_raw_fn())((TcaV::to_raw_fn())(self.records[i])) == Some(self.records[i])
        } by {
            lemma_piece_payload_bound(1, vals_rep_msg(self.records, TcaV::encode_fn()), i);
            self.records[i].lemma_from_to_raw();
        }
        lemma_rep_msg_round_trip(self.records, TcaV::encode_fn(), TcaV::to_raw_fn(), TcaV::from_raw_fn());
        lemma_piece_ok(1, vals_rep_msg(self.records, TcaV::encode_fn()));
        assert(sel(fs, 2) =~= vals_opt_bytes(self.next_cursor));
        lemma_opt_bytes_round_trip(self.next_cursor);
        lemma_piece_ok(2, vals_opt_bytes(self.next_cursor));
        lemma_fields_ok_concat(self.piece_records(), self.piece_next_cursor());
    }

    pub open spec fn to_raw_fn() -> spec_fn(GetTcasResponseV) -> Seq<(u32, RawV)> {
        |m: GetTcasResponseV| m.to_raw()
    }
}

/// Decoding the encoding of a get tcas response gives it back.
pub proof fn lemma_get_tcas_response_round_trip(m: GetTcasResponseV)
    requires
        m.wf(),
        m.encode().len() <= u64::MAX,
    ensures
        GetTcasResponseV::decode(m.encode()) == Some(m),
{
    m.lemma_from_to_raw();
    lemma_parse_encode_fields(m.to_raw());
}

/// Empty bytes decode to the default get tcas response.
pub proof fn lemma_get_tcas_response_decode_empty()
    ensures
        GetTcasResponseV::decode(Seq::empty()) == Some(GetTcasResponseV::default_value()),
{
    let e = Seq::<(u32, RawV)>::empty();
    assert(sel(e, 1) == Seq::<RawV>::empty());
    assert(sel(e, 2) == Seq::<RawV>::empty());
}

impl GetTcasResponse {
    /// Appends the protobuf encoding of the message.
    pub fn encode_raw(&self, buf: &mut Vec<u8>)
        ensures
            final(buf)@ == old(buf)@ + self@.encode(),
    {
        let ghost m = self@;
        Tca::put_repeated(buf, 1, &self.records);
        put_opt_bytes_field(buf, 2, &self.next_cursor);
        proof {
            assert(buf@ =~= old(buf)@ + (encode_fields(m.piece_records()) + encode_fields(m.piece_next_cursor())));
        }
        proof {
            m.lemma_encode_split();
        }
    }

    /// The protobuf encoding of the message.
    pub fn encode_to_vec(&self) -> (r: Vec<u8>)
        ensures
            r@ == self@.encode(),
    {
        let mut buf = Vec::new();
        self.encode_raw(&mut buf);
        proof {
            assert(buf@ =~= self@.encode());
        }
        buf
    }

    /// Reads the message from its raw fields.
    pub fn from_fields(fields: &Vec<RawField>) -> (res: Result<GetTcasResponse, WireError>)
        ensures
            match GetTcasResponseV::from_raw(fields_view(fields@)) {
                Some(m) => res matches Ok(x) && x@ == m,
                None => res is Err,
            },
    {
        let ghost fs = fields_view(fields@);
        let mut records: Vec<Tca> = Vec::new();
        let mut next_cursor: Option<Vec<u8>> = None;
        let mut i: usize = 0;
        proof {
            assert(fs.take(0) =~= Seq::<(u32, RawV)>::empty());
            assert(fields_view(Seq::<RawField>::empty()) =~= Seq::<(u32, RawV)>::empty());
        }
        while i < fields.len()
            invariant
                fs == fields_view(fields@),
                i <= fields@.len(),
                concat_of(sel(fs.take(i as int), 1), conv_msgs(TcaV::from_raw_fn())) == Some(Tca::views(records@)),
                last_of(sel(fs.take(i as int), 2), conv_opt_bytes(), None) == Some(opt_bytes_view(&next_cursor)),
            decreases fields@.len() - i,
        {
            let f = &fields[i];
            proof {
                lemma_sel_take_step(fs, i as int);
            }
            if f.tag == 1 {
                Tca::step_repeated(&mut records, &f.value, Ghost(fs), Ghost(i as int))?;
            } else if f.tag == 2 {
                step_opt_bytes(&mut next_cursor, &f.value, Ghost(fs), Ghost(i as int))?;
            }
            i = i + 1;
        }
        proof {
            assert(fs.take(i as int) =~= fs);
        }
        Ok(GetTcasResponse { records, next_cursor })
    }

    /// Reads the message from its protobuf encoding.
    pub fn decode(bytes: &[u8]) -> (res: Result<GetTcasResponse, WireError>)
        ensures
            match GetTcasResponseV::decode(bytes@) {
                Some(m) => res matches Ok(x) && x@ == m,
                None => res is Err,
            },
    {
        let fields = parse_fields_exec(bytes)?;
        GetTcasResponse::from_fields(&fields)
    }

}

impl Default for GetTcasResponse {
    fn default() -> (r: GetTcasResponse)
        ensures
            r@ == GetTcasResponseV::default_value(),
    {
        let r = GetTcasResponse {
            records: Vec::new(),
            next_cursor: None,
        };
        proof {
            assert(r@.records =~= GetTcasResponseV::default_value().records);
            assert(r@ =~= GetTcasResponseV::default_value());
        }
        r
    }
}

impl ProtoMessage for GetTcasResponse {
    open spec fn encoded(m: GetTcasResponseV) -> Seq<u8> {
        m.encode()
    }

    open spec fn decoded(bytes: Seq<u8>) -> Option<GetTcasResponseV> {
        GetTcasResponseV::decode(bytes)
    }

    fn encode_bytes(&self) -> (r: Vec<u8>) {
        self.encode_to_vec()
    }

    fn decode_bytes(bytes: &[u8]) -> (r: Result<GetTcasResponse, WireError>) {
        GetTcasResponse::decode(bytes)
    }
}

/// A page of activity records and the cursor of the next page.
#[derive(Debug)]
pub struct GetRecordsResponse {
    pub next_cursor: Option<Vec<u8>>,
}

/// The value of a [`GetRecordsResponse`].
pub struct GetRecordsResponseV {
    pub next_cursor: Option<Seq<u8>>,
}

impl View for GetRecordsResponse {
    type V = GetRecordsResponseV;

    open spec fn view(&self) -> GetRecordsResponseV {
        GetRecordsResponseV {
            next_cursor: opt_bytes_view(&self.next_cursor),
        }
    }
}

impl GetRecordsResponseV {
    /// The message with every field at its default.
    pub open spec fn default_value() -> GetRecordsResponseV {
        GetRecordsResponseV {
            next_cursor: None,
        }
    }

    /// Map fields hold their keys in order, each once, here and in nested messages.
    pub open spec fn wf(self) -> bool {
        true
    }

    pub open spec fn piece_next_cursor(self) -> Seq<(u32, RawV)> {
        piece(1, vals_opt_bytes(self.next_cursor))
    }

    /// The raw fields the message is written as, in field order.
    pub open spec fn to_raw(self) -> Seq<(u32, RawV)> {
        self.piece_next_cursor()
    }

    /// The message read from raw fields, as prost reads it.
    pub open spec fn from_raw(fs: Seq<(u32, RawV)>) -> Option<GetRecordsResponseV> {
        let next_cursor = last_of(sel(fs, 1), conv_opt_bytes(), None);
        if next_cursor is Some {
            Some(GetRecordsResponseV {
                next_cursor: next_cursor.unwrap(),
            })
        } else {
            None
        }
    }

    pub open spec fn from_raw_fn() -> spec_fn(Seq<(u32, RawV)>) -> Option<GetRecordsResponseV> {
        |fs: Seq<(u32, RawV)>| GetRecordsResponseV::from_raw(fs)
    }

    /// The protobuf encoding of the message.
    pub open spec fn encode(self) -> Seq<u8> {
        encode_fields(self.to_raw())
    }

    pub open spec fn encode_fn() -> spec_fn(GetRecordsResponseV) -> Seq<u8> {
        |m: GetRecordsResponseV| m.encode()
    }

    /// The message read from bytes, if they hold one.
    pub open spec fn decode(s: Seq<u8>) -> Option<GetRecordsResponseV> {
        decode_with(s, GetRecordsResponseV::from_raw_fn())
    }

    /// The encoding is the encodings of the fields one after the other.
    pub proof fn lemma_encode_split(self)
        ensures
            self.encode() == encode_fields(self.piece_next_cursor()),
    {
    }

    /// Reading the raw fields of a message gives the message back.
    pub proof fn lemma_from_to_raw(self)
        requires
            self.wf(),
            self.encode().len() <= u64::MAX,
        ensures
            GetRecordsResponseV::from_raw(self.to_raw()) == Some(self),
            fields_ok(self.to_raw()),
        decreases self.encode().len(),
    {
        let fs = self.to_raw();
        self.lemma_encode_split();
        assert(sel(fs, 1) =~= vals_opt_bytes(self.next_cursor));
        lemma_opt_bytes_round_trip(self.next_cursor);
        lemma_piece_ok(1, vals_opt_bytes(self.next_cursor));
    }

    pub open spec fn to_raw_fn() -> spec_fn(GetRecordsResponseV) -> Seq<(u32, RawV)> {
        |m: GetRecordsResponseV| m.to_raw()
    }
}

/// Decoding the encoding of a get records response gives it back.
pub proof fn lemma_get_records_response_round_trip(m: GetRecordsResponseV)
    requires
        m.wf(),
        m.encode().len() <= u64::MAX,
    ensures
        GetRecordsResponseV::decode(m.encode()) == Some(m),
{
    m.lemma_from_to_raw();
    lemma_parse_encode_fields(m.to_raw());
}

/// Empty bytes decode to the default get records response.
pub proof fn lemma_get_records_response_decode_empty()
    ensures
        GetRecordsResponseV::decode(Seq::empty()) == Some(GetRecordsResponseV::default_value()),
{
    let e = Seq::<(u32, RawV)>::empty();
    assert(sel(e, 1) == Seq::<RawV>::empty());
}

impl GetRecordsResponse {
    /// Appends the protobuf encoding of the message.
    pub fn encode_raw(&self, buf: &mut Vec<u8>)
        ensures
            final(buf)@ == old(buf)@ + self@.encode(),
    {
        let ghost m = self@;
        put_opt_bytes_field(buf, 1, &self.next_cursor);
        proof {
            m.lemma_encode_split();
        }
    }

    /// The protobuf encoding of the message.
    pub fn encode_to_vec(&self) -> (r: Vec<u8>)
        ensures
            r@ == self@.encode(),
    {
        let mut buf = Vec::new();
        self.encode_raw(&mut buf);
        proof {
            assert(buf@ =~= self@.encode());
        }
        buf
    }

    /// Reads the message from its raw fields.
    pub fn from_fields(fields: &Vec<RawField>) -> (res: Result<GetRecordsResponse, WireError>)
        ensures
            match GetRecordsResponseV::from_raw(fields_view(fields@)) {
                Some(m) => res matches Ok(x) && x@ == m,
                None => res is Err,
            },
    {
        let ghost fs = fields_view(fields@);
        let mut next_cursor: Option<Vec<u8>> = None;
        let mut i: usize = 0;
        proof {
            assert(fs.take(0) =~= Seq::<(u32, RawV)>::empty());
            assert(fields_view(Seq::<RawField>::empty()) =~= Seq::<(u32, RawV)>::empty());
        }
        while i < fields.len()
            invariant
                fs == fields_view(fields@),
                i <= fields@.len(),
                last_of(sel(fs.take(i as int), 1), conv_opt_bytes(), None) == Some(opt_bytes_view(&next_cursor)),
            decreases fields@.len() - i,
        {
            let f = &fields[i];
            proof {
                lemma_sel_take_step(fs, i as int);
            }
            if f.tag == 1 {
                step_opt_bytes(&mut next_cursor, &f.value, Ghost(fs), Ghost(i as int))?;
            }
            i = i + 1;
        }
        proof {
            assert(fs.take(i as int) =~= fs);
        }
        Ok(GetRecordsResponse { next_cursor })
    }

    /// Reads the message from its protobuf encoding.
    pub fn decode(bytes: &[u8]) -> (res: Result<GetRecordsResponse, WireError>)
        ensures
            match GetRecordsResponseV::decode(bytes@) {
                Some(m) => res matches Ok(x) && x@ == m,
                None => res is Err,
            },
    {
        let fields = parse_fields_exec(bytes)?;
        GetRecordsResponse::from_fields(&fields)
    }

}

impl Default for GetRecordsResponse {
    fn default() -> (r: GetRecordsResponse)
        ensures
            r@ == GetRecordsResponseV::default_value(),
    {
        let r = GetRecordsResponse {
            next_cursor: None,
        };
        proof {
            assert(r@ =~= GetRecordsResponseV::default_value());
        }
        r
    }
}

impl ProtoMessage for GetRecordsResponse {
    open spec fn encoded(m: GetRecordsResponseV) -> Seq<u8> {
        m.encode()
    }

    open spec fn decoded(bytes: Seq<u8>) -> Option<GetRecordsResponseV> {
        GetRecordsResponseV::decode(bytes)
    }

    fn encode_bytes(&self) -> (r: Vec<u8>) {
        self.encode_to_vec()
    }

    fn decode_bytes(bytes: &[u8]) -> (r: Result<GetRecordsResponse, WireError>) {
        GetRecordsResponse::decode(bytes)
    }
}

/// Nodes of an activity merkle tree.
#[derive(Debug)]
pub struct ActivityTreeTraversalResponse {
    pub nodes: Vec<ActivityTreeTraversedNode>,
}

/// The value of a [`ActivityTreeTraversalResponse`].
pub struct ActivityTreeTraversalResponseV {
    pub nodes: Seq<ActivityTreeTraversedNodeV>,
}

impl View for ActivityTreeTraversalResponse {
    type V = ActivityTreeTraversalResponseV;

    open spec fn view(&self) -> ActivityTreeTraversalResponseV {
        ActivityTreeTraversalResponseV {
            nodes: ActivityTreeTraversedNode::views(self.nodes@),
        }
    }
}

impl ActivityTreeTraversalResponseV {
    /// The message with every field at its default.
    pub open spec fn default_value() -> ActivityTreeTraversalResponseV {
        ActivityTreeTraversalResponseV {
            nodes: Seq::<ActivityTreeTraversedNodeV>::empty(),
        }
    }

    /// Map fields hold their keys in order, each once, here and in nested messages.
    pub open spec fn wf(self) -> bool {
        &&& (forall|i: int| 0 <= i < self.nodes.len() ==> (#[trigger] self.nodes[i]).wf())
    }

    pub open spec fn piece_nodes(self) -> Seq<(u32, RawV)> {
        piece(1, vals_rep_msg(self.nodes, ActivityTreeTraversedNodeV::encode_fn()))
    }

    /// The raw fields the message is written as, in field order.
    pub open spec fn to_raw(self) -> Seq<(u32, RawV)> {
        self.piece_nodes()
    }

    /// The message read from raw fields, as prost reads it.
    pub open spec fn from_raw(fs: Seq<(u32, RawV)>) -> Option<ActivityTreeTraversalResponseV> {
        let nodes = concat_of(sel(fs, 1), conv_msgs(ActivityTreeTraversedNodeV::from_raw_fn()));
        if nodes is Some {
            Some(ActivityTreeTraversalResponseV {
                nodes: nodes.unwrap(),
            })
        } else {
            None
        }
    }

    pub open spec fn from_raw_fn() -> spec_fn(Seq<(u32, RawV)>) -> Option<ActivityTreeTraversalResponseV> {
        |fs: Seq<(u32, RawV)>| ActivityTreeTraversalResponseV::from_raw(fs)
    }

    /// The protobuf encoding of the message.
    pub open spec fn encode(self) -> Seq<u8> {
        encode_fields(self.to_raw())
    }

    pub open spec fn encode_fn() -> spec_fn(ActivityTreeTraversalResponseV) -> Seq<u8> {
        |m: ActivityTreeTraversalResponseV| m.encode()
    }

    /// The message read from bytes, if they hold one.
    pub open spec fn decode(s: Seq<u8>) -> Option<ActivityTreeTraversalResponseV> {
        decode_with(s, ActivityTreeTraversalResponseV::from_raw_fn())
    }

    /// The encoding is the encodings of the fields one after the other.
    pub proof fn lemma_encode_split(self)
        ensures
            self.encode() == encode_fields(self.piece_nodes()),
    {
    }

    /// Reading the raw fields of a message gives the message back.
    pub proof fn lemma_from_to_raw(self)
        requires
            self.wf(),
            self.encode().len() <= u64::MAX,
        ensures
            ActivityTreeTraversalResponseV::from_raw(self.to_raw()) == Some(self),
            fields_ok(self.to_raw()),
        decreases self.encode().len(),
    {
        let fs = self.to_raw();
        self.lemma_encode_split();
        assert(sel(fs, 1) =~= vals_rep_msg(self.nodes, ActivityTreeTraversedNodeV::encode_fn()));
        assert forall|i: int| 0 <= i < self.nodes.len() implies {
            &&& (ActivityTreeTraversedNodeV::encode_fn())(#[trigger] self.nodes[i]) == encode_fields((ActivityTreeTraversedNodeV::to_raw_fn())(self.nodes[i]))
            &&& fields_ok((ActivityTreeTraversedNodeV::to_raw_fn())(self.nodes[i]))
            &&& (ActivityTreeTraversedNodeV::encode_fn())(self.nodes[i]).len() <= u64::MAX
            &&& (ActivityTreeTraversedNodeV::from_raw_fn())((ActivityTreeTraversedNodeV::to_raw_fn())(self.nodes[i])) == Some(self.nodes[i])
        } by {
            lemma_piece_payload_bound(1, vals_rep_msg(self.nodes, ActivityTreeTraversedNodeV::encode_fn()), i);
            self.nodes[i].lemma_from_to_raw();
        }
        lemma_rep_msg_round_trip(self.nodes, ActivityTreeTraversedNodeV::encode_fn(), ActivityTreeTraversedNodeV::to_raw_fn(), ActivityTreeTraversedNodeV::from_raw_fn());
        lemma_piece_ok(1, vals_rep_msg(self.nodes, ActivityTreeTraversedNodeV::encode_fn()));
    }

    pub open spec fn to_raw_fn() -> spec_fn(ActivityTreeTraversalResponseV) -> Seq<(u32, RawV)> {
        |m: ActivityTreeTraversalResponseV| m.to_raw()
    }
}

/// Decoding the encoding of a activity tree traversal response gives it back.
pub proof fn lemma_activity_tree_traversal_response_round_trip(m: ActivityTreeTraversalResponseV)
    requires
        m.wf(),
        m.encode().len() <= u64::MAX,
    ensures
        ActivityTreeTraversalResponseV::decode(m.encode()) == Some(m),
{
    m.lemma_from_to_raw();
    lemma_parse_encode_fields(m.to_raw());
}

/// Empty bytes decode to the default activity tree traversal response.
pub proof fn lemma_activity_tree_traversal_response_decode_empty()
    ensures
        ActivityTreeTraversalResponseV::decode(Seq::empty()) == Some(ActivityTreeTraversalResponseV::default_value()),
{
    let e = Seq::<(u32, RawV)>::empty();
    assert(sel(e, 1) == Seq::<RawV>::empty());
}

impl ActivityTreeTraversalResponse {
    /// Appends the protobuf encoding of the message.
    pub fn encode_raw(&self, buf: &mut Vec<u8>)
        ensures
            final(buf)@ == old(buf)@ + self@.encode(),
    {
        let ghost m = self@;
        ActivityTreeTraversedNode::put_repeated(buf, 1, &self.nodes);
        proof {
            m.lemma_encode_split();
        }
    }

    /// The protobuf encoding of the message.
    pub fn encode_to_vec(&self) -> (r: Vec<u8>)
        ensures
            r@ == self@.encode(),
    {
        let mut buf = Vec::new();
        self.encode_raw(&mut buf);
        proof {
            assert(buf@ =~= self@.encode());
        }
        buf
    }

    /// Reads the message from its raw fields.
    pub fn from_fields(fields: &Vec<RawField>) -> (res: Result<ActivityTreeTraversalResponse, WireError>)
        ensures
            match ActivityTreeTraversalResponseV::from_raw(fields_view(fields@)) {
                Some(m) => res matches Ok(x) && x@ == m,
                None => res is Err,
            },
    {
        let ghost fs = fields_view(fields@);
        let mut nodes: Vec<ActivityTreeTraversedNode> = Vec::new();
        let mut i: usize = 0;
        proof {
            assert(fs.take(0) =~= Seq::<(u32, RawV)>::empty());
            assert(fields_view(Seq::<RawField>::empty()) =~= Seq::<(u32, RawV)>::empty());
        }
        while i < fields.len()
            invariant
                fs == fields_view(fields@),
                i <= fields@.len(),
                concat_of(sel(fs.take(i as int), 1), conv_msgs(ActivityTreeTraversedNodeV::from_raw_fn())) == Some(ActivityTreeTraversedNode::views(nodes@)),
            decreases fields@.len() - i,
        {
            let f = &fields[i];
            proof {
                lemma_sel_take_step(fs, i as int);
            }
            if f.tag == 1 {
                ActivityTreeTraversedNode::step_repeated(&mut nodes, &f.value, Ghost(fs), Ghost(i as int))?;
            }
            i = i + 1;
        }
        proof {
            assert(fs.take(i as int) =~= fs);
        }
        Ok(ActivityTreeTraversalResponse { nodes })
    }

    /// Reads the message from its protobuf encoding.
    pub fn decode(bytes: &[u8]) -> (res: Result<ActivityTreeTraversalResponse, WireError>)
        ensures
            match ActivityTreeTraversalResponseV::decode(bytes@) {
                Some(m) => res matches Ok(x) && x@ == m,
                None => res is Err,
            },
    {
        let fields = parse_fields_exec(bytes)?;
        ActivityTreeTraversalResponse::from_fields(&fields)
    }

}

impl Default for ActivityTreeTraversalResponse {
    fn default() -> (r: ActivityTreeTraversalResponse)
        ensures
            r@ == ActivityTreeTraversalResponseV::default_value(),
    {
        let r = ActivityTreeTraversalResponse {
            nodes: Vec::new(),
        };
        proof {
            assert(r@.nodes =~= ActivityTreeTraversalResponseV::default_value().nodes);
            assert(r@ =~= ActivityTreeTraversalResponseV::default_value());
        }
        r
    }
}

impl ProtoMessage for ActivityTreeTraversalResponse {
    open spec fn encoded(m: ActivityTreeTraversalResponseV) -> Seq<u8> {
        m.encode()
    }

    open spec fn decoded(bytes: Seq<u8>) -> Option<ActivityTreeTraversalResponseV> {
        ActivityTreeTraversalResponseV::decode(bytes)
    }

    fn encode_bytes(&self) -> (r: Vec<u8>) {
        self.encode_to_vec()
    }

    fn decode_bytes(bytes: &[u8]) -> (r: Result<ActivityTreeTraversalResponse, WireError>) {
        ActivityTreeTraversalResponse::decode(bytes)
    }
}

/// The keys of the grouping collectors of a cluster.
#[derive(Debug)]
pub struct GroupingCollectorsResponse {
    pub keys: Vec<String>,
}

/// The value of a [`GroupingCollectorsResponse`].
pub struct GroupingCollectorsResponseV {
    pub keys: Seq<Seq<char>>,
}

impl View for GroupingCollectorsResponse {
    type V = GroupingCollectorsResponseV;

    open spec fn view(&self) -> GroupingCollectorsResponseV {
        GroupingCollectorsResponseV {
            keys: strings_view(self.keys@),
        }
    }
}

impl GroupingCollectorsResponseV {
    /// The message with every field at its default.
    pub open spec fn default_value() -> GroupingCollectorsResponseV {
        GroupingCollectorsResponseV {
            keys: Seq::<Seq<char>>::empty(),
        }
    }

    /// Map fields hold their keys in order, each once, here and in nested messages.
    pub open spec fn wf(self) -> bool {
        true
    }

    pub open spec fn piece_keys(self) -> Seq<(u32, RawV)> {
        piece(1, vals_rep_string(self.keys))
    }

    /// The raw fields the message is written as, in field order.
    pub open spec fn to_raw(self) -> Seq<(u32, RawV)> {
        self.piece_keys()
    }

    /// The message read from raw fields, as prost reads it.
    pub open spec fn from_raw(fs: Seq<(u32, RawV)>) -> Option<GroupingCollectorsResponseV> {
        let keys = concat_of(sel(fs, 1), conv_rep_string());
        if keys is Some {
            Some(GroupingCollectorsResponseV {
                keys: keys.unwrap(),
            })
        } else {
            None
        }
    }

    pub open spec fn from_raw_fn() -> spec_fn(Seq<(u32, RawV)>) -> Option<GroupingCollectorsResponseV> {
        |fs: Seq<(u32, RawV)>| GroupingCollectorsResponseV::from_raw(fs)
    }

    /// The protobuf encoding of the message.
    pub open spec fn encode(self) -> Seq<u8> {
        encode_fields(self.to_raw())
    }

    pub open spec fn encode_fn() -> spec_fn(GroupingCollectorsResponseV) -> Seq<u8> {
        |m: GroupingCollectorsResponseV| m.encode()
    }

    /// The message read from bytes, if they hold one.
    pub open spec fn decode(s: Seq<u8>) -> Option<GroupingCollectorsResponseV> {
        decode_with(s, GroupingCollectorsResponseV::from_raw_fn())
    }

    /// The encoding is the encodings of the fields one after the other.
    pub proof fn lemma_encode_split(self)
        ensures
            self.encode() == encode_fields(self.piece_keys()),
    {
    }

    /// Reading the raw fields of a message gives the message back.
    pub proof fn lemma_from_to_raw(self)
        requires
            self.wf(),
            self.encode().len() <= u64::MAX,
        ensures
            GroupingCollectorsResponseV::from_raw(self.to_raw()) == Some(self),
            fields_ok(self.to_raw()),
        decreases self.encode().len(),
    {
        let fs = self.to_raw();
        self.lemma_encode_split();
        assert(sel(fs, 1) =~= vals_rep_string(self.keys));
        lemma_rep_string_round_trip(self.keys);
        lemma_piece_ok(1, vals_rep_string(self.keys));
    }

    pub open spec fn to_raw_fn() -> spec_fn(GroupingCollectorsResponseV) -> Seq<(u32, RawV)> {
        |m: GroupingCollectorsResponseV| m.to_raw()
    }
}

/// Decoding the encoding of a grouping collectors response gives it back.
pub proof fn lemma_grouping_collectors_response_round_trip(m: GroupingCollectorsResponseV)
    requires
        m.wf(),
        m.encode().len() <= u64::MAX,
    ensures
        GroupingCollectorsResponseV::decode(m.encode()) == Some(m),
{
    m.lemma_from_to_raw();
    lemma_parse_encode_fields(m.to_raw());
}

/// Empty bytes decode to the default grouping collectors response.
pub proof fn lemma_grouping_collectors_response_decode_empty()
    ensures
        GroupingCollectorsResponseV::decode(Seq::empty()) == Some(GroupingCollectorsResponseV::default_value()),
{
    let e = Seq::<(u32, RawV)>::empty();
    assert(sel(e, 1) == Seq::<RawV>::empty());
}

impl GroupingCollectorsResponse {
    /// Appends the protobuf encoding of the message.
    pub fn encode_raw(&self, buf: &mut Vec<u8>)
        ensures
            final(buf)@ == old(buf)@ + self@.encode(),
    {
        let ghost m = self@;
        put_rep_string_field(buf, 1, &self.keys);
        proof {
            m.lemma_encode_split();
        }
    }

    /// The protobuf encoding of the message.
    pub fn encode_to_vec(&self) -> (r: Vec<u8>)
        ensures
            r@ == self@.encode(),
    {
        let mut buf = Vec::new();
        self.encode_raw(&mut buf);
        proof {
            assert(buf@ =~= self@.encode());
        }
        buf
    }

    /// Reads the message from its raw fields.
    pub fn from_fields(fields: &Vec<RawField>) -> (res: Result<GroupingCollectorsResponse, WireError>)
        ensures
            match GroupingCollectorsResponseV::from_raw(fields_view(fields@)) {
                Some(m) => res matches Ok(x) && x@ == m,
                None => res is Err,
            },
    {
        let ghost fs = fields_view(fields@);
        let mut keys: Vec<String> = Vec::new();
        let mut i: usize = 0;
        proof {
            assert(fs.take(0) =~= Seq::<(u32, RawV)>::empty());
            assert(fields_view(Seq::<RawField>::empty()) =~= Seq::<(u32, RawV)>::empty());
        }
        while i < fields.len()
            invariant
                fs == fields_view(fields@),
                i <= fields@.len(),
                concat_of(sel(fs.take(i as int), 1), conv_rep_string()) == Some(strings_view(keys@)),
            decreases fields@.len() - i,
        {
            let f = &fields[i];
            proof {
                lemma_sel_take_step(fs, i as int);
            }
            if f.tag == 1 {
                step_rep_string(&mut keys, &f.value, Ghost(fs), Ghost(i as int))?;
            }
            i = i + 1;
        }
        proof {
            assert(fs.take(i as int) =~= fs);
        }
        Ok(GroupingCollectorsResponse { keys })
    }

    /// Reads the message from its protobuf encoding.
    pub fn decode(bytes: &[u8]) -> (res: Result<GroupingCollectorsResponse, WireError>)
        ensures
            match GroupingCollectorsResponseV::decode(bytes@) {
                Some(m) => res matches Ok(x) && x@ == m,
                None => res is Err,
            },
    {
        let fields = parse_fields_exec(bytes)?;
        GroupingCollectorsResponse::from_fields(&fields)
    }

}

impl Default for GroupingCollectorsResponse {
    fn default() -> (r: GroupingCollectorsResponse)
        ensures
            r@ == GroupingCollectorsResponseV::default_value(),
    {
        let r = GroupingCollectorsResponse {
            keys: Vec::new(),
        };
        proof {
            assert(r@.keys =~= GroupingCollectorsResponseV::default_value().keys);
            assert(r@ =~= GroupingCollectorsResponseV::default_value());
        }
        r
    }
}

impl ProtoMessage for GroupingCollectorsResponse {
    open spec fn encoded(m: GroupingCollectorsResponseV) -> Seq<u8> {
        m.encode()
    }

    open spec fn decoded(bytes: Seq<u8>) -> Option<GroupingCollectorsResponseV> {
        GroupingCollectorsResponseV::decode(bytes)
    }

    fn encode_bytes(&self) -> (r: Vec<u8>) {
        self.encode_to_vec()
    }

    fn decode_bytes(bytes: &[u8]) -> (r: Result<GroupingCollectorsResponse, WireError>) {
        GroupingCollectorsResponse::decode(bytes)
    }
}

} // verus!
