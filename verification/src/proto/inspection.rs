//! Messages of the inspection service: leases, assignment tables, path
//! results, inspection state, receipts and the sync quorum.
use vstd::prelude::*;
use crate::codec::{
    concat_of, conv_bool, conv_bytes, conv_fields, conv_i32, conv_msgs, conv_opt_bytes,
    conv_packed_u64, conv_rep_string, conv_string, conv_u32, conv_u64, conv_entry, decode_with,
    entry_raw, last_of, lemma_bool_round_trip, lemma_bytes_round_trip, lemma_concat_of_at,
    lemma_encode_empty_piece, lemma_entry_payload_bound, lemma_i32_round_trip,
    lemma_map_round_trip, lemma_opt_bytes_round_trip, lemma_opt_msg_round_trip,
    lemma_packed_round_trip, lemma_piece_ok, lemma_piece_payload_bound,
    lemma_rep_msg_round_trip, lemma_rep_string_round_trip, lemma_sel_concat, lemma_sel_piece,
    lemma_sel_take_step, lemma_string_round_trip, lemma_u32_round_trip, lemma_u64_round_trip,
    lemma_val_msg_round_trip, map_of, opt_bytes_view, opt_msg, piece, put_bool_field,
    put_bytes_field, put_delimited, put_i32_field, put_map_u32, put_opt_bytes_field,
    put_opt_msg_field, put_packed_u64_field, put_rep_string_field, put_string_field,
    put_u32_field, put_u64_field, raw_fields, sel, step_bool, step_bytes, step_i32,
    step_map_u32, step_msg_fields, step_opt_bytes, step_packed_u64, step_rep_string,
    step_string, step_u32, step_u64, strings_view, val_msg, val_u32, vals_bool, vals_bytes,
    vals_i32, vals_map, vals_ok, vals_opt_bytes, vals_opt_msg, vals_packed_u64,
    vals_rep_msg, vals_rep_string, vals_string, vals_u32, vals_u64, venc_msg, venc_u32,
};
use crate::message::ProtoMessage;
use crate::string_map::{keys_sorted, view_entries, StringMap};
use crate::varint::MAX_TAG;
use crate::wire::{
    encode_fields, fields_ok, fields_view, lemma_encode_fields_concat, lemma_fields_ok_concat,
    lemma_parse_encode_fields, parse_fields_exec, RawField, RawV, RawValue, WireError,
};

verus! {

broadcast use {lemma_sel_concat, lemma_sel_piece};

/// Status of a lease request.
#[derive(Clone, Copy, Debug, PartialEq, Eq, Structural)]
pub enum LeaseStatus {
    Unspecified,
    Acquired,
    HeldByOther,
    Error,
}

/// Kind of an inspection path.
#[derive(Clone, Copy, Debug, PartialEq, Eq, Structural)]
pub enum InspectionPathType {
    Unspecified,
    NodeAr,
}

/// Archival state of a table, state or receipt.
#[derive(Clone, Copy, Debug, PartialEq, Eq, Structural)]
pub enum ArchivalStatus {
    Unspecified,
    Pending,
}

/// Status of an assignment table submission.
#[derive(Clone, Copy, Debug, PartialEq, Eq, Structural)]
pub enum PostAssignmentTableStatus {
    Unspecified,
    Accepted,
    Rejected,
}

/// Status of an assignment table lookup.
#[derive(Clone, Copy, Debug, PartialEq, Eq, Structural)]
pub enum GetAssignmentTableStatus {
    Unspecified,
    Found,
    NotFound,
    Building,
}

/// Status of a path results submission.
#[derive(Clone, Copy, Debug, PartialEq, Eq, Structural)]
pub enum PostInspectionResultStatus {
    Unspecified,
    Accepted,
    Partial,
    Rejected,
}

/// Why a path result was rejected.
#[derive(Clone, Copy, Debug, PartialEq, Eq, Structural)]
pub enum RejectionReason {
    Unspecified,
    Duplicate,
}

/// Status of one path's inspection.
#[derive(Clone, Copy, Debug, PartialEq, Eq, Structural)]
pub enum InspectionPathStatusEnum {
    InspectionPathStatusUnspecified,
    InspectionPathStatusPending,
    InspectionPathStatusIrfReached,
    InspectionPathStatusIrfUnreached,
}

/// The data of an inspection path, by kind.
#[derive(Debug)]
pub enum PathData {
    NodeAr(NodeArPath),
}

pub enum PathDataV {
    NodeAr(NodeArPathV),
}

impl View for PathData {
    type V = PathDataV;

    open spec fn view(&self) -> PathDataV {
        match self {
            PathData::NodeAr(m) => PathDataV::NodeAr(m@),
        }
    }
}

/// Request for the exclusive lease on building an era's assignment table.
#[derive(Debug)]
pub struct LeaseRequest {
    pub era_id: u64,
    pub inspector_key: String,
    pub ttl_seconds: u64,
}

/// The value of a [`LeaseRequest`].
pub struct LeaseRequestV {
    pub era_id: u64,
    pub inspector_key: Seq<char>,
    pub ttl_seconds: u64,
}

impl View for LeaseRequest {
    type V = LeaseRequestV;

    open spec fn view(&self) -> LeaseRequestV {
        LeaseRequestV {
            era_id: self.era_id,
            inspector_key: self.inspector_key@,
            ttl_seconds: self.ttl_seconds,
        }
    }
}

impl LeaseRequestV {
    /// The message with every field at its default.
    pub open spec fn default_value() -> LeaseRequestV {
        LeaseRequestV {
            era_id: 0,
            inspector_key: Seq::<char>::empty(),
            ttl_seconds: 0,
        }
    }

    /// Map fields hold their keys in order, each once, here and in nested messages.
    pub open spec fn wf(self) -> bool {
        true
    }

    pub open spec fn piece_era_id(self) -> Seq<(u32, RawV)> {
        piece(1, vals_u64(self.era_id))
    }

    pub open spec fn piece_inspector_key(self) -> Seq<(u32, RawV)> {
        piece(2, vals_string(self.inspector_key))
    }

    pub open spec fn piece_ttl_seconds(self) -> Seq<(u32, RawV)> {
        piece(3, vals_u64(self.ttl_seconds))
    }

    /// The raw fields the message is written as, in field order.
    pub open spec fn to_raw(self) -> Seq<(u32, RawV)> {
        self.piece_era_id() + self.piece_inspector_key() + self.piece_ttl_seconds()
    }

    /// The message read from raw fields, as prost reads it.
    pub open spec fn from_raw(fs: Seq<(u32, RawV)>) -> Option<LeaseRequestV> {
        let era_id = last_of(sel(fs, 1), conv_u64(), 0);
        let inspector_key = last_of(sel(fs, 2), conv_string(), Seq::<char>::empty());
        let ttl_seconds = last_of(sel(fs, 3), conv_u64(), 0);
        if era_id is Some && inspector_key is Some && ttl_seconds is Some {
            Some(LeaseRequestV {
                era_id: era_id.unwrap(),
                inspector_key: inspector_key.unwrap(),
                ttl_seconds: ttl_seconds.unwrap(),
            })
        } else {
            None
        }
    }

    pub open spec fn from_raw_fn() -> spec_fn(Seq<(u32, RawV)>) -> Option<LeaseRequestV> {
        |fs: Seq<(u32, RawV)>| LeaseRequestV::from_raw(fs)
    }

    /// The protobuf encoding of the message.
    pub open spec fn encode(self) -> Seq<u8> {
        encode_fields(self.to_raw())
    }

    pub open spec fn encode_fn() -> spec_fn(LeaseRequestV) -> Seq<u8> {
        |m: LeaseRequestV| m.encode()
    }

    /// The message read from bytes, if they hold one.
    pub open spec fn decode(s: Seq<u8>) -> Option<LeaseRequestV> {
        decode_with(s, LeaseRequestV::from_raw_fn())
    }

    /// The encoding is the encodings of the fields one after the other.
    pub proof fn lemma_encode_split(self)
        ensures
            self.encode() == encode_fields(self.piece_era_id()) + encode_fields(self.piece_inspector_key()) + encode_fields(self.piece_ttl_seconds()),
    {
        lemma_encode_fields_concat(self.piece_era_id(), self.piece_inspector_key());
        lemma_encode_fields_concat(self.piece_era_id() + self.piece_inspector_key(), self.piece_ttl_seconds());
    }

    /// Reading the raw fields of a message gives the message back.
    pub proof fn lemma_from_to_raw(self)
        requires
            self.wf(),
            self.encode().len() <= u64::MAX,
        ensures
            LeaseRequestV::from_raw(self.to_raw()) == Some(self),
            fields_ok(self.to_raw()),
        decreases self.encode().len(),
    {
        let fs = self.to_raw();
        self.lemma_encode_split();
        assert(sel(fs, 1) =~= vals_u64(self.era_id));
        lemma_u64_round_trip(self.era_id);
        lemma_piece_ok(1, vals_u64(self.era_id));
        assert(sel(fs, 2) =~= vals_string(self.inspector_key));
        lemma_string_round_trip(self.inspector_key);
        lemma_piece_ok(2, vals_string(self.inspector_key));
        lemma_fields_ok_concat(self.piece_era_id(), self.piece_inspector_key());
        assert(sel(fs, 3) =~= vals_u64(self.ttl_seconds));
        lemma_u64_round_trip(self.ttl_seconds);
        lemma_piece_ok(3, vals_u64(self.ttl_seconds));
        lemma_fields_ok_concat(self.piece_era_id() + self.piece_inspector_key(), self.piece_ttl_seconds());
    }

    pub open spec fn to_raw_fn() -> spec_fn(LeaseRequestV) -> Seq<(u32, RawV)> {
        |m: LeaseRequestV| m.to_raw()
    }
}

/// Decoding the encoding of a lease request gives it back.
pub proof fn lemma_lease_request_round_trip(m: LeaseRequestV)
    requires
        m.wf(),
        m.encode().len() <= u64::MAX,
    ensures
        LeaseRequestV::decode(m.encode()) == Some(m),
{
    m.lemma_from_to_raw();
    lemma_parse_encode_fields(m.to_raw());
}

/// Empty bytes decode to the default lease request.
pub proof fn lemma_lease_request_decode_empty()
    ensures
        LeaseRequestV::decode(Seq::empty()) == Some(LeaseRequestV::default_value()),
{
    let e = Seq::<(u32, RawV)>::empty();
    assert(sel(e, 1) == Seq::<RawV>::empty());
    assert(sel(e, 2) == Seq::<RawV>::empty());
    assert(sel(e, 3) == Seq::<RawV>::empty());
}

impl LeaseRequest {
    /// Appends the protobuf encoding of the message.
    pub fn encode_raw(&self, buf: &mut Vec<u8>)
        ensures
            final(buf)@ == old(buf)@ + self@.encode(),
    {
        let ghost m = self@;
        put_u64_field(buf, 1, self.era_id);
        put_string_field(buf, 2, &self.inspector_key);
        proof {
            assert(buf@ =~= old(buf)@ + (encode_fields(m.piece_era_id()) + encode_fields(m.piece_inspector_key())));
        }
        put_u64_field(buf, 3, self.ttl_seconds);
        proof {
            assert(buf@ =~= old(buf)@ + (encode_fields(m.piece_era_id()) + encode_fields(m.piece_inspector_key()) + encode_fields(m.piece_ttl_seconds())));
        }
        proof {
            m.lemma_encode_split();
        }
    }

    /// The protobuf encoding of the message.
    pub fn encode_to_vec(&self) -> (r: Vec<u8>)
        ensures
            r@ == self@.encode(),
    {
        let mut buf = Vec::new();
        self.encode_raw(&mut buf);
        proof {
            assert(buf@ =~= self@.encode());
        }
        buf
    }

    /// Reads the message from its raw fields.
    pub fn from_fields(fields: &Vec<RawField>) -> (res: Result<LeaseRequest, WireError>)
        ensures
            match LeaseRequestV::from_raw(fields_view(fields@)) {
                Some(m) => res matches Ok(x) && x@ == m,
                None => res is Err,
            },
    {
        let ghost fs = fields_view(fields@);
        let mut era_id: u64 = 0;
        let mut inspector_key: String = String::new();
        let mut ttl_seconds: u64 = 0;
        let mut i: usize = 0;
        proof {
            assert(fs.take(0) =~= Seq::<(u32, RawV)>::empty());
            assert(fields_view(Seq::<RawField>::empty()) =~= Seq::<(u32, RawV)>::empty());
        }
        while i < fields.len()
            invariant
                fs == fields_view(fields@),
                i <= fields@.len(),
                last_of(sel(fs.take(i as int), 1), conv_u64(), 0) == Some(era_id),
                last_of(sel(fs.take(i as int), 2), conv_string(), Seq::<char>::empty()) == Some(inspector_key@),
                last_of(sel(fs.take(i as int), 3), conv_u64(), 0) == Some(ttl_seconds),
            decreases fields@.len() - i,
        {
            let f = &fields[i];
            proof {
                lemma_sel_take_step(fs, i as int);
            }
            if f.tag == 1 {
                step_u64(&mut era_id, &f.value, Ghost(fs), Ghost(i as int))?;
            } else if f.tag == 2 {
                step_string(&mut inspector_key, &f.value, Ghost(fs), Ghost(i as int))?;
            } else if f.tag == 3 {
                step_u64(&mut ttl_seconds, &f.value, Ghost(fs), Ghost(i as int))?;
            }
            i = i + 1;
        }
        proof {
            assert(fs.take(i as int) =~= fs);
        }
        Ok(LeaseRequest { era_id, inspector_key, ttl_seconds })
    }

    /// Reads the message from its protobuf encoding.
    pub fn decode(bytes: &[u8]) -> (res: Result<LeaseRequest, WireError>)
        ensures
            match LeaseRequestV::decode(bytes@) {
                Some(m) => res matches Ok(x) && x@ == m,
                None => res is Err,
            },
    {
        let fields = parse_fields_exec(bytes)?;
        LeaseRequest::from_fields(&fields)
    }

}

impl Default for LeaseRequest {
    fn default() -> (r: LeaseRequest)
        ensures
            r@ == LeaseRequestV::default_value(),
    {
        let r = LeaseRequest {
            era_id: 0,
            inspector_key: String::new(),
            ttl_seconds: 0,
        };
        proof {
            assert(r@.inspector_key =~= LeaseRequestV::default_value().inspector_key);
            assert(r@ =~= LeaseRequestV::default_value());
        }
        r
    }
}

impl ProtoMessage for LeaseRequest {
    open spec fn encoded(m: LeaseRequestV) -> Seq<u8> {
        m.encode()
    }

    open spec fn decoded(bytes: Seq<u8>) -> Option<LeaseRequestV> {
        LeaseRequestV::decode(bytes)
    }

    fn encode_bytes(&self) -> (r: Vec<u8>) {
        self.encode_to_vec()
    }

    fn decode_bytes(bytes: &[u8]) -> (r: Result<LeaseRequest, WireError>) {
        LeaseRequest::decode(bytes)
    }
}

/// Answer to a lease request.
#[derive(Debug)]
pub struct LeaseResult {
    pub status: i32,
    pub era_id: u64,
    pub inspector_key: String,
    pub lease_id: String,
    pub expires_at: u64,
    pub current_holder: String,
    pub error_message: String,
}

/// The value of a [`LeaseResult`].
pub struct LeaseResultV {
    pub status: i32,
    pub era_id: u64,
    pub inspector_key: Seq<char>,
    pub lease_id: Seq<char>,
    pub expires_at: u64,
    pub current_holder: Seq<char>,
    pub error_message: Seq<char>,
}

impl View for LeaseResult {
    type V = LeaseResultV;

    open spec fn view(&self) -> LeaseResultV {
        LeaseResultV {
            status: self.status,
            era_id: self.era_id,
            inspector_key: self.inspector_key@,
            lease_id: self.lease_id@,
            expires_at: self.expires_at,
            current_holder: self.current_holder@,
            error_message: self.error_message@,
        }
    }
}

impl LeaseResultV {
    /// The message with every field at its default.
    pub open spec fn default_value() -> LeaseResultV {
        LeaseResultV {
            status: 0,
            era_id: 0,
            inspector_key: Seq::<char>::empty(),
            lease_id: Seq::<char>::empty(),
            expires_at: 0,
            current_holder: Seq::<char>::empty(),
            error_message: Seq::<char>::empty(),
        }
    }

    /// Map fields hold their keys in order, each once, here and in nested messages.
    pub open spec fn wf(self) -> bool {
        true
    }

    pub open spec fn piece_status(self) -> Seq<(u32, RawV)> {
        piece(1, vals_i32(self.status))
    }

    pub open spec fn piece_era_id(self) -> Seq<(u32, RawV)> {
        piece(2, vals_u64(self.era_id))
    }

    pub open spec fn piece_inspector_key(self) -> Seq<(u32, RawV)> {
        piece(3, vals_string(self.inspector_key))
    }

    pub open spec fn piece_lease_id(self) -> Seq<(u32, RawV)> {
        piece(4, vals_string(self.lease_id))
    }

    pub open spec fn piece_expires_at(self) -> Seq<(u32, RawV)> {
        piece(5, vals_u64(self.expires_at))
    }

    pub open spec fn piece_current_holder(self) -> Seq<(u32, RawV)> {
        piece(6, vals_string(self.current_holder))
    }

    pub open spec fn piece_error_message(self) -> Seq<(u32, RawV)> {
        piece(7, vals_string(self.error_message))
    }

    /// The raw fields the message is written as, in field order.
    pub open spec fn to_raw(self) -> Seq<(u32, RawV)> {
        self.piece_status() + self.piece_era_id() + self.piece_inspector_key() + self.piece_lease_id() + self.piece_expires_at() + self.piece_current_holder() + self.piece_error_message()
    }

    /// The message read from raw fields, as prost reads it.
    pub open spec fn from_raw(fs: Seq<(u32, RawV)>) -> Option<LeaseResultV> {
        let status = last_of(sel(fs, 1), conv_i32(), 0);
        let era_id = last_of(sel(fs, 2), conv_u64(), 0);
        let inspector_key = last_of(sel(fs, 3), conv_string(), Seq::<char>::empty());
        let lease_id = last_of(sel(fs, 4), conv_string(), Seq::<char>::empty());
        let expires_at = last_of(sel(fs, 5), conv_u64(), 0);
        let current_holder = last_of(sel(fs, 6), conv_string(), Seq::<char>::empty());
        let error_message = last_of(sel(fs, 7), conv_string(), Seq::<char>::empty());
        if status is Some && era_id is Some && inspector_key is Some && lease_id is Some && expires_at is Some && current_holder is Some && error_message is Some {
            Some(LeaseResultV {
                status: status.unwrap(),
                era_id: era_id.unwrap(),
                inspector_key: inspector_key.unwrap(),
                lease_id: lease_id.unwrap(),
                expires_at: expires_at.unwrap(),
                current_holder: current_holder.unwrap(),
                error_message: error_message.unwrap(),
            })
        } else {
            None
        }
    }

    pub open spec fn from_raw_fn() -> spec_fn(Seq<(u32, RawV)>) -> Option<LeaseResultV> {
        |fs: Seq<(u32, RawV)>| LeaseResultV::from_raw(fs)
    }

    /// The protobuf encoding of the message.
    pub open spec fn encode(self) -> Seq<u8> {
        encode_fields(self.to_raw())
    }

    pub open spec fn encode_fn() -> spec_fn(LeaseResultV) -> Seq<u8> {
        |m: LeaseResultV| m.encode()
    }

    /// The message read from bytes, if they hold one.
    pub open spec fn decode(s: Seq<u8>) -> Option<LeaseResultV> {
        decode_with(s, LeaseResultV::from_raw_fn())
    }

    /// The encoding is the encodings of the fields one after the other.
    pub proof fn lemma_encode_split(self)
        ensures
            self.encode() == encode_fields(self.piece_status()) + encode_fields(self.piece_era_id()) + encode_fields(self.piece_inspector_key()) + encode_fields(self.piece_lease_id()) + encode_fields(self.piece_expires_at()) + encode_fields(self.piece_current_holder()) + encode_fields(self.piece_error_message()),
    {
        lemma_encode_fields_concat(self.piece_status(), self.piece_era_id());
        lemma_encode_fields_concat(self.piece_status() + self.piece_era_id(), self.piece_inspector_key());
        lemma_encode_fields_concat(self.piece_status() + self.piece_era_id() + self.piece_inspector_key(), self.piece_lease_id());
        lemma_encode_fields_concat(self.piece_status() + self.piece_era_id() + self.piece_inspector_key() + self.piece_lease_id(), self.piece_expires_at());
        lemma_encode_fields_concat(self.piece_status() + self.piece_era_id() + self.piece_inspector_key() + self.piece_lease_id() + self.piece_expires_at(), self.piece_current_holder());
        lemma_encode_fields_concat(self.piece_status() + self.piece_era_id() + self.piece_inspector_key() + self.piece_lease_id() + self.piece_expires_at() + self.piece_current_holder(), self.piece_error_message());
    }

    /// Reading the raw fields of a message gives the message back.
    #[verifier::spinoff_prover]
    #[verifier::rlimit(60)]
    pub proof fn lemma_from_to_raw(self)
        requires
            self.wf(),
            self.encode().len() <= u64::MAX,
        ensures
            LeaseResultV::from_raw(self.to_raw()) == Some(self),
            fields_ok(self.to_raw()),
        decreases self.encode().len(),
    {
        let fs = self.to_raw();
        self.lemma_encode_split();
        assert(sel(fs, 1) =~= vals_i32(self.status));
        lemma_i32_round_trip(self.status);
        lemma_piece_ok(1, vals_i32(self.status));
        assert(sel(fs, 2) =~= vals_u64(self.era_id));
        lemma_u64_round_trip(self.era_id);
        lemma_piece_ok(2, vals_u64(self.era_id));
        lemma_fields_ok_concat(self.piece_status(), self.piece_era_id());
        assert(sel(fs, 3) =~= vals_string(self.inspector_key));
        lemma_string_round_trip(self.inspector_key);
        lemma_piece_ok(3, vals_string(self.inspector_key));
        lemma_fields_ok_concat(self.piece_status() + self.piece_era_id(), self.piece_inspector_key());
        assert(sel(fs, 4) =~= vals_string(self.lease_id));
        lemma_string_round_trip(self.lease_id);
        lemma_piece_ok(4, vals_string(self.lease_id));
        lemma_fields_ok_concat(self.piece_status() + self.piece_era_id() + self.piece_inspector_key(), self.piece_lease_id());
        assert(sel(fs, 5) =~= vals_u64(self.expires_at));
        lemma_u64_round_trip(self.expires_at);
        lemma_piece_ok(5, vals_u64(self.expires_at));
        lemma_fields_ok_concat(self.piece_status() + self.piece_era_id() + self.piece_inspector_key() + self.piece_lease_id(), self.piece_expires_at());
        assert(sel(fs, 6) =~= vals_string(self.current_holder));
        lemma_string_round_trip(self.current_holder);
        lemma_piece_ok(6, vals_string(self.current_holder));
        lemma_fields_ok_concat(self.piece_status() + self.piece_era_id() + self.piece_inspector_key() + self.piece_lease_id() + self.piece_expires_at(), self.piece_current_holder());
        assert(sel(fs, 7) =~= vals_string(self.error_message));
        lemma_string_round_trip(self.error_message);
        lemma_piece_ok(7, vals_string(self.error_message));
        lemma_fields_ok_concat(self.piece_status() + self.piece_era_id() + self.piece_inspector_key() + self.piece_lease_id() + self.piece_expires_at() + self.piece_current_holder(), self.piece_error_message());
    }

    pub open spec fn to_raw_fn() -> spec_fn(LeaseResultV) -> Seq<(u32, RawV)> {
        |m: LeaseResultV| m.to_raw()
    }
}

/// Decoding the encoding of a lease result gives it back.
pub proof fn lemma_lease_result_round_trip(m: LeaseResultV)
    requires
        m.wf(),
        m.encode().len() <= u64::MAX,
    ensures
        LeaseResultV::decode(m.encode()) == Some(m),
{
    m.lemma_from_to_raw();
    lemma_parse_encode_fields(m.to_raw());
}

/// Empty bytes decode to the default lease result.
pub proof fn lemma_lease_result_decode_empty()
    ensures
        LeaseResultV::decode(Seq::empty()) == Some(LeaseResultV::default_value()),
{
    let e = Seq::<(u32, RawV)>::empty();
    assert(sel(e, 1) == Seq::<RawV>::empty());
    assert(sel(e, 2) == Seq::<RawV>::empty());
    assert(sel(e, 3) == Seq::<RawV>::empty());
    assert(sel(e, 4) == Seq::<RawV>::empty());
    assert(sel(e, 5) == Seq::<RawV>::empty());
    assert(sel(e, 6) == Seq::<RawV>::empty());
    assert(sel(e, 7) == Seq::<RawV>::empty());
}

impl LeaseResult {
    /// Appends the protobuf encoding of the message.
    #[verifier::spinoff_prover]
    #[verifier::rlimit(60)]
    pub fn encode_raw(&self, buf: &mut Vec<u8>)
        ensures
            final(buf)@ == old(buf)@ + self@.encode(),
    {
        let ghost m = self@;
        put_i32_field(buf, 1, self.status);
        put_u64_field(buf, 2, self.era_id);
        proof {
            assert(buf@ =~= old(buf)@ + (encode_fields(m.piece_status()) + encode_fields(m.piece_era_id())));
        }
        put_string_field(buf, 3, &self.inspector_key);
        proof {
            assert(buf@ =~= old(buf)@ + (encode_fields(m.piece_status()) + encode_fields(m.piece_era_id()) + encode_fields(m.piece_inspector_key())));
        }
        put_string_field(buf, 4, &self.lease_id);
        proof {
            assert(buf@ =~= old(buf)@ + (encode_fields(m.piece_status()) + encode_fields(m.piece_era_id()) + encode_fields(m.piece_inspector_key()) + encode_fields(m.piece_lease_id())));
        }
        put_u64_field(buf, 5, self.expires_at);
        proof {
            assert(buf@ =~= old(buf)@ + (encode_fields(m.piece_status()) + encode_fields(m.piece_era_id()) + encode_fields(m.piece_inspector_key()) + encode_fields(m.piece_lease_id()) + encode_fields(m.piece_expires_at())));
        }
        put_string_field(buf, 6, &self.current_holder);
        proof {
            assert(buf@ =~= old(buf)@ + (encode_fields(m.piece_status()) + encode_fields(m.piece_era_id()) + encode_fields(m.piece_inspector_key()) + encode_fields(m.piece_lease_id()) + encode_fields(m.piece_expires_at()) + encode_fields(m.piece_current_holder())));
        }
        put_string_field(buf, 7, &self.error_message);
        proof {
            assert(buf@ =~= old(buf)@ + (encode_fields(m.piece_status()) + encode_fields(m.piece_era_id()) + encode_fields(m.piece_inspector_key()) + encode_fields(m.piece_lease_id()) + encode_fields(m.piece_expires_at()) + encode_fields(m.piece_current_holder()) + encode_fields(m.piece_error_message())));
        }
        proof {
            m.lemma_encode_split();
        }
    }

    /// The protobuf encoding of the message.
    pub fn encode_to_vec(&self) -> (r: Vec<u8>)
        ensures
            r@ == self@.encode(),
    {
        let mut buf = Vec::new();
        self.encode_raw(&mut buf);
        proof {
            assert(buf@ =~= self@.encode());
        }
        buf
    }

    /// Reads the message from its raw fields.
    #[verifier::spinoff_prover]
    #[verifier::rlimit(60)]
    pub fn from_fields(fields: &Vec<RawField>) -> (res: Result<LeaseResult, WireError>)
        ensures
            match LeaseResultV::from_raw(fields_view(fields@)) {
                Some(m) => res matches Ok(x) && x@ == m,
                None => res is Err,
            },
    {
        let ghost fs = fields_view(fields@);
        let mut status: i32 = 0;
        let mut era_id: u64 = 0;
        let mut inspector_key: String = String::new();
        let mut lease_id: String = String::new();
        let mut expires_at: u64 = 0;
        let mut current_holder: String = String::new();
        let mut error_message: String = String::new();
        let mut i: usize = 0;
        proof {
            assert(fs.take(0) =~= Seq::<(u32, RawV)>::empty());
            assert(fields_view(Seq::<RawField>::empty()) =~= Seq::<(u32, RawV)>::empty());
        }
        while i < fields.len()
            invariant
                fs == fields_view(fields@),
                i <= fields@.len(),
                last_of(sel(fs.take(i as int), 1), conv_i32(), 0) == Some(status),
                last_of(sel(fs.take(i as int), 2), conv_u64(), 0) == Some(era_id),
                last_of(sel(fs.take(i as int), 3), conv_string(), Seq::<char>::empty()) == Some(inspector_key@),
                last_of(sel(fs.take(i as int), 4), conv_string(), Seq::<char>::empty()) == Some(lease_id@),
                last_of(sel(fs.take(i as int), 5), conv_u64(), 0) == Some(expires_at),
                last_of(sel(fs.take(i as int), 6), conv_string(), Seq::<char>::empty()) == Some(current_holder@),
                last_of(sel(fs.take(i as int), 7), conv_string(), Seq::<char>::empty()) == Some(error_message@),
            decreases fields@.len() - i,
        {
            let f = &fields[i];
            proof {
                lemma_sel_take_step(fs, i as int);
            }
            if f.tag == 1 {
                step_i32(&mut status, &f.value, Ghost(fs), Ghost(i as int))?;
            } else if f.tag == 2 {
                step_u64(&mut era_id, &f.value, Ghost(fs), Ghost(i as int))?;
            } else if f.tag == 3 {
                step_string(&mut inspector_key, &f.value, Ghost(fs), Ghost(i as int))?;
            } else if f.tag == 4 {
                step_string(&mut lease_id, &f.value, Ghost(fs), Ghost(i as int))?;
            } else if f.tag == 5 {
                step_u64(&mut expires_at, &f.value, Ghost(fs), Ghost(i as int))?;
            } else if f.tag == 6 {
                step_string(&mut current_holder, &f.value, Ghost(fs), Ghost(i as int))?;
            } else if f.tag == 7 {
                step_string(&mut error_message, &f.value, Ghost(fs), Ghost(i as int))?;
            }
            i = i + 1;
        }
        proof {
            assert(fs.take(i as int) =~= fs);
        }
        Ok(LeaseResult { status, era_id, inspector_key, lease_id, expires_at, current_holder, error_message })
    }

    /// Reads the message from its protobuf encoding.
    pub fn decode(bytes: &[u8]) -> (res: Result<LeaseResult, WireError>)
        ensures
            match LeaseResultV::decode(bytes@) {
                Some(m) => res matches Ok(x) && x@ == m,
                None => res is Err,
            },
    {
        let fields = parse_fields_exec(bytes)?;
        LeaseResult::from_fields(&fields)
    }

}

impl Default for LeaseResult {
    fn default() -> (r: LeaseResult)
        ensures
            r@ == LeaseResultV::default_value(),
    {
        let r = LeaseResult {
            status: 0,
            era_id: 0,
            inspector_key: String::new(),
            lease_id: String::new(),
            expires_at: 0,
            current_holder: String::new(),
            error_message: String::new(),
        };
        proof {
            assert(r@.inspector_key =~= LeaseResultV::default_value().inspector_key);
            assert(r@.lease_id =~= LeaseResultV::default_value().lease_id);
            assert(r@.current_holder =~= LeaseResultV::default_value().current_holder);
            assert(r@.error_message =~= LeaseResultV::default_value().error_message);
            assert(r@ =~= LeaseResultV::default_value());
        }
        r
    }
}

impl ProtoMessage for LeaseResult {
    open spec fn encoded(m: LeaseResultV) -> Seq<u8> {
        m.encode()
    }

    open spec fn decoded(bytes: Seq<u8>) -> Option<LeaseResultV> {
        LeaseResultV::decode(bytes)
    }

    fn encode_bytes(&self) -> (r: Vec<u8>) {
        self.encode_to_vec()
    }

    fn decode_bytes(bytes: &[u8]) -> (r: Result<LeaseResult, WireError>) {
        LeaseResult::decode(bytes)
    }
}

/// An inspection path over the activity records of one node.
#[derive(Debug)]
pub struct NodeArPath {
    pub node_key: String,
    pub leaves_ids: Vec<u64>,
    pub tca_id: u64,
}

/// The value of a [`NodeArPath`].
pub struct NodeArPathV {
    pub node_key: Seq<char>,
    pub leaves_ids: Seq<u64>,
    pub tca_id: u64,
}

impl View for NodeArPath {
    type V = NodeArPathV;

    open spec fn view(&self) -> NodeArPathV {
        NodeArPathV {
            node_key: self.node_key@,
            leaves_ids: self.leaves_ids@,
            tca_id: self.tca_id,
        }
    }
}

impl NodeArPathV {
    /// The message with every field at its default.
    pub open spec fn default_value() -> NodeArPathV {
        NodeArPathV {
            node_key: Seq::<char>::empty(),
            leaves_ids: Seq::<u64>::empty(),
            tca_id: 0,
        }
    }

    /// Map fields hold their keys in order, each once, here and in nested messages.
    pub open spec fn wf(self) -> bool {
        true
    }

    pub open spec fn piece_node_key(self) -> Seq<(u32, RawV)> {
        piece(1, vals_string(self.node_key))
    }

    pub open spec fn piece_leaves_ids(self) -> Seq<(u32, RawV)> {
        piece(2, vals_packed_u64(self.leaves_ids))
    }

    pub open spec fn piece_tca_id(self) -> Seq<(u32, RawV)> {
        piece(3, vals_u64(self.tca_id))
    }

    /// The raw fields the message is written as, in field order.
    pub open spec fn to_raw(self) -> Seq<(u32, RawV)> {
        self.piece_node_key() + self.piece_leaves_ids() + self.piece_tca_id()
    }

    /// The message read from raw fields, as prost reads it.
    pub open spec fn from_raw(fs: Seq<(u32, RawV)>) -> Option<NodeArPathV> {
        let node_key = last_of(sel(fs, 1), conv_string(), Seq::<char>::empty());
        let leaves_ids = concat_of(sel(fs, 2), conv_packed_u64());
        let tca_id = last_of(sel(fs, 3), conv_u64(), 0);
        if node_key is Some && leaves_ids is Some && tca_id is Some {
            Some(NodeArPathV {
                node_key: node_key.unwrap(),
                leaves_ids: leaves_ids.unwrap(),
                tca_id: tca_id.unwrap(),
            })
        } else {
            None
        }
    }

    pub open spec fn from_raw_fn() -> spec_fn(Seq<(u32, RawV)>) -> Option<NodeArPathV> {
        |fs: Seq<(u32, RawV)>| NodeArPathV::from_raw(fs)
    }

    /// The protobuf encoding of the message.
    pub open spec fn encode(self) -> Seq<u8> {
        encode_fields(self.to_raw())
    }

    pub open spec fn encode_fn() -> spec_fn(NodeArPathV) -> Seq<u8> {
        |m: NodeArPathV| m.encode()
    }

    /// The message read from bytes, if they hold one.
    pub open spec fn decode(s: Seq<u8>) -> Option<NodeArPathV> {
        decode_with(s, NodeArPathV::from_raw_fn())
    }

    /// The encoding is the encodings of the fields one after the other.
    pub proof fn lemma_encode_split(self)
        ensures
            self.encode() == encode_fields(self.piece_node_key()) + encode_fields(self.piece_leaves_ids()) + encode_fields(self.piece_tca_id()),
    {
        lemma_encode_fields_concat(self.piece_node_key(), self.piece_leaves_ids());
        lemma_encode_fields_concat(self.piece_node_key() + self.piece_leaves_ids(), self.piece_tca_id());
    }

    /// Reading the raw fields of a message gives the message back.
    pub proof fn lemma_from_to_raw(self)
        requires
            self.wf(),
            self.encode().len() <= u64::MAX,
        ensures
            NodeArPathV::from_raw(self.to_raw()) == Some(self),
            fields_ok(self.to_raw()),
        decreases self.encode().len(),
    {
        let fs = self.to_raw();
        self.lemma_encode_split();
        assert(sel(fs, 1) =~= vals_string(self.node_key));
        lemma_string_round_trip(self.node_key);
        lemma_piece_ok(1, vals_string(self.node_key));
        assert(sel(fs, 2) =~= vals_packed_u64(self.leaves_ids));
        lemma_packed_round_trip(self.leaves_ids);
        lemma_piece_ok(2, vals_packed_u64(self.leaves_ids));
        lemma_fields_ok_concat(self.piece_node_key(), self.piece_leaves_ids());
        assert(sel(fs, 3) =~= vals_u64(self.tca_id));
        lemma_u64_round_trip(self.tca_id);
        lemma_piece_ok(3, vals_u64(self.tca_id));
        lemma_fields_ok_concat(self.piece_node_key() + self.piece_leaves_ids(), self.piece_tca_id());
    }

    pub open spec fn to_raw_fn() -> spec_fn(NodeArPathV) -> Seq<(u32, RawV)> {
        |m: NodeArPathV| m.to_raw()
    }
}

/// Decoding the encoding of a node ar path gives it back.
pub proof fn lemma_node_ar_path_round_trip(m: NodeArPathV)
    requires
        m.wf(),
        m.encode().len() <= u64::MAX,
    ensures
        NodeArPathV::decode(m.encode()) == Some(m),
{
    m.lemma_from_to_raw();
    lemma_parse_encode_fields(m.to_raw());
}

/// Empty bytes decode to the default node ar path.
pub proof fn lemma_node_ar_path_decode_empty()
    ensures
        NodeArPathV::decode(Seq::empty()) == Some(NodeArPathV::default_value()),
{
    let e = Seq::<(u32, RawV)>::empty();
    assert(sel(e, 1) == Seq::<RawV>::empty());
    assert(sel(e, 2) == Seq::<RawV>::empty());
    assert(sel(e, 3) == Seq::<RawV>::empty());
}

impl NodeArPath {
    /// Appends the protobuf encoding of the message.
    pub fn encode_raw(&self, buf: &mut Vec<u8>)
        ensures
            final(buf)@ == old(buf)@ + self@.encode(),
    {
        let ghost m = self@;
        put_string_field(buf, 1, &self.node_key);
        put_packed_u64_field(buf, 2, &self.leaves_ids);
        proof {
            assert(buf@ =~= old(buf)@ + (encode_fields(m.piece_node_key()) + encode_fields(m.piece_leaves_ids())));
        }
        put_u64_field(buf, 3, self.tca_id);
        proof {
            assert(buf@ =~= old(buf)@ + (encode_fields(m.piece_node_key()) + encode_fields(m.piece_leaves_ids()) + encode_fields(m.piece_tca_id())));
        }
        proof {
            m.lemma_encode_split();
        }
    }

    /// The protobuf encoding of the message.
    pub fn encode_to_vec(&self) -> (r: Vec<u8>)
        ensures
            r@ == self@.encode(),
    {
        let mut buf = Vec::new();
        self.encode_raw(&mut buf);
        proof {
            assert(buf@ =~= self@.encode());
        }
        buf
    }

    /// Reads the message from its raw fields.
    pub fn from_fields(fields: &Vec<RawField>) -> (res: Result<NodeArPath, WireError>)
        ensures
            match NodeArPathV::from_raw(fields_view(fields@)) {
                Some(m) => res matches Ok(x) && x@ == m,
                None => res is Err,
            },
    {
        let ghost fs = fields_view(fields@);
        let mut node_key: String = String::new();
        let mut leaves_ids: Vec<u64> = Vec::new();
        let mut tca_id: u64 = 0;
        let mut i: usize = 0;
        proof {
            assert(fs.take(0) =~= Seq::<(u32, RawV)>::empty());
            assert(fields_view(Seq::<RawField>::empty()) =~= Seq::<(u32, RawV)>::empty());
        }
        while i < fields.len()
            invariant
                fs == fields_view(fields@),
                i <= fields@.len(),
                last_of(sel(fs.take(i as int), 1), conv_string(), Seq::<char>::empty()) == Some(node_key@),
                concat_of(sel(fs.take(i as int), 2), conv_packed_u64()) == Some(leaves_ids@),
                last_of(sel(fs.take(i as int), 3), conv_u64(), 0) == Some(tca_id),
            decreases fields@.len() - i,
        {
            let f = &fields[i];
            proof {
                lemma_sel_take_step(fs, i as int);
            }
            if f.tag == 1 {
                step_string(&mut node_key, &f.value, Ghost(fs), Ghost(i as int))?;
            } else if f.tag == 2 {
                step_packed_u64(&mut leaves_ids, &f.value, Ghost(fs), Ghost(i as int))?;
            } else if f.tag == 3 {
                step_u64(&mut tca_id, &f.value, Ghost(fs), Ghost(i as int))?;
            }
            i = i + 1;
        }
        proof {
            assert(fs.take(i as int) =~= fs);
        }
        Ok(NodeArPath { node_key, leaves_ids, tca_id })
    }

    /// Reads the message from its protobuf encoding.
    pub fn decode(bytes: &[u8]) -> (res: Result<NodeArPath, WireError>)
        ensures
            match NodeArPathV::decode(bytes@) {
                Some(m) => res matches Ok(x) && x@ == m,
                None => res is Err,
            },
    {
        let fields = parse_fields_exec(bytes)?;
        NodeArPath::from_fields(&fields)
    }

}

impl Default for NodeArPath {
    fn default() -> (r: NodeArPath)
        ensures
            r@ == NodeArPathV::default_value(),
    {
        let r = NodeArPath {
            node_key: String::new(),
            leaves_ids: Vec::new(),
            tca_id: 0,
        };
        proof {
            assert(r@.node_key =~= NodeArPathV::default_value().node_key);
            assert(r@.leaves_ids =~= NodeArPathV::default_value().leaves_ids);
            assert(r@ =~= NodeArPathV::default_value());
        }
        r
    }
}

impl ProtoMessage for NodeArPath {
    open spec fn encoded(m: NodeArPathV) -> Seq<u8> {
        m.encode()
    }

    open spec fn decoded(bytes: Seq<u8>) -> Option<NodeArPathV> {
        NodeArPathV::decode(bytes)
    }

    fn encode_bytes(&self) -> (r: Vec<u8>) {
        self.encode_to_vec()
    }

    fn decode_bytes(bytes: &[u8]) -> (r: Result<NodeArPath, WireError>) {
        NodeArPath::decode(bytes)
    }
}

/// One path of an assignment table: its kind, collectors and data.
#[derive(Debug)]
pub struct InspectionPath {
    pub path_type: i32,
    pub collectors: Vec<String>,
    pub path_data: Option<PathData>,
}

/// The value of a [`InspectionPath`].
pub struct InspectionPathV {
    pub path_type: i32,
    pub collectors: Seq<Seq<char>>,
    pub path_data: Option<PathDataV>,
}

impl View for InspectionPath {
    type V = InspectionPathV;

    open spec fn view(&self) -> InspectionPathV {
        InspectionPathV {
            path_type: self.path_type,
            collectors: strings_view(self.collectors@),
            path_data: match &self.path_data { Some(d) => Some(d@), None => None },
        }
    }
}

impl InspectionPathV {
    /// The message with every field at its default.
    pub open spec fn default_value() -> InspectionPathV {
        InspectionPathV {
            path_type: 0,
            collectors: Seq::<Seq<char>>::empty(),
            path_data: None,
        }
    }

    /// Map fields hold their keys in order, each once, here and in nested messages.
    pub open spec fn wf(self) -> bool {
        &&& (self.path_data matches Some(PathDataV::NodeAr(m)) ==> m.wf())
    }

    pub open spec fn piece_path_type(self) -> Seq<(u32, RawV)> {
        piece(1, vals_i32(self.path_type))
    }

    pub open spec fn piece_collectors(self) -> Seq<(u32, RawV)> {
        piece(2, vals_rep_string(self.collectors))
    }

    pub open spec fn piece_path_data(self) -> Seq<(u32, RawV)> {
        piece(3, vals_opt_msg(match self.path_data { Some(PathDataV::NodeAr(m)) => Some(m.encode()), None => None }))
    }

    /// The raw fields the message is written as, in field order.
    pub open spec fn to_raw(self) -> Seq<(u32, RawV)> {
        self.piece_path_type() + self.piece_collectors() + self.piece_path_data()
    }

    /// The message read from raw fields, as prost reads it.
    pub open spec fn from_raw(fs: Seq<(u32, RawV)>) -> Option<InspectionPathV> {
        let path_type = last_of(sel(fs, 1), conv_i32(), 0);
        let collectors = concat_of(sel(fs, 2), conv_rep_string());
        let path_data = opt_msg(sel(fs, 3), NodeArPathV::from_raw_fn());
        if path_type is Some && collectors is Some && path_data is Some {
            Some(InspectionPathV {
                path_type: path_type.unwrap(),
                collectors: collectors.unwrap(),
                path_data: match path_data.unwrap() { Some(m) => Some(PathDataV::NodeAr(m)), None => None },
            })
        } else {
            None
        }
    }

    pub open spec fn from_raw_fn() -> spec_fn(Seq<(u32, RawV)>) -> Option<InspectionPathV> {
        |fs: Seq<(u32, RawV)>| InspectionPathV::from_raw(fs)
    }

    /// The protobuf encoding of the message.
    pub open spec fn encode(self) -> Seq<u8> {
        encode_fields(self.to_raw())
    }

    pub open spec fn encode_fn() -> spec_fn(InspectionPathV) -> Seq<u8> {
        |m: InspectionPathV| m.encode()
    }

    /// The message read from bytes, if they hold one.
    pub open spec fn decode(s: Seq<u8>) -> Option<InspectionPathV> {
        decode_with(s, InspectionPathV::from_raw_fn())
    }

    /// The encoding is the encodings of the fields one after the other.
    pub proof fn lemma_encode_split(self)
        ensures
            self.encode() == encode_fields(self.piece_path_type()) + encode_fields(self.piece_collectors()) + encode_fields(self.piece_path_data()),
    {
        lemma_encode_fields_concat(self.piece_path_type(), self.piece_collectors());
        lemma_encode_fields_concat(self.piece_path_type() + self.piece_collectors(), self.piece_path_data());
    }

    /// Reading the raw fields of a message gives the message back.
    pub proof fn lemma_from_to_raw(self)
        requires
            self.wf(),
            self.encode().len() <= u64::MAX,
        ensures
            InspectionPathV::from_raw(self.to_raw()) == Some(self),
            fields_ok(self.to_raw()),
        decreases self.encode().len(),
    {
        let fs = self.to_raw();
        self.lemma_encode_split();
        assert(sel(fs, 1) =~= vals_i32(self.path_type));
        lemma_i32_round_trip(self.path_type);
        lemma_piece_ok(1, vals_i32(self.path_type));
        assert(sel(fs, 2) =~= vals_rep_string(self.collectors));
        lemma_rep_string_round_trip(self.collectors);
        lemma_piece_ok(2, vals_rep_string(self.collectors));
        lemma_fields_ok_concat(self.piece_path_type(), self.piece_collectors());
        assert(sel(fs, 3) =~= vals_opt_msg(match self.path_data { Some(PathDataV::NodeAr(m)) => Some(m.encode()), None => None }));
        match self.path_data {
            Some(PathDataV::NodeAr(m)) => {
                lemma_piece_payload_bound(3, vals_opt_msg(match self.path_data { Some(PathDataV::NodeAr(m)) => Some(m.encode()), None => None }), 0);
                m.lemma_from_to_raw();
                lemma_opt_msg_round_trip(Some(m), m.encode(), m.to_raw(), NodeArPathV::from_raw_fn());
            },
            None => {
                lemma_opt_msg_round_trip(None::<NodeArPathV>, Seq::empty(), Seq::empty(), NodeArPathV::from_raw_fn());
            },
        }
        lemma_piece_ok(3, vals_opt_msg(match self.path_data { Some(PathDataV::NodeAr(m)) => Some(m.encode()), None => None }));
        lemma_fields_ok_concat(self.piece_path_type() + self.piece_collectors(), self.piece_path_data());
    }

    pub open spec fn to_raw_fn() -> spec_fn(InspectionPathV) -> Seq<(u32, RawV)> {
        |m: InspectionPathV| m.to_raw()
    }
}

/// Decoding the encoding of a inspection path gives it back.
pub proof fn lemma_inspection_path_round_trip(m: InspectionPathV)
    requires
        m.wf(),
        m.encode().len() <= u64::MAX,
    ensures
        InspectionPathV::decode(m.encode()) == Some(m),
{
    m.lemma_from_to_raw();
    lemma_parse_encode_fields(m.to_raw());
}

/// Empty bytes decode to the default inspection path.
pub proof fn lemma_inspection_path_decode_empty()
    ensures
        InspectionPathV::decode(Seq::empty()) == Some(InspectionPathV::default_value()),
{
    let e = Seq::<(u32, RawV)>::empty();
    assert(sel(e, 1) == Seq::<RawV>::empty());
    assert(sel(e, 2) == Seq::<RawV>::empty());
    assert(sel(e, 3) == Seq::<RawV>::empty());
}

impl InspectionPath {
    /// Appends the protobuf encoding of the message.
    pub fn encode_raw(&self, buf: &mut Vec<u8>)
        ensures
            final(buf)@ == old(buf)@ + self@.encode(),
    {
        let ghost m = self@;
        put_i32_field(buf, 1, self.path_type);
        put_rep_string_field(buf, 2, &self.collectors);
        proof {
            assert(buf@ =~= old(buf)@ + (encode_fields(m.piece_path_type()) + encode_fields(m.piece_collectors())));
        }
        let enc = match &self.path_data {
            Some(PathData::NodeAr(sub)) => Some(sub.encode_to_vec()),
            None => None,
        };
        put_opt_msg_field(buf, 3, enc);
        proof {
            assert(buf@ =~= old(buf)@ + (encode_fields(m.piece_path_type()) + encode_fields(m.piece_collectors()) + encode_fields(m.piece_path_data())));
        }
        proof {
            m.lemma_encode_split();
        }
    }

    /// The protobuf encoding of the message.
    pub fn encode_to_vec(&self) -> (r: Vec<u8>)
        ensures
            r@ == self@.encode(),
    {
        let mut buf = Vec::new();
        self.encode_raw(&mut buf);
        proof {
            assert(buf@ =~= self@.encode());
        }
        buf
    }

    /// Reads the message from its raw fields.
    pub fn from_fields(fields: &Vec<RawField>) -> (res: Result<InspectionPath, WireError>)
        ensures
            match InspectionPathV::from_raw(fields_view(fields@)) {
                Some(m) => res matches Ok(x) && x@ == m,
                None => res is Err,
            },
    {
        let ghost fs = fields_view(fields@);
        let mut path_type: i32 = 0;
        let mut collectors: Vec<String> = Vec::new();
        let mut path_data_fields: Vec<RawField> = Vec::new();
        let mut path_data_present = false;
        let mut i: usize = 0;
        proof {
            assert(fs.take(0) =~= Seq::<(u32, RawV)>::empty());
            assert(fields_view(Seq::<RawField>::empty()) =~= Seq::<(u32, RawV)>::empty());
        }
        while i < fields.len()
            invariant
                fs == fields_view(fields@),
                i <= fields@.len(),
                last_of(sel(fs.take(i as int), 1), conv_i32(), 0) == Some(path_type),
                concat_of(sel(fs.take(i as int), 2), conv_rep_string()) == Some(strings_view(collectors@)),
                concat_of(sel(fs.take(i as int), 3), conv_fields()) == Some(fields_view(path_data_fields@)),
                path_data_present == (sel(fs.take(i as int), 3).len() > 0),
            decreases fields@.len() - i,
        {
            let f = &fields[i];
            proof {
                lemma_sel_take_step(fs, i as int);
            }
            if f.tag == 1 {
                step_i32(&mut path_type, &f.value, Ghost(fs), Ghost(i as int))?;
            } else if f.tag == 2 {
                step_rep_string(&mut collectors, &f.value, Ghost(fs), Ghost(i as int))?;
            } else if f.tag == 3 {
                step_msg_fields(&mut path_data_fields, &mut path_data_present, &f.value, Ghost(fs), Ghost(i as int))?;
            }
            i = i + 1;
        }
        proof {
            assert(fs.take(i as int) =~= fs);
        }
        let path_data = if path_data_present {
            Some(PathData::NodeAr(NodeArPath::from_fields(&path_data_fields)?))
        } else {
            None
        };
        Ok(InspectionPath { path_type, collectors, path_data })
    }

    /// Reads the message from its protobuf encoding.
    pub fn decode(bytes: &[u8]) -> (res: Result<InspectionPath, WireError>)
        ensures
            match InspectionPathV::decode(bytes@) {
                Some(m) => res matches Ok(x) && x@ == m,
                None => res is Err,
            },
    {
        let fields = parse_fields_exec(bytes)?;
        InspectionPath::from_fields(&fields)
    }

    /// Appends a `map<string, _>` field with these messages as values.
    pub fn put_map(buf: &mut Vec<u8>, t: u32, m: &StringMap<InspectionPath>)
        requires
            1 <= t <= MAX_TAG,
        ensures
            final(buf)@ == old(buf)@ + encode_fields(piece(t, vals_map(m@, venc_msg(InspectionPathV::encode_fn())))),
    {
        let es = m.entries();
        let ghost ev = m@;
        let mut i: usize = 0;
        proof {
            assert(vals_map(ev.take(0), venc_msg(InspectionPathV::encode_fn())) =~= Seq::<RawV>::empty());
            lemma_encode_empty_piece(t);
            assert(buf@ =~= old(buf)@ + Seq::<u8>::empty());
        }
        while i < es.len()
            invariant
                1 <= t <= MAX_TAG,
                view_entries(es@) == ev,
                i <= ev.len(),
                buf@ == old(buf)@ + encode_fields(piece(t, vals_map(ev.take(i as int), venc_msg(InspectionPathV::encode_fn())))),
            decreases ev.len() - i,
        {
            let mut entry: Vec<u8> = Vec::new();
            put_string_field(&mut entry, 1, &es[i].0);
            let vb = es[i].1.encode_to_vec();
            put_bytes_field(&mut entry, 2, vb.as_slice());
            proof {
                let e = ev[i as int];
                assert(e.0 == es@[i as int].0@ && e.1 == es@[i as int].1@);
                lemma_encode_fields_concat(piece(1, vals_string(e.0)), piece(2, vals_bytes(e.1.encode())));
                assert(entry@ =~= encode_fields(entry_raw(e.0, (venc_msg(InspectionPathV::encode_fn()))(e.1))));
            }
            put_delimited(buf, t, entry.as_slice());
            proof {
                let p0 = piece(t, vals_map(ev.take(i as int), venc_msg(InspectionPathV::encode_fn())));
                let q = piece(t, seq![RawV::Bytes(entry@)]);
                assert(piece(t, vals_map(ev.take(i + 1), venc_msg(InspectionPathV::encode_fn()))) =~= p0 + q);
                lemma_encode_fields_concat(p0, q);
            }
            i = i + 1;
        }
        proof {
            assert(ev.take(i as int) =~= ev);
        }
    }

    /// One more entry of a `map<string, _>` field with these messages as values.
    pub fn step_map(cur: &mut StringMap<InspectionPath>, r: &RawValue, Ghost(fs): Ghost<Seq<(u32, RawV)>>, Ghost(i): Ghost<int>) -> (res: Result<(), WireError>)
        requires
            0 <= i < fs.len(),
            fs[i].1 == r@,
            map_of(sel(fs.take(i), fs[i].0), val_msg(InspectionPathV::from_raw_fn())) == Some(old(cur)@),
        ensures
            res is Ok ==> map_of(sel(fs.take(i + 1), fs[i].0), val_msg(InspectionPathV::from_raw_fn())) == Some(final(cur)@),
            res is Err ==> map_of(sel(fs, fs[i].0), val_msg(InspectionPathV::from_raw_fn())) is None,
    {
        proof {
            lemma_concat_of_at(fs, i, conv_entry(val_msg(InspectionPathV::from_raw_fn())));
        }
        let ef = raw_fields(r)?;
        let ghost efs = fields_view(ef@);
        let mut key = String::new();
        let mut value_fields: Vec<RawField> = Vec::new();
        let mut value_present = false;
        let mut j: usize = 0;
        proof {
            assert(efs.take(0) =~= Seq::<(u32, RawV)>::empty());
            assert(fields_view(Seq::<RawField>::empty()) =~= Seq::<(u32, RawV)>::empty());
            if (conv_entry(val_msg(InspectionPathV::from_raw_fn())))(r@) is None {
                assert(concat_of(sel(fs.take(i + 1), fs[i].0), conv_entry(val_msg(InspectionPathV::from_raw_fn()))) is None);
            }
        }
        while j < ef.len()
            invariant
                efs == fields_view(ef@),
                j <= ef@.len(),
                last_of(sel(efs.take(j as int), 1), conv_string(), Seq::<char>::empty()) == Some(key@),
                concat_of(sel(efs.take(j as int), 2), conv_fields()) == Some(fields_view(value_fields@)),
                value_present == (sel(efs.take(j as int), 2).len() > 0),
                (conv_fields())(r@) == Some(efs),
                (conv_entry(val_msg(InspectionPathV::from_raw_fn())))(r@) is None ==> map_of(sel(fs, fs[i].0), val_msg(InspectionPathV::from_raw_fn())) is None,
            decreases ef@.len() - j,
        {
            let f = &ef[j];
            proof {
                lemma_sel_take_step(efs, j as int);
            }
            if f.tag == 1 {
                step_string(&mut key, &f.value, Ghost(efs), Ghost(j as int))?;
            } else if f.tag == 2 {
                step_msg_fields(&mut value_fields, &mut value_present, &f.value, Ghost(efs), Ghost(j as int))?;
            }
            j = j + 1;
        }
        proof {
            assert(efs.take(j as int) =~= efs);
        }
        let value = InspectionPath::from_fields(&value_fields)?;
        proof {
            let p = concat_of(sel(fs.take(i), fs[i].0), conv_entry(val_msg(InspectionPathV::from_raw_fn()))).unwrap();
            assert((p + seq![(key@, value@)]).drop_last() =~= p);
        }
        cur.insert(key, value);
        Ok(())
    }

}

impl Default for InspectionPath {
    fn default() -> (r: InspectionPath)
        ensures
            r@ == InspectionPathV::default_value(),
    {
        let r = InspectionPath {
            path_type: 0,
            collectors: Vec::new(),
            path_data: None,
        };
        proof {
            assert(r@.collectors =~= InspectionPathV::default_value().collectors);
            assert(r@ =~= InspectionPathV::default_value());
        }
        r
    }
}

impl ProtoMessage for InspectionPath {
    open spec fn encoded(m: InspectionPathV) -> Seq<u8> {
        m.encode()
    }

    open spec fn decoded(bytes: Seq<u8>) -> Option<InspectionPathV> {
        InspectionPathV::decode(bytes)
    }

    fn encode_bytes(&self) -> (r: Vec<u8>) {
        self.encode_to_vec()
    }

    fn decode_bytes(bytes: &[u8]) -> (r: Result<InspectionPath, WireError>) {
        InspectionPath::decode(bytes)
    }
}

/// The inspectors assigned to one path.
#[derive(Debug)]
pub struct InspectorAssignments {
    pub main_inspectors: Vec<String>,
    pub backup_inspectors: Vec<String>,
}

/// The value of a [`InspectorAssignments`].
pub struct InspectorAssignmentsV {
    pub main_inspectors: Seq<Seq<char>>,
    pub backup_inspectors: Seq<Seq<char>>,
}

impl View for InspectorAssignments {
    type V = InspectorAssignmentsV;

    open spec fn view(&self) -> InspectorAssignmentsV {
        InspectorAssignmentsV {
            main_inspectors: strings_view(self.main_inspectors@),
            backup_inspectors: strings_view(self.backup_inspectors@),
        }
    }
}

impl InspectorAssignmentsV {
    /// The message with every field at its default.
    pub open spec fn default_value() -> InspectorAssignmentsV {
        InspectorAssignmentsV {
            main_inspectors: Seq::<Seq<char>>::empty(),
            backup_inspectors: Seq::<Seq<char>>::empty(),
        }
    }

    /// Map fields hold their keys in order, each once, here and in nested messages.
    pub open spec fn wf(self) -> bool {
        true
    }

    pub open spec fn piece_main_inspectors(self) -> Seq<(u32, RawV)> {
        piece(1, vals_rep_string(self.main_inspectors))
    }

    pub open spec fn piece_backup_inspectors(self) -> Seq<(u32, RawV)> {
        piece(2, vals_rep_string(self.backup_inspectors))
    }

    /// The raw fields the message is written as, in field order.
    pub open spec fn to_raw(self) -> Seq<(u32, RawV)> {
        self.piece_main_inspectors() + self.piece_backup_inspectors()
    }

    /// The message read from raw fields, as prost reads it.
    pub open spec fn from_raw(fs: Seq<(u32, RawV)>) -> Option<InspectorAssignmentsV> {
        let main_inspectors = concat_of(sel(fs, 1), conv_rep_string());
        let backup_inspectors = concat_of(sel(fs, 2), conv_rep_string());
        if main_inspectors is Some && backup_inspectors is Some {
            Some(InspectorAssignmentsV {
                main_inspectors: main_inspectors.unwrap(),
                backup_inspectors: backup_inspectors.unwrap(),
            })
        } else {
            None
        }
    }

    pub open spec fn from_raw_fn() -> spec_fn(Seq<(u32, RawV)>) -> Option<InspectorAssignmentsV> {
        |fs: Seq<(u32, RawV)>| InspectorAssignmentsV::from_raw(fs)
    }

    /// The protobuf encoding of the message.
    pub open spec fn encode(self) -> Seq<u8> {
        encode_fields(self.to_raw())
    }

    pub open spec fn encode_fn() -> spec_fn(InspectorAssignmentsV) -> Seq<u8> {
        |m: InspectorAssignmentsV| m.encode()
    }

    /// The message read from bytes, if they hold one.
    pub open spec fn decode(s: Seq<u8>) -> Option<InspectorAssignmentsV> {
        decode_with(s, InspectorAssignmentsV::from_raw_fn())
    }

    /// The encoding is the encodings of the fields one after the other.
    pub proof fn lemma_encode_split(self)
        ensures
            self.encode() == encode_fields(self.piece_main_inspectors()) + encode_fields(self.piece_backup_inspectors()),
    {
        lemma_encode_fields_concat(self.piece_main_inspectors(), self.piece_backup_inspectors());
    }

    /// Reading the raw fields of a message gives the message back.
    pub proof fn lemma_from_to_raw(self)
        requires
            self.wf(),
            self.encode().len() <= u64::MAX,
        ensures
            InspectorAssignmentsV::from_raw(self.to_raw()) == Some(self),
            fields_ok(self.to_raw()),
        decreases self.encode().len(),
    {
        let fs = self.to_raw();
        self.lemma_encode_split();
        assert(sel(fs, 1) =~= vals_rep_string(self.main_inspectors));
        lemma_rep_string_round_trip(self.main_inspectors);
        lemma_piece_ok(1, vals_rep_string(self.main_inspectors));
        assert(sel(fs, 2) =~= vals_rep_string(self.backup_inspectors));
        lemma_rep_string_round_trip(self.backup_inspectors);
        lemma_piece_ok(2, vals_rep_string(self.backup_inspectors));
        lemma_fields_ok_concat(self.piece_main_inspectors(), self.piece_backup_inspectors());
    }

    pub open spec fn to_raw_fn() -> spec_fn(InspectorAssignmentsV) -> Seq<(u32, RawV)> {
        |m: InspectorAssignmentsV| m.to_raw()
    }
}

/// Decoding the encoding of a inspector assignments gives it back.
pub proof fn lemma_inspector_assignments_round_trip(m: InspectorAssignmentsV)
    requires
        m.wf(),
        m.encode().len() <= u64::MAX,
    ensures
        InspectorAssignmentsV::decode(m.encode()) == Some(m),
{
    m.lemma_from_to_raw();
    lemma_parse_encode_fields(m.to_raw());
}

/// Empty bytes decode to the default inspector assignments.
pub proof fn lemma_inspector_assignments_decode_empty()
    ensures
        InspectorAssignmentsV::decode(Seq::empty()) == Some(InspectorAssignmentsV::default_value()),
{
    let e = Seq::<(u32, RawV)>::empty();
    assert(sel(e, 1) == Seq::<RawV>::empty());
    assert(sel(e, 2) == Seq::<RawV>::empty());
}

impl InspectorAssignments {
    /// Appends the protobuf encoding of the message.
    pub fn encode_raw(&self, buf: &mut Vec<u8>)
        ensures
            final(buf)@ == old(buf)@ + self@.encode(),
    {
        let ghost m = self@;
        put_rep_string_field(buf, 1, &self.main_inspectors);
        put_rep_string_field(buf, 2, &self.backup_inspectors);
        proof {
            assert(buf@ =~= old(buf)@ + (encode_fields(m.piece_main_inspectors()) + encode_fields(m.piece_backup_inspectors())));
        }
        proof {
            m.lemma_encode_split();
        }
    }

    /// The protobuf encoding of the message.
    pub fn encode_to_vec(&self) -> (r: Vec<u8>)
        ensures
            r@ == self@.encode(),
    {
        let mut buf = Vec::new();
        self.encode_raw(&mut buf);
        proof {
            assert(buf@ =~= self@.encode());
        }
        buf
    }

    /// Reads the message from its raw fields.
    pub fn from_fields(fields: &Vec<RawField>) -> (res: Result<InspectorAssignments, WireError>)
        ensures
            match InspectorAssignmentsV::from_raw(fields_view(fields@)) {
                Some(m) => res matches Ok(x) && x@ == m,
                None => res is Err,
            },
    {
        let ghost fs = fields_view(fields@);
        let mut main_inspectors: Vec<String> = Vec::new();
        let mut backup_inspectors: Vec<String> = Vec::new();
        let mut i: usize = 0;
        proof {
            assert(fs.take(0) =~= Seq::<(u32, RawV)>::empty());
            assert(fields_view(Seq::<RawField>::empty()) =~= Seq::<(u32, RawV)>::empty());
        }
        while i < fields.len()
            invariant
                fs == fields_view(fields@),
                i <= fields@.len(),
                concat_of(sel(fs.take(i as int), 1), conv_rep_string()) == Some(strings_view(main_inspectors@)),
                concat_of(sel(fs.take(i as int), 2), conv_rep_string()) == Some(strings_view(backup_inspectors@)),
            decreases fields@.len() - i,
        {
            let f = &fields[i];
            proof {
                lemma_sel_take_step(fs, i as int);
            }
            if f.tag == 1 {
                step_rep_string(&mut main_inspectors, &f.value, Ghost(fs), Ghost(i as int))?;
            } else if f.tag == 2 {
                step_rep_string(&mut backup_inspectors, &f.value, Ghost(fs), Ghost(i as int))?;
            }
            i = i + 1;
        }
        proof {
            assert(fs.take(i as int) =~= fs);
        }
        Ok(InspectorAssignments { main_inspectors, backup_inspectors })
    }

    /// Reads the message from its protobuf encoding.
    pub fn decode(bytes: &[u8]) -> (res: Result<InspectorAssignments, WireError>)
        ensures
            match InspectorAssignmentsV::decode(bytes@) {
                Some(m) => res matches Ok(x) && x@ == m,
                None => res is Err,
            },
    {
        let fields = parse_fields_exec(bytes)?;
        InspectorAssignments::from_fields(&fields)
    }

    /// Appends a `map<string, _>` field with these messages as values.
    pub fn put_map(buf: &mut Vec<u8>, t: u32, m: &StringMap<InspectorAssignments>)
        requires
            1 <= t <= MAX_TAG,
        ensures
            final(buf)@ == old(buf)@ + encode_fields(piece(t, vals_map(m@, venc_msg(InspectorAssignmentsV::encode_fn())))),
    {
        let es = m.entries();
        let ghost ev = m@;
        let mut i: usize = 0;
        proof {
            assert(vals_map(ev.take(0), venc_msg(InspectorAssignmentsV::encode_fn())) =~= Seq::<RawV>::empty());
            lemma_encode_empty_piece(t);
            assert(buf@ =~= old(buf)@ + Seq::<u8>::empty());
        }
        while i < es.len()
            invariant
                1 <= t <= MAX_TAG,
                view_entries(es@) == ev,
                i <= ev.len(),
                buf@ == old(buf)@ + encode_fields(piece(t, vals_map(ev.take(i as int), venc_msg(InspectorAssignmentsV::encode_fn())))),
            decreases ev.len() - i,
        {
            let mut entry: Vec<u8> = Vec::new();
            put_string_field(&mut entry, 1, &es[i].0);
            let vb = es[i].1.encode_to_vec();
            put_bytes_field(&mut entry, 2, vb.as_slice());
            proof {
                let e = ev[i as int];
                assert(e.0 == es@[i as int].0@ && e.1 == es@[i as int].1@);
                lemma_encode_fields_concat(piece(1, vals_string(e.0)), piece(2, vals_bytes(e.1.encode())));
                assert(entry@ =~= encode_fields(entry_raw(e.0, (venc_msg(InspectorAssignmentsV::encode_fn()))(e.1))));
            }
            put_delimited(buf, t, entry.as_slice());
            proof {
                let p0 = piece(t, vals_map(ev.take(i as int), venc_msg(InspectorAssignmentsV::encode_fn())));
                let q = piece(t, seq![RawV::Bytes(entry@)]);
                assert(piece(t, vals_map(ev.take(i + 1), venc_msg(InspectorAssignmentsV::encode_fn()))) =~= p0 + q);
                lemma_encode_fields_concat(p0, q);
            }
            i = i + 1;
        }
        proof {
            assert(ev.take(i as int) =~= ev);
        }
    }

    /// One more entry of a `map<string, _>` field with these messages as values.
    pub fn step_map(cur: &mut StringMap<InspectorAssignments>, r: &RawValue, Ghost(fs): Ghost<Seq<(u32, RawV)>>, Ghost(i): Ghost<int>) -> (res: Result<(), WireError>)
        requires
            0 <= i < fs.len(),
            fs[i].1 == r@,
            map_of(sel(fs.take(i), fs[i].0), val_msg(InspectorAssignmentsV::from_raw_fn())) == Some(old(cur)@),
        ensures
            res is Ok ==> map_of(sel(fs.take(i + 1), fs[i].0), val_msg(InspectorAssignmentsV::from_raw_fn())) == Some(final(cur)@),
            res is Err ==> map_of(sel(fs, fs[i].0), val_msg(InspectorAssignmentsV::from_raw_fn())) is None,
    {
        proof {
            lemma_concat_of_at(fs, i, conv_entry(val_msg(InspectorAssignmentsV::from_raw_fn())));
        }
        let ef = raw_fields(r)?;
        let ghost efs = fields_view(ef@);
        let mut key = String::new();
        let mut value_fields: Vec<RawField> = Vec::new();
        let mut value_present = false;
        let mut j: usize = 0;
        proof {
            assert(efs.take(0) =~= Seq::<(u32, RawV)>::empty());
            assert(fields_view(Seq::<RawField>::empty()) =~= Seq::<(u32, RawV)>::empty());
            if (conv_entry(val_msg(InspectorAssignmentsV::from_raw_fn())))(r@) is None {
                assert(concat_of(sel(fs.take(i + 1), fs[i].0), conv_entry(val_msg(InspectorAssignmentsV::from_raw_fn()))) is None);
            }
        }
        while j < ef.len()
            invariant
                efs == fields_view(ef@),
                j <= ef@.len(),
                last_of(sel(efs.take(j as int), 1), conv_string(), Seq::<char>::empty()) == Some(key@),
                concat_of(sel(efs.take(j as int), 2), conv_fields()) == Some(fields_view(value_fields@)),
                value_present == (sel(efs.take(j as int), 2).len() > 0),
                (conv_fields())(r@) == Some(efs),
                (conv_entry(val_msg(InspectorAssignmentsV::from_raw_fn())))(r@) is None ==> map_of(sel(fs, fs[i].0), val_msg(InspectorAssignmentsV::from_raw_fn())) is None,
            decreases ef@.len() - j,
        {
            let f = &ef[j];
            proof {
                lemma_sel_take_step(efs, j as int);
            }
            if f.tag == 1 {
                step_string(&mut key, &f.value, Ghost(efs), Ghost(j as int))?;
            } else if f.tag == 2 {
                step_msg_fields(&mut value_fields, &mut value_present, &f.value, Ghost(efs), Ghost(j as int))?;
            }
            j = j + 1;
        }
        proof {
            assert(efs.take(j as int) =~= efs);
        }
        let value = InspectorAssignments::from_fields(&value_fields)?;
        proof {
            let p = concat_of(sel(fs.take(i), fs[i].0), conv_entry(val_msg(InspectorAssignmentsV::from_raw_fn()))).unwrap();
            assert((p + seq![(key@, value@)]).drop_last() =~= p);
        }
        cur.insert(key, value);
        Ok(())
    }

}

impl Default for InspectorAssignments {
    fn default() -> (r: InspectorAssignments)
        ensures
            r@ == InspectorAssignmentsV::default_value(),
    {
        let r = InspectorAssignments {
            main_inspectors: Vec::new(),
            backup_inspectors: Vec::new(),
        };
        proof {
            assert(r@.main_inspectors =~= InspectorAssignmentsV::default_value().main_inspectors);
            assert(r@.backup_inspectors =~= InspectorAssignmentsV::default_value().backup_inspectors);
            assert(r@ =~= InspectorAssignmentsV::default_value());
        }
        r
    }
}

impl ProtoMessage for InspectorAssignments {
    open spec fn encoded(m: InspectorAssignmentsV) -> Seq<u8> {
        m.encode()
    }

    open spec fn decoded(bytes: Seq<u8>) -> Option<InspectorAssignmentsV> {
        InspectorAssignmentsV::decode(bytes)
    }

    fn encode_bytes(&self) -> (r: Vec<u8>) {
        self.encode_to_vec()
    }

    fn decode_bytes(bytes: &[u8]) -> (r: Result<InspectorAssignments, WireError>) {
        InspectorAssignments::decode(bytes)
    }
}

/// Which inspectors inspect which paths in an era.
#[derive(Debug)]
pub struct AssignmentTable {
    pub cluster_id: String,
    pub era: u64,
    pub irf: u32,
    pub paths: StringMap<InspectionPath>,
    pub assignments: StringMap<InspectorAssignments>,
    pub collective_seed: u64,
    pub builder: String,
    pub submitted_at: u64,
    pub archived_cid: Vec<u8>,
    pub archived_at: u64,
    pub archival_status: i32,
}

/// The value of a [`AssignmentTable`].
pub struct AssignmentTableV {
    pub cluster_id: Seq<char>,
    pub era: u64,
    pub irf: u32,
    pub paths: Seq<(Seq<char>, InspectionPathV)>,
    pub assignments: Seq<(Seq<char>, InspectorAssignmentsV)>,
    pub collective_seed: u64,
    pub builder: Seq<char>,
    pub submitted_at: u64,
    pub archived_cid: Seq<u8>,
    pub archived_at: u64,
    pub archival_status: i32,
}

impl View for AssignmentTable {
    type V = AssignmentTableV;

    open spec fn view(&self) -> AssignmentTableV {
        AssignmentTableV {
            cluster_id: self.cluster_id@,
            era: self.era,
            irf: self.irf,
            paths: self.paths@,
            assignments: self.assignments@,
            collective_seed: self.collective_seed,
            builder: self.builder@,
            submitted_at: self.submitted_at,
            archived_cid: self.archived_cid@,
            archived_at: self.archived_at,
            archival_status: self.archival_status,
        }
    }
}

impl AssignmentTableV {
    /// The message with every field at its default.
    pub open spec fn default_value() -> AssignmentTableV {
        AssignmentTableV {
            cluster_id: Seq::<char>::empty(),
            era: 0,
            irf: 0,
            paths: Seq::<(Seq<char>, InspectionPathV)>::empty(),
            assignments: Seq::<(Seq<char>, InspectorAssignmentsV)>::empty(),
            collective_seed: 0,
            builder: Seq::<char>::empty(),
            submitted_at: 0,
            archived_cid: Seq::<u8>::empty(),
            archived_at: 0,
            archival_status: 0,
        }
    }

    /// Map fields hold their keys in order, each once, here and in nested messages.
    pub open spec fn wf(self) -> bool {
        &&& keys_sorted(self.paths)
        &&& (forall|i: int| 0 <= i < self.paths.len() ==> (#[trigger] self.paths[i]).1.wf())
        &&& keys_sorted(self.assignments)
        &&& (forall|i: int| 0 <= i < self.assignments.len() ==> (#[trigger] self.assignments[i]).1.wf())
    }

    pub open spec fn piece_cluster_id(self) -> Seq<(u32, RawV)> {
        piece(1, vals_string(self.cluster_id))
    }

    pub open spec fn piece_era(self) -> Seq<(u32, RawV)> {
        piece(2, vals_u64(self.era))
    }

    pub open spec fn piece_irf(self) -> Seq<(u32, RawV)> {
        piece(3, vals_u32(self.irf))
    }

    pub open spec fn piece_paths(self) -> Seq<(u32, RawV)> {
        piece(4, vals_map(self.paths, venc_msg(InspectionPathV::encode_fn())))
    }

    pub open spec fn piece_assignments(self) -> Seq<(u32, RawV)> {
        piece(5, vals_map(self.assignments, venc_msg(InspectorAssignmentsV::encode_fn())))
    }

    pub open spec fn piece_collective_seed(self) -> Seq<(u32, RawV)> {
        piece(6, vals_u64(self.collective_seed))
    }

    pub open spec fn piece_builder(self) -> Seq<(u32, RawV)> {
        piece(7, vals_string(self.builder))
    }

    pub open spec fn piece_submitted_at(self) -> Seq<(u32, RawV)> {
        piece(8, vals_u64(self.submitted_at))
    }

    pub open spec fn piece_archived_cid(self) -> Seq<(u32, RawV)> {
        piece(9, vals_bytes(self.archived_cid))
    }

    pub open spec fn piece_archived_at(self) -> Seq<(u32, RawV)> {
        piece(10, vals_u64(self.archived_at))
    }

    pub open spec fn piece_archival_status(self) -> Seq<(u32, RawV)> {
        piece(11, vals_i32(self.archival_status))
    }

    /// The raw fields the message is written as, in field order.
    pub open spec fn to_raw(self) -> Seq<(u32, RawV)> {
        self.piece_cluster_id() + self.piece_era() + self.piece_irf() + self.piece_paths() + self.piece_assignments() + self.piece_collective_seed() + self.piece_builder() + self.piece_submitted_at() + self.piece_archived_cid() + self.piece_archived_at() + self.piece_archival_status()
    }

    /// The message read from raw fields, as prost reads it.
    pub open spec fn from_raw(fs: Seq<(u32, RawV)>) -> Option<AssignmentTableV> {
        let cluster_id = last_of(sel(fs, 1), conv_string(), Seq::<char>::empty());
        let era = last_of(sel(fs, 2), conv_u64(), 0);
        let irf = last_of(sel(fs, 3), conv_u32(), 0);
        let paths = map_of(sel(fs, 4), val_msg(InspectionPathV::from_raw_fn()));
        let assignments = map_of(sel(fs, 5), val_msg(InspectorAssignmentsV::from_raw_fn()));
        let collective_seed = last_of(sel(fs, 6), conv_u64(), 0);
        let builder = last_of(sel(fs, 7), conv_string(), Seq::<char>::empty());
        let submitted_at = last_of(sel(fs, 8), conv_u64(), 0);
        let archived_cid = last_of(sel(fs, 9), conv_bytes(), Seq::<u8>::empty());
        let archived_at = last_of(sel(fs, 10), conv_u64(), 0);
        let archival_status = last_of(sel(fs, 11), conv_i32(), 0);
        if cluster_id is Some && era is Some && irf is Some && paths is Some && assignments is Some && collective_seed is Some && builder is Some && submitted_at is Some && archived_cid is Some && archived_at is Some && archival_status is Some {
            Some(AssignmentTableV {
                cluster_id: cluster_id.unwrap(),
                era: era.unwrap(),
                irf: irf.unwrap(),
                paths: paths.unwrap(),
                assignments: assignments.unwrap(),
                collective_seed: collective_seed.unwrap(),
                builder: builder.unwrap(),
                submitted_at: submitted_at.unwrap(),
                archived_cid: archived_cid.unwrap(),
                archived_at: archived_at.unwrap(),
                archival_status: archival_status.unwrap(),
            })
        } else {
            None
        }
    }

    pub open spec fn from_raw_fn() -> spec_fn(Seq<(u32, RawV)>) -> Option<AssignmentTableV> {
        |fs: Seq<(u32, RawV)>| AssignmentTableV::from_raw(fs)
    }

    /// The protobuf encoding of the message.
    pub open spec fn encode(self) -> Seq<u8> {
        encode_fields(self.to_raw())
    }

    pub open spec fn encode_fn() -> spec_fn(AssignmentTableV) -> Seq<u8> {
        |m: AssignmentTableV| m.encode()
    }

    /// The message read from bytes, if they hold one.
    pub open spec fn decode(s: Seq<u8>) -> Option<AssignmentTableV> {
        decode_with(s, AssignmentTableV::from_raw_fn())
    }

    /// The encoding is the encodings of the fields one after the other.
    pub proof fn lemma_encode_split(self)
        ensures
            self.encode() == encode_fields(self.piece_cluster_id()) + encode_fields(self.piece_era()) + encode_fields(self.piece_irf()) + encode_fields(self.piece_paths()) + encode_fields(self.piece_assignments()) + encode_fields(self.piece_collective_seed()) + encode_fields(self.piece_builder()) + encode_fields(self.piece_submitted_at()) + encode_fields(self.piece_archived_cid()) + encode_fields(self.piece_archived_at()) + encode_fields(self.piece_archival_status()),
    {
        lemma_encode_fields_concat(self.piece_cluster_id(), self.piece_era());
        lemma_encode_fields_concat(self.piece_cluster_id() + self.piece_era(), self.piece_irf());
        lemma_encode_fields_concat(self.piece_cluster_id() + self.piece_era() + self.piece_irf(), self.piece_paths());
        lemma_encode_fields_concat(self.piece_cluster_id() + self.piece_era() + self.piece_irf() + self.piece_paths(), self.piece_assignments());
        lemma_encode_fields_concat(self.piece_cluster_id() + self.piece_era() + self.piece_irf() + self.piece_paths() + self.piece_assignments(), self.piece_collective_seed());
        lemma_encode_fields_concat(self.piece_cluster_id() + self.piece_era() + self.piece_irf() + self.piece_paths() + self.piece_assignments() + self.piece_collective_seed(), self.piece_builder());
        lemma_encode_fields_concat(self.piece_cluster_id() + self.piece_era() + self.piece_irf() + self.piece_paths() + self.piece_assignments() + self.piece_collective_seed() + self.piece_builder(), self.piece_submitted_at());
        lemma_encode_fields_concat(self.piece_cluster_id() + self.piece_era() + self.piece_irf() + self.piece_paths() + self.piece_assignments() + self.piece_collective_seed() + self.piece_builder() + self.piece_submitted_at(), self.piece_archived_cid());
        lemma_encode_fields_concat(self.piece_cluster_id() + self.piece_era() + self.piece_irf() + self.piece_paths() + self.piece_assignments() + self.piece_collective_seed() + self.piece_builder() + self.piece_submitted_at() + self.piece_archived_cid(), self.piece_archived_at());
        lemma_encode_fields_concat(self.piece_cluster_id() + self.piece_era() + self.piece_irf() + self.piece_paths() + self.piece_assignments() + self.piece_collective_seed() + self.piece_builder() + self.piece_submitted_at() + self.piece_archived_cid() + self.piece_archived_at(), self.piece_archival_status());
    }

    /// Reading the raw fields of a message gives the message back.
    #[verifier::spinoff_prover]
    #[verifier::rlimit(60)]
    pub proof fn lemma_from_to_raw(self)
        requires
            self.wf(),
            self.encode().len() <= u64::MAX,
        ensures
            AssignmentTableV::from_raw(self.to_raw()) == Some(self),
            fields_ok(self.to_raw()),
        decreases self.encode().len(),
    {
        let fs = self.to_raw();
        self.lemma_encode_split();
        assert(sel(fs, 1) =~= vals_string(self.cluster_id));
        lemma_string_round_trip(self.cluster_id);
        lemma_piece_ok(1, vals_string(self.cluster_id));
        assert(sel(fs, 2) =~= vals_u64(self.era));
        lemma_u64_round_trip(self.era);
        lemma_piece_ok(2, vals_u64(self.era));
        lemma_fields_ok_concat(self.piece_cluster_id(), self.piece_era());
        assert(sel(fs, 3) =~= vals_u32(self.irf));
        lemma_u32_round_trip(self.irf);
        lemma_piece_ok(3, vals_u32(self.irf));
        lemma_fields_ok_concat(self.piece_cluster_id() + self.piece_era(), self.piece_irf());
        assert(sel(fs, 4) =~= vals_map(self.paths, venc_msg(InspectionPathV::encode_fn())));
        assert forall|i: int| 0 <= i < self.paths.len() implies {
            &&& (val_msg(InspectionPathV::from_raw_fn()))((venc_msg(InspectionPathV::encode_fn()))((#[trigger] self.paths[i]).1)) == Some(self.paths[i].1)
            &&& vals_ok((venc_msg(InspectionPathV::encode_fn()))(self.paths[i].1))
            &&& encode_fields(entry_raw(self.paths[i].0, (venc_msg(InspectionPathV::encode_fn()))(self.paths[i].1))).len() <= u64::MAX
        } by {
            lemma_piece_payload_bound(4, vals_map(self.paths, venc_msg(InspectionPathV::encode_fn())), i);
            let m = self.paths[i].1;
            lemma_entry_payload_bound(self.paths[i].0, m.encode());
            m.lemma_from_to_raw();
            lemma_val_msg_round_trip(m, m.encode(), m.to_raw(), InspectionPathV::from_raw_fn());
        }
        lemma_map_round_trip(self.paths, val_msg(InspectionPathV::from_raw_fn()), venc_msg(InspectionPathV::encode_fn()));
        lemma_piece_ok(4, vals_map(self.paths, venc_msg(InspectionPathV::encode_fn())));
        lemma_fields_ok_concat(self.piece_cluster_id() + self.piece_era() + self.piece_irf(), self.piece_paths());
        assert(sel(fs, 5) =~= vals_map(self.assignments, venc_msg(InspectorAssignmentsV::encode_fn())));
        assert forall|i: int| 0 <= i < self.assignments.len() implies {
            &&& (val_msg(InspectorAssignmentsV::from_raw_fn()))((venc_msg(InspectorAssignmentsV::encode_fn()))((#[trigger] self.assignments[i]).1)) == Some(self.assignments[i].1)
            &&& vals_ok((venc_msg(InspectorAssignmentsV::encode_fn()))(self.assignments[i].1))
            &&& encode_fields(entry_raw(self.assignments[i].0, (venc_msg(InspectorAssignmentsV::encode_fn()))(self.assignments[i].1))).len() <= u64::MAX
        } by {
            lemma_piece_payload_bound(5, vals_map(self.assignments, venc_msg(InspectorAssignmentsV::encode_fn())), i);
            let m = self.assignments[i].1;
            lemma_entry_payload_bound(self.assignments[i].0, m.encode());
            m.lemma_from_to_raw();
            lemma_val_msg_round_trip(m, m.encode(), m.to_raw(), InspectorAssignmentsV::from_raw_fn());
        }
        lemma_map_round_trip(self.assignments, val_msg(InspectorAssignmentsV::from_raw_fn()), venc_msg(InspectorAssignmentsV::encode_fn()));
        lemma_piece_ok(5, vals_map(self.assignments, venc_msg(InspectorAssignmentsV::encode_fn())));
        lemma_fields_ok_concat(self.piece_cluster_id() + self.piece_era() + self.piece_irf() + self.piece_paths(), self.piece_assignments());
        assert(sel(fs, 6) =~= vals_u64(self.collective_seed));
        lemma_u64_round_trip(self.collective_seed);
        lemma_piece_ok(6, vals_u64(self.collective_seed));
        lemma_fields_ok_concat(self.piece_cluster_id() + self.piece_era() + self.piece_irf() + self.piece_paths() + self.piece_assignments(), self.piece_collective_seed());
        assert(sel(fs, 7) =~= vals_string(self.builder));
        lemma_string_round_trip(self.builder);
        lemma_piece_ok(7, vals_string(self.builder));
        lemma_fields_ok_concat(self.piece_cluster_id() + self.piece_era() + self.piece_irf() + self.piece_paths() + self.piece_assignments() + self.piece_collective_seed(), self.piece_builder());
        assert(sel(fs, 8) =~= vals_u64(self.submitted_at));
        lemma_u64_round_trip(self.submitted_at);
        lemma_piece_ok(8, vals_u64(self.submitted_at));
        lemma_fields_ok_concat(self.piece_cluster_id() + self.piece_era() + self.piece_irf() + self.piece_paths() + self.piece_assignments() + self.piece_collective_seed() + self.piece_builder(), self.piece_submitted_at());
        assert(sel(fs, 9) =~= vals_bytes(self.archived_cid));
        lemma_bytes_round_trip(self.archived_cid);
        lemma_piece_ok(9, vals_bytes(self.archived_cid));
        lemma_fields_ok_concat(self.piece_cluster_id() + self.piece_era() + self.piece_irf() + self.piece_paths() + self.piece_assignments() + self.piece_collective_seed() + self.piece_builder() + self.piece_submitted_at(), self.piece_archived_cid());
        assert(sel(fs, 10) =~= vals_u64(self.archived_at));
        lemma_u64_round_trip(self.archived_at);
        lemma_piece_ok(10, vals_u64(self.archived_at));
        lemma_fields_ok_concat(self.piece_cluster_id() + self.piece_era() + self.piece_irf() + self.piece_paths() + self.piece_assignments() + self.piece_collective_seed() + self.piece_builder() + self.piece_submitted_at() + self.piece_archived_cid(), self.piece_archived_at());
        assert(sel(fs, 11) =~= vals_i32(self.archival_status));
        lemma_i32_round_trip(self.archival_status);
        lemma_piece_ok(11, vals_i32(self.archival_status));
        lemma_fields_ok_concat(self.piece_cluster_id() + self.piece_era() + self.piece_irf() + self.piece_paths() + self.piece_assignments() + self.piece_collective_seed() + self.piece_builder() + self.piece_submitted_at() + self.piece_archived_cid() + self.piece_archived_at(), self.piece_archival_status());
    }

    pub open spec fn to_raw_fn() -> spec_fn(AssignmentTableV) -> Seq<(u32, RawV)> {
        |m: AssignmentTableV| m.to_raw()
    }
}

/// Decoding the encoding of a assignment table gives it back.
pub proof fn lemma_assignment_table_round_trip(m: AssignmentTableV)
    requires
        m.wf(),
        m.encode().len() <= u64::MAX,
    ensures
        AssignmentTableV::decode(m.encode()) == Some(m),
{
    m.lemma_from_to_raw();
    lemma_parse_encode_fields(m.to_raw());
}

/// Empty bytes decode to the default assignment table.
pub proof fn lemma_assignment_table_decode_empty()
    ensures
        AssignmentTableV::decode(Seq::empty()) == Some(AssignmentTableV::default_value()),
{
    let e = Seq::<(u32, RawV)>::empty();
    assert(sel(e, 1) == Seq::<RawV>::empty());
    assert(sel(e, 2) == Seq::<RawV>::empty());
    assert(sel(e, 3) == Seq::<RawV>::empty());
    assert(sel(e, 4) == Seq::<RawV>::empty());
    assert(sel(e, 5) == Seq::<RawV>::empty());
    assert(sel(e, 6) == Seq::<RawV>::empty());
    assert(sel(e, 7) == Seq::<RawV>::empty());
    assert(sel(e, 8) == Seq::<RawV>::empty());
    assert(sel(e, 9) == Seq::<RawV>::empty());
    assert(sel(e, 10) == Seq::<RawV>::empty());
    assert(sel(e, 11) == Seq::<RawV>::empty());
}

impl AssignmentTable {
    /// Appends the protobuf encoding of the message.
    #[verifier::spinoff_prover]
    #[verifier::rlimit(60)]
    pub fn encode_raw(&self, buf: &mut Vec<u8>)
        ensures
            final(buf)@ == old(buf)@ + self@.encode(),
    {
        let ghost m = self@;
        put_string_field(buf, 1, &self.cluster_id);
        put_u64_field(buf, 2, self.era);
        proof {
            assert(buf@ =~= old(buf)@ + (encode_fields(m.piece_cluster_id()) + encode_fields(m.piece_era())));
        }
        put_u32_field(buf, 3, self.irf);
        proof {
            assert(buf@ =~= old(buf)@ + (encode_fields(m.piece_cluster_id()) + encode_fields(m.piece_era()) + encode_fields(m.piece_irf())));
        }
        InspectionPath::put_map(buf, 4, &self.paths);
        proof {
            assert(buf@ =~= old(buf)@ + (encode_fields(m.piece_cluster_id()) + encode_fields(m.piece_era()) + encode_fields(m.piece_irf()) + encode_fields(m.piece_paths())));
        }
        InspectorAssignments::put_map(buf, 5, &self.assignments);
        proof {
            assert(buf@ =~= old(buf)@ + (encode_fields(m.piece_cluster_id()) + encode_fields(m.piece_era()) + encode_fields(m.piece_irf()) + encode_fields(m.piece_paths()) + encode_fields(m.piece_assignments())));
        }
        put_u64_field(buf, 6, self.collective_seed);
        proof {
            assert(buf@ =~= old(buf)@ + (encode_fields(m.piece_cluster_id()) + encode_fields(m.piece_era()) + encode_fields(m.piece_irf()) + encode_fields(m.piece_paths()) + encode_fields(m.piece_assignments()) + encode_fields(m.piece_collective_seed())));
        }
        put_string_field(buf, 7, &self.builder);
        proof {
            assert(buf@ =~= old(buf)@ + (encode_fields(m.piece_cluster_id()) + encode_fields(m.piece_era()) + encode_fields(m.piece_irf()) + encode_fields(m.piece_paths()) + encode_fields(m.piece_assignments()) + encode_fields(m.piece_collective_seed()) + encode_fields(m.piece_builder())));
        }
        put_u64_field(buf, 8, self.submitted_at);
        proof {
            assert(buf@ =~= old(buf)@ + (encode_fields(m.piece_cluster_id()) + encode_fields(m.piece_era()) + encode_fields(m.piece_irf()) + encode_fields(m.piece_paths()) + encode_fields(m.piece_assignments()) + encode_fields(m.piece_collective_seed()) + encode_fields(m.piece_builder()) + encode_fields(m.piece_submitted_at())));
        }
        put_bytes_field(buf, 9, self.archived_cid.as_slice());
        proof {
            assert(buf@ =~= old(buf)@ + (encode_fields(m.piece_cluster_id()) + encode_fields(m.piece_era()) + encode_fields(m.piece_irf()) + encode_fields(m.piece_paths()) + encode_fields(m.piece_assignments()) + encode_fields(m.piece_collective_seed()) + encode_fields(m.piece_builder()) + encode_fields(m.piece_submitted_at()) + encode_fields(m.piece_archived_cid())));
        }
        put_u64_field(buf, 10, self.archived_at);
        proof {
            assert(buf@ =~= old(buf)@ + (encode_fields(m.piece_cluster_id()) + encode_fields(m.piece_era()) + encode_fields(m.piece_irf()) + encode_fields(m.piece_paths()) + encode_fields(m.piece_assignments()) + encode_fields(m.piece_collective_seed()) + encode_fields(m.piece_builder()) + encode_fields(m.piece_submitted_at()) + encode_fields(m.piece_archived_cid()) + encode_fields(m.piece_archived_at())));
        }
        put_i32_field(buf, 11, self.archival_status);
        proof {
            assert(buf@ =~= old(buf)@ + (encode_fields(m.piece_cluster_id()) + encode_fields(m.piece_era()) + encode_fields(m.piece_irf()) + encode_fields(m.piece_paths()) + encode_fields(m.piece_assignments()) + encode_fields(m.piece_collective_seed()) + encode_fields(m.piece_builder()) + encode_fields(m.piece_submitted_at()) + encode_fields(m.piece_archived_cid()) + encode_fields(m.piece_archived_at()) + encode_fields(m.piece_archival_status())));
        }
        proof {
            m.lemma_encode_split();
        }
    }

    /// The protobuf encoding of the message.
    pub fn encode_to_vec(&self) -> (r: Vec<u8>)
        ensures
            r@ == self@.encode(),
    {
        let mut buf = Vec::new();
        self.encode_raw(&mut buf);
        proof {
            assert(buf@ =~= self@.encode());
        }
        buf
    }

    /// Reads the message from its raw fields.
    #[verifier::spinoff_prover]
    #[verifier::rlimit(60)]
    pub fn from_fields(fields: &Vec<RawField>) -> (res: Result<AssignmentTable, WireError>)
        ensures
            match AssignmentTableV::from_raw(fields_view(fields@)) {
                Some(m) => res matches Ok(x) && x@ == m,
                None => res is Err,
            },
    {
        let ghost fs = fields_view(fields@);
        let mut cluster_id: String = String::new();
        let mut era: u64 = 0;
        let mut irf: u32 = 0;
        let mut paths: StringMap<InspectionPath> = StringMap::new();
        let mut assignments: StringMap<InspectorAssignments> = StringMap::new();
        let mut collective_seed: u64 = 0;
        let mut builder: String = String::new();
        let mut submitted_at: u64 = 0;
        let mut archived_cid: Vec<u8> = Vec::new();
        let mut archived_at: u64 = 0;
        let mut archival_status: i32 = 0;
        let mut i: usize = 0;
        proof {
            assert(fs.take(0) =~= Seq::<(u32, RawV)>::empty());
            assert(fields_view(Seq::<RawField>::empty()) =~= Seq::<(u32, RawV)>::empty());
        }
        while i < fields.len()
            invariant
                fs == fields_view(fields@),
                i <= fields@.len(),
                last_of(sel(fs.take(i as int), 1), conv_string(), Seq::<char>::empty()) == Some(cluster_id@),
                last_of(sel(fs.take(i as int), 2), conv_u64(), 0) == Some(era),
                last_of(sel(fs.take(i as int), 3), conv_u32(), 0) == Some(irf),
                map_of(sel(fs.take(i as int), 4), val_msg(InspectionPathV::from_raw_fn())) == Some(paths@),
                map_of(sel(fs.take(i as int), 5), val_msg(InspectorAssignmentsV::from_raw_fn())) == Some(assignments@),
                last_of(sel(fs.take(i as int), 6), conv_u64(), 0) == Some(collective_seed),
                last_of(sel(fs.take(i as int), 7), conv_string(), Seq::<char>::empty()) == Some(builder@),
                last_of(sel(fs.take(i as int), 8), conv_u64(), 0) == Some(submitted_at),
                last_of(sel(fs.take(i as int), 9), conv_bytes(), Seq::<u8>::empty()) == Some(archived_cid@),
                last_of(sel(fs.take(i as int), 10), conv_u64(), 0) == Some(archived_at),
                last_of(sel(fs.take(i as int), 11), conv_i32(), 0) == Some(archival_status),
            decreases fields@.len() - i,
        {
            let f = &fields[i];
            proof {
                lemma_sel_take_step(fs, i as int);
            }
            if f.tag == 1 {
                step_string(&mut cluster_id, &f.value, Ghost(fs), Ghost(i as int))?;
            } else if f.tag == 2 {
                step_u64(&mut era, &f.value, Ghost(fs), Ghost(i as int))?;
            } else if f.tag == 3 {
                step_u32(&mut irf, &f.value, Ghost(fs), Ghost(i as int))?;
            } else if f.tag == 4 {
                InspectionPath::step_map(&mut paths, &f.value, Ghost(fs), Ghost(i as int))?;
            } else if f.tag == 5 {
                InspectorAssignments::step_map(&mut assignments, &f.value, Ghost(fs), Ghost(i as int))?;
            } else if f.tag == 6 {
                step_u64(&mut collective_seed, &f.value, Ghost(fs), Ghost(i as int))?;
            } else if f.tag == 7 {
                step_string(&mut builder, &f.value, Ghost(fs), Ghost(i as int))?;
            } else if f.tag == 8 {
                step_u64(&mut submitted_at, &f.value, Ghost(fs), Ghost(i as int))?;
            } else if f.tag == 9 {
                step_bytes(&mut archived_cid, &f.value, Ghost(fs), Ghost(i as int))?;
            } else if f.tag == 10 {
                step_u64(&mut archived_at, &f.value, Ghost(fs), Ghost(i as int))?;
            } else if f.tag == 11 {
                step_i32(&mut archival_status, &f.value, Ghost(fs), Ghost(i as int))?;
            }
            i = i + 1;
        }
        proof {
            assert(fs.take(i as int) =~= fs);
        }
        Ok(AssignmentTable { cluster_id, era, irf, paths, assignments, collective_seed, builder, submitted_at, archived_cid, archived_at, archival_status })
    }

    /// Reads the message from its protobuf encoding.
    pub fn decode(bytes: &[u8]) -> (res: Result<AssignmentTable, WireError>)
        ensures
            match AssignmentTableV::decode(bytes@) {
                Some(m) => res matches Ok(x) && x@ == m,
                None => res is Err,
            },
    {
        let fields = parse_fields_exec(bytes)?;
        AssignmentTable::from_fields(&fields)
    }

}

impl Default for AssignmentTable {
    fn default() -> (r: AssignmentTable)
        ensures
            r@ == AssignmentTableV::default_value(),
    {
        let r = AssignmentTable {
            cluster_id: String::new(),
            era: 0,
            irf: 0,
            paths: StringMap::new(),
            assignments: StringMap::new(),
            collective_seed: 0,
            builder: String::new(),
            submitted_at: 0,
            archived_cid: Vec::new(),
            archived_at: 0,
            archival_status: 0,
        };
        proof {
            assert(r@.cluster_id =~= AssignmentTableV::default_value().cluster_id);
            assert(r@.paths =~= AssignmentTableV::default_value().paths);
            assert(r@.assignments =~= AssignmentTableV::default_value().assignments);
            assert(r@.builder =~= AssignmentTableV::default_value().builder);
            assert(r@.archived_cid =~= AssignmentTableV::default_value().archived_cid);
            assert(r@ =~= AssignmentTableV::default_value());
        }
        r
    }
}

impl ProtoMessage for AssignmentTable {
    open spec fn encoded(m: AssignmentTableV) -> Seq<u8> {
        m.encode()
    }

    open spec fn decoded(bytes: Seq<u8>) -> Option<AssignmentTableV> {
        AssignmentTableV::decode(bytes)
    }

    fn encode_bytes(&self) -> (r: Vec<u8>) {
        self.encode_to_vec()
    }

    fn decode_bytes(bytes: &[u8]) -> (r: Result<AssignmentTable, WireError>) {
        AssignmentTable::decode(bytes)
    }
}

/// Submission of a completed assignment table.
#[derive(Debug)]
pub struct PostAssignmentTableRequest {
    pub era_id: u64,
    pub inspector_key: String,
    pub table: Option<AssignmentTable>,
}

/// The value of a [`PostAssignmentTableRequest`].
pub struct PostAssignmentTableRequestV {
    pub era_id: u64,
    pub inspector_key: Seq<char>,
    pub table: Option<AssignmentTableV>,
}

impl View for PostAssignmentTableRequest {
    type V = PostAssignmentTableRequestV;

    open spec fn view(&self) -> PostAssignmentTableRequestV {
        PostAssignmentTableRequestV {
            era_id: self.era_id,
            inspector_key: self.inspector_key@,
            table: match &self.table { Some(m) => Some(m@), None => None },
        }
    }
}

impl PostAssignmentTableRequestV {
    /// The message with every field at its default.
    pub open spec fn default_value() -> PostAssignmentTableRequestV {
        PostAssignmentTableRequestV {
            era_id: 0,
            inspector_key: Seq::<char>::empty(),
            table: None,
        }
    }

    /// Map fields hold their keys in order, each once, here and in nested messages.
    pub open spec fn wf(self) -> bool {
        &&& (self.table matches Some(m) ==> m.wf())
    }

    pub open spec fn piece_era_id(self) -> Seq<(u32, RawV)> {
        piece(1, vals_u64(self.era_id))
    }

    pub open spec fn piece_inspector_key(self) -> Seq<(u32, RawV)> {
        piece(2, vals_string(self.inspector_key))
    }

    pub open spec fn piece_table(self) -> Seq<(u32, RawV)> {
        piece(3, vals_opt_msg(match self.table { Some(m) => Some(m.encode()), None => None }))
    }

    /// The raw fields the message is written as, in field order.
    pub open spec fn to_raw(self) -> Seq<(u32, RawV)> {
        self.piece_era_id() + self.piece_inspector_key() + self.piece_table()
    }

    /// The message read from raw fields, as prost reads it.
    pub open spec fn from_raw(fs: Seq<(u32, RawV)>) -> Option<PostAssignmentTableRequestV> {
        let era_id = last_of(sel(fs, 1), conv_u64(), 0);
        let inspector_key = last_of(sel(fs, 2), conv_string(), Seq::<char>::empty());
        let table = opt_msg(sel(fs, 3), AssignmentTableV::from_raw_fn());
        if era_id is Some && inspector_key is Some && table is Some {
            Some(PostAssignmentTableRequestV {
                era_id: era_id.unwrap(),
                inspector_key: inspector_key.unwrap(),
                table: table.unwrap(),
            })
        } else {
            None
        }
    }

    pub open spec fn from_raw_fn() -> spec_fn(Seq<(u32, RawV)>) -> Option<PostAssignmentTableRequestV> {
        |fs: Seq<(u32, RawV)>| PostAssignmentTableRequestV::from_raw(fs)
    }

    /// The protobuf encoding of the message.
    pub open spec fn encode(self) -> Seq<u8> {
        encode_fields(self.to_raw())
    }

    pub open spec fn encode_fn() -> spec_fn(PostAssignmentTableRequestV) -> Seq<u8> {
        |m: PostAssignmentTableRequestV| m.encode()
    }

    /// The message read from bytes, if they hold one.
    pub open spec fn decode(s: Seq<u8>) -> Option<PostAssignmentTableRequestV> {
        decode_with(s, PostAssignmentTableRequestV::from_raw_fn())
    }

    /// The encoding is the encodings of the fields one after the other.
    pub proof fn lemma_encode_split(self)
        ensures
            self.encode() == encode_fields(self.piece_era_id()) + encode_fields(self.piece_inspector_key()) + encode_fields(self.piece_table()),
    {
        lemma_encode_fields_concat(self.piece_era_id(), self.piece_inspector_key());
        lemma_encode_fields_concat(self.piece_era_id() + self.piece_inspector_key(), self.piece_table());
    }

    /// Reading the raw fields of a message gives the message back.
    pub proof fn lemma_from_to_raw(self)
        requires
            self.wf(),
            self.encode().len() <= u64::MAX,
        ensures
            PostAssignmentTableRequestV::from_raw(self.to_raw()) == Some(self),
            fields_ok(self.to_raw()),
        decreases self.encode().len(),
    {
        let fs = self.to_raw();
        self.lemma_encode_split();
        assert(sel(fs, 1) =~= vals_u64(self.era_id));
        lemma_u64_round_trip(self.era_id);
        lemma_piece_ok(1, vals_u64(self.era_id));
        assert(sel(fs, 2) =~= vals_string(self.inspector_key));
        lemma_string_round_trip(self.inspector_key);
        lemma_piece_ok(2, vals_string(self.inspector_key));
        lemma_fields_ok_concat(self.piece_era_id(), self.piece_inspector_key());
        assert(sel(fs, 3) =~= vals_opt_msg(match self.table { Some(m) => Some(m.encode()), None => None }));
        match self.table {
            Some(m) => {
                lemma_piece_payload_bound(3, vals_opt_msg(match self.table { Some(m) => Some(m.encode()), None => None }), 0);
                m.lemma_from_to_raw();
                lemma_opt_msg_round_trip(Some(m), m.encode(), m.to_raw(), AssignmentTableV::from_raw_fn());
            },
            None => {
                lemma_opt_msg_round_trip(None::<AssignmentTableV>, Seq::empty(), Seq::empty(), AssignmentTableV::from_raw_fn());
            },
        }
        lemma_piece_ok(3, vals_opt_msg(match self.table { Some(m) => Some(m.encode()), None => None }));
        lemma_fields_ok_concat(self.piece_era_id() + self.piece_inspector_key(), self.piece_table());
    }

    pub open spec fn to_raw_fn() -> spec_fn(PostAssignmentTableRequestV) -> Seq<(u32, RawV)> {
        |m: PostAssignmentTableRequestV| m.to_raw()
    }
}

/// Decoding the encoding of a post assignment table request gives it back.
pub proof fn lemma_post_assignment_table_request_round_trip(m: PostAssignmentTableRequestV)
    requires
        m.wf(),
        m.encode().len() <= u64::MAX,
    ensures
        PostAssignmentTableRequestV::decode(m.encode()) == Some(m),
{
    m.lemma_from_to_raw();
    lemma_parse_encode_fields(m.to_raw());
}

/// Empty bytes decode to the default post assignment table request.
pub proof fn lemma_post_assignment_table_request_decode_empty()
    ensures
        PostAssignmentTableRequestV::decode(Seq::empty()) == Some(PostAssignmentTableRequestV::default_value()),
{
    let e = Seq::<(u32, RawV)>::empty();
    assert(sel(e, 1) == Seq::<RawV>::empty());
    assert(sel(e, 2) == Seq::<RawV>::empty());
    assert(sel(e, 3) == Seq::<RawV>::empty());
}

impl PostAssignmentTableRequest {
    /// Appends the protobuf encoding of the message.
    pub fn encode_raw(&self, buf: &mut Vec<u8>)
        ensures
            final(buf)@ == old(buf)@ + self@.encode(),
    {
        let ghost m = self@;
        put_u64_field(buf, 1, self.era_id);
        put_string_field(buf, 2, &self.inspector_key);
        proof {
            assert(buf@ =~= old(buf)@ + (encode_fields(m.piece_era_id()) + encode_fields(m.piece_inspector_key())));
        }
        let enc = match &self.table {
            Some(sub) => Some(sub.encode_to_vec()),
            None => None,
        };
        put_opt_msg_field(buf, 3, enc);
        proof {
            assert(buf@ =~= old(buf)@ + (encode_fields(m.piece_era_id()) + encode_fields(m.piece_inspector_key()) + encode_fields(m.piece_table())));
        }
        proof {
            m.lemma_encode_split();
        }
    }

    /// The protobuf encoding of the message.
    pub fn encode_to_vec(&self) -> (r: Vec<u8>)
        ensures
            r@ == self@.encode(),
    {
        let mut buf = Vec::new();
        self.encode_raw(&mut buf);
        proof {
            assert(buf@ =~= self@.encode());
        }
        buf
    }

    /// Reads the message from its raw fields.
    pub fn from_fields(fields: &Vec<RawField>) -> (res: Result<PostAssignmentTableRequest, WireError>)
        ensures
            match PostAssignmentTableRequestV::from_raw(fields_view(fields@)) {
                Some(m) => res matches Ok(x) && x@ == m,
                None => res is Err,
            },
    {
        let ghost fs = fields_view(fields@);
        let mut era_id: u64 = 0;
        let mut inspector_key: String = String::new();
        let mut table_fields: Vec<RawField> = Vec::new();
        let mut table_present = false;
        let mut i: usize = 0;
        proof {
            assert(fs.take(0) =~= Seq::<(u32, RawV)>::empty());
            assert(fields_view(Seq::<RawField>::empty()) =~= Seq::<(u32, RawV)>::empty());
        }
        while i < fields.len()
            invariant
                fs == fields_view(fields@),
                i <= fields@.len(),
                last_of(sel(fs.take(i as int), 1), conv_u64(), 0) == Some(era_id),
                last_of(sel(fs.take(i as int), 2), conv_string(), Seq::<char>::empty()) == Some(inspector_key@),
                concat_of(sel(fs.take(i as int), 3), conv_fields()) == Some(fields_view(table_fields@)),
                table_present == (sel(fs.take(i as int), 3).len() > 0),
            decreases fields@.len() - i,
        {
            let f = &fields[i];
            proof {
                lemma_sel_take_step(fs, i as int);
            }
            if f.tag == 1 {
                step_u64(&mut era_id, &f.value, Ghost(fs), Ghost(i as int))?;
            } else if f.tag == 2 {
                step_string(&mut inspector_key, &f.value, Ghost(fs), Ghost(i as int))?;
            } else if f.tag == 3 {
                step_msg_fields(&mut table_fields, &mut table_present, &f.value, Ghost(fs), Ghost(i as int))?;
            }
            i = i + 1;
        }
        proof {
            assert(fs.take(i as int) =~= fs);
        }
        let table = if table_present {
            Some(AssignmentTable::from_fields(&table_fields)?)
        } else {
            None
        };
        Ok(PostAssignmentTableRequest { era_id, inspector_key, table })
    }

    /// Reads the message from its protobuf encoding.
    pub fn decode(bytes: &[u8]) -> (res: Result<PostAssignmentTableRequest, WireError>)
        ensures
            match PostAssignmentTableRequestV::decode(bytes@) {
                Some(m) => res matches Ok(x) && x@ == m,
                None => res is Err,
            },
    {
        let fields = parse_fields_exec(bytes)?;
        PostAssignmentTableRequest::from_fields(&fields)
    }

}

impl Default for PostAssignmentTableRequest {
    fn default() -> (r: PostAssignmentTableRequest)
        ensures
            r@ == PostAssignmentTableRequestV::default_value(),
    {
        let r = PostAssignmentTableRequest {
            era_id: 0,
            inspector_key: String::new(),
            table: None,
        };
        proof {
            assert(r@.inspector_key =~= PostAssignmentTableRequestV::default_value().inspector_key);
            assert(r@ =~= PostAssignmentTableRequestV::default_value());
        }
        r
    }
}

impl ProtoMessage for PostAssignmentTableRequest {
    open spec fn encoded(m: PostAssignmentTableRequestV) -> Seq<u8> {
        m.encode()
    }

    open spec fn decoded(bytes: Seq<u8>) -> Option<PostAssignmentTableRequestV> {
        PostAssignmentTableRequestV::decode(bytes)
    }

    fn encode_bytes(&self) -> (r: Vec<u8>) {
        self.encode_to_vec()
    }

    fn decode_bytes(bytes: &[u8]) -> (r: Result<PostAssignmentTableRequest, WireError>) {
        PostAssignmentTableRequest::decode(bytes)
    }
}

/// Answer to an assignment table submission.
#[derive(Debug)]
pub struct PostAssignmentTableResponse {
    pub status: i32,
    pub era_id: u64,
    pub submitted_at: u64,
    pub error_code: String,
    pub error_message: String,
}

/// The value of a [`PostAssignmentTableResponse`].
pub struct PostAssignmentTableResponseV {
    pub status: i32,
    pub era_id: u64,
    pub submitted_at: u64,
    pub error_code: Seq<char>,
    pub error_message: Seq<char>,
}

impl View for PostAssignmentTableResponse {
    type V = PostAssignmentTableResponseV;

    open spec fn view(&self) -> PostAssignmentTableResponseV {
        PostAssignmentTableResponseV {
            status: self.status,
            era_id: self.era_id,
            submitted_at: self.submitted_at,
            error_code: self.error_code@,
            error_message: self.error_message@,
        }
    }
}

impl PostAssignmentTableResponseV {
    /// The message with every field at its default.
    pub open spec fn default_value() -> PostAssignmentTableResponseV {
        PostAssignmentTableResponseV {
            status: 0,
            era_id: 0,
            submitted_at: 0,
            error_code: Seq::<char>::empty(),
            error_message: Seq::<char>::empty(),
        }
    }

    /// Map fields hold their keys in order, each once, here and in nested messages.
    pub open spec fn wf(self) -> bool {
        true
    }

    pub open spec fn piece_status(self) -> Seq<(u32, RawV)> {
        piece(1, vals_i32(self.status))
    }

    pub open spec fn piece_era_id(self) -> Seq<(u32, RawV)> {
        piece(2, vals_u64(self.era_id))
    }

    pub open spec fn piece_submitted_at(self) -> Seq<(u32, RawV)> {
        piece(3, vals_u64(self.submitted_at))
    }

    pub open spec fn piece_error_code(self) -> Seq<(u32, RawV)> {
        piece(4, vals_string(self.error_code))
    }

    pub open spec fn piece_error_message(self) -> Seq<(u32, RawV)> {
        piece(5, vals_string(self.error_message))
    }

    /// The raw fields the message is written as, in field order.
    pub open spec fn to_raw(self) -> Seq<(u32, RawV)> {
        self.piece_status() + self.piece_era_id() + self.piece_submitted_at() + self.piece_error_code() + self.piece_error_message()
    }

    /// The message read from raw fields, as prost reads it.
    pub open spec fn from_raw(fs: Seq<(u32, RawV)>) -> Option<PostAssignmentTableResponseV> {
        let status = last_of(sel(fs, 1), conv_i32(), 0);
        let era_id = last_of(sel(fs, 2), conv_u64(), 0);
        let submitted_at = last_of(sel(fs, 3), conv_u64(), 0);
        let error_code = last_of(sel(fs, 4), conv_string(), Seq::<char>::empty());
        let error_message = last_of(sel(fs, 5), conv_string(), Seq::<char>::empty());
        if status is Some && era_id is Some && submitted_at is Some && error_code is Some && error_message is Some {
            Some(PostAssignmentTableResponseV {
                status: status.unwrap(),
                era_id: era_id.unwrap(),
                submitted_at: submitted_at.unwrap(),
                error_code: error_code.unwrap(),
                error_message: error_message.unwrap(),
            })
        } else {
            None
        }
    }

    pub open spec fn from_raw_fn() -> spec_fn(Seq<(u32, RawV)>) -> Option<PostAssignmentTableResponseV> {
        |fs: Seq<(u32, RawV)>| PostAssignmentTableResponseV::from_raw(fs)
    }

    /// The protobuf encoding of the message.
    pub open spec fn encode(self) -> Seq<u8> {
        encode_fields(self.to_raw())
    }

    pub open spec fn encode_fn() -> spec_fn(PostAssignmentTableResponseV) -> Seq<u8> {
        |m: PostAssignmentTableResponseV| m.encode()
    }

    /// The message read from bytes, if they hold one.
    pub open spec fn decode(s: Seq<u8>) -> Option<PostAssignmentTableResponseV> {
        decode_with(s, PostAssignmentTableResponseV::from_raw_fn())
    }

    /// The encoding is the encodings of the fields one after the other.
    pub proof fn lemma_encode_split(self)
        ensures
            self.encode() == encode_fields(self.piece_status()) + encode_fields(self.piece_era_id()) + encode_fields(self.piece_submitted_at()) + encode_fields(self.piece_error_code()) + encode_fields(self.piece_error_message()),
    {
        lemma_encode_fields_concat(self.piece_status(), self.piece_era_id());
        lemma_encode_fields_concat(self.piece_status() + self.piece_era_id(), self.piece_submitted_at());
        lemma_encode_fields_concat(self.piece_status() + self.piece_era_id() + self.piece_submitted_at(), self.piece_error_code());
        lemma_encode_fields_concat(self.piece_status() + self.piece_era_id() + self.piece_submitted_at() + self.piece_error_code(), self.piece_error_message());
    }

    /// Reading the raw fields of a message gives the message back.
    pub proof fn lemma_from_to_raw(self)
        requires
            self.wf(),
            self.encode().len() <= u64::MAX,
        ensures
            PostAssignmentTableResponseV::from_raw(self.to_raw()) == Some(self),
            fields_ok(self.to_raw()),
        decreases self.encode().len(),
    {
        let fs = self.to_raw();
        self.lemma_encode_split();
        assert(sel(fs, 1) =~= vals_i32(self.status));
        lemma_i32_round_trip(self.status);
        lemma_piece_ok(1, vals_i32(self.status));
        assert(sel(fs, 2) =~= vals_u64(self.era_id));
        lemma_u64_round_trip(self.era_id);
        lemma_piece_ok(2, vals_u64(self.era_id));
        lemma_fields_ok_concat(self.piece_status(), self.piece_era_id());
        assert(sel(fs, 3) =~= vals_u64(self.submitted_at));
        lemma_u64_round_trip(self.submitted_at);
        lemma_piece_ok(3, vals_u64(self.submitted_at));
        lemma_fields_ok_concat(self.piece_status() + self.piece_era_id(), self.piece_submitted_at());
        assert(sel(fs, 4) =~= vals_string(self.error_code));
        lemma_string_round_trip(self.error_code);
        lemma_piece_ok(4, vals_string(self.error_code));
        lemma_fields_ok_concat(self.piece_status() + self.piece_era_id() + self.piece_submitted_at(), self.piece_error_code());
        assert(sel(fs, 5) =~= vals_string(self.error_message));
        lemma_string_round_trip(self.error_message);
        lemma_piece_ok(5, vals_string(self.error_message));
        lemma_fields_ok_concat(self.piece_status() + self.piece_era_id() + self.piece_submitted_at() + self.piece_error_code(), self.piece_error_message());
    }

    pub open spec fn to_raw_fn() -> spec_fn(PostAssignmentTableResponseV) -> Seq<(u32, RawV)> {
        |m: PostAssignmentTableResponseV| m.to_raw()
    }
}

/// Decoding the encoding of a post assignment table response gives it back.
pub proof fn lemma_post_assignment_table_response_round_trip(m: PostAssignmentTableResponseV)
    requires
        m.wf(),
        m.encode().len() <= u64::MAX,
    ensures
        PostAssignmentTableResponseV::decode(m.encode()) == Some(m),
{
    m.lemma_from_to_raw();
    lemma_parse_encode_fields(m.to_raw());
}

/// Empty bytes decode to the default post assignment table response.
pub proof fn lemma_post_assignment_table_response_decode_empty()
    ensures
        PostAssignmentTableResponseV::decode(Seq::empty()) == Some(PostAssignmentTableResponseV::default_value()),
{
    let e = Seq::<(u32, RawV)>::empty();
    assert(sel(e, 1) == Seq::<RawV>::empty());
    assert(sel(e, 2) == Seq::<RawV>::empty());
    assert(sel(e, 3) == Seq::<RawV>::empty());
    assert(sel(e, 4) == Seq::<RawV>::empty());
    assert(sel(e, 5) == Seq::<RawV>::empty());
}

impl PostAssignmentTableResponse {
    /// Appends the protobuf encoding of the message.
    pub fn encode_raw(&self, buf: &mut Vec<u8>)
        ensures
            final(buf)@ == old(buf)@ + self@.encode(),
    {
        let ghost m = self@;
        put_i32_field(buf, 1, self.status);
        put_u64_field(buf, 2, self.era_id);
        proof {
            assert(buf@ =~= old(buf)@ + (encode_fields(m.piece_status()) + encode_fields(m.piece_era_id())));
        }
        put_u64_field(buf, 3, self.submitted_at);
        proof {
            assert(buf@ =~= old(buf)@ + (encode_fields(m.piece_status()) + encode_fields(m.piece_era_id()) + encode_fields(m.piece_submitted_at())));
        }
        put_string_field(buf, 4, &self.error_code);
        proof {
            assert(buf@ =~= old(buf)@ + (encode_fields(m.piece_status()) + encode_fields(m.piece_era_id()) + encode_fields(m.piece_submitted_at()) + encode_fields(m.piece_error_code())));
        }
        put_string_field(buf, 5, &self.error_message);
        proof {
            assert(buf@ =~= old(buf)@ + (encode_fields(m.piece_status()) + encode_fields(m.piece_era_id()) + encode_fields(m.piece_submitted_at()) + encode_fields(m.piece_error_code()) + encode_fields(m.piece_error_message())));
        }
        proof {
            m.lemma_encode_split();
        }
    }

    /// The protobuf encoding of the message.
    pub fn encode_to_vec(&self) -> (r: Vec<u8>)
        ensures
            r@ == self@.encode(),
    {
        let mut buf = Vec::new();
        self.encode_raw(&mut buf);
        proof {
            assert(buf@ =~= self@.encode());
        }
        buf
    }

    /// Reads the message from its raw fields.
    pub fn from_fields(fields: &Vec<RawField>) -> (res: Result<PostAssignmentTableResponse, WireError>)
        ensures
            match PostAssignmentTableResponseV::from_raw(fields_view(fields@)) {
                Some(m) => res matches Ok(x) && x@ == m,
                None => res is Err,
            },
    {
        let ghost fs = fields_view(fields@);
        let mut status: i32 = 0;
        let mut era_id: u64 = 0;
        let mut submitted_at: u64 = 0;
        let mut error_code: String = String::new();
        let mut error_message: String = String::new();
        let mut i: usize = 0;
        proof {
            assert(fs.take(0) =~= Seq::<(u32, RawV)>::empty());
            assert(fields_view(Seq::<RawField>::empty()) =~= Seq::<(u32, RawV)>::empty());
        }
        while i < fields.len()
            invariant
                fs == fields_view(fields@),
                i <= fields@.len(),
                last_of(sel(fs.take(i as int), 1), conv_i32(), 0) == Some(status),
                last_of(sel(fs.take(i as int), 2), conv_u64(), 0) == Some(era_id),
                last_of(sel(fs.take(i as int), 3), conv_u64(), 0) == Some(submitted_at),
                last_of(sel(fs.take(i as int), 4), conv_string(), Seq::<char>::empty()) == Some(error_code@),
                last_of(sel(fs.take(i as int), 5), conv_string(), Seq::<char>::empty()) == Some(error_message@),
            decreases fields@.len() - i,
        {
            let f = &fields[i];
            proof {
                lemma_sel_take_step(fs, i as int);
            }
            if f.tag == 1 {
                step_i32(&mut status, &f.value, Ghost(fs), Ghost(i as int))?;
            } else if f.tag == 2 {
                step_u64(&mut era_id, &f.value, Ghost(fs), Ghost(i as int))?;
            } else if f.tag == 3 {
                step_u64(&mut submitted_at, &f.value, Ghost(fs), Ghost(i as int))?;
            } else if f.tag == 4 {
                step_string(&mut error_code, &f.value, Ghost(fs), Ghost(i as int))?;
            } else if f.tag == 5 {
                step_string(&mut error_message, &f.value, Ghost(fs), Ghost(i as int))?;
            }
            i = i + 1;
        }
        proof {
            assert(fs.take(i as int) =~= fs);
        }
        Ok(PostAssignmentTableResponse { status, era_id, submitted_at, error_code, error_message })
    }

    /// Reads the message from its protobuf encoding.
    pub fn decode(bytes: &[u8]) -> (res: Result<PostAssignmentTableResponse, WireError>)
        ensures
            match PostAssignmentTableResponseV::decode(bytes@) {
                Some(m) => res matches Ok(x) && x@ == m,
                None => res is Err,
            },
    {
        let fields = parse_fields_exec(bytes)?;
        PostAssignmentTableResponse::from_fields(&fields)
    }

}

impl Default for PostAssignmentTableResponse {
    fn default() -> (r: PostAssignmentTableResponse)
        ensures
            r@ == PostAssignmentTableResponseV::default_value(),
    {
        let r = PostAssignmentTableResponse {
            status: 0,
            era_id: 0,
            submitted_at: 0,
            error_code: String::new(),
            error_message: String::new(),
        };
        proof {
            assert(r@.error_code =~= PostAssignmentTableResponseV::default_value().error_code);
            assert(r@.error_message =~= PostAssignmentTableResponseV::default_value().error_message);
            assert(r@ =~= PostAssignmentTableResponseV::default_value());
        }
        r
    }
}

impl ProtoMessage for PostAssignmentTableResponse {
    open spec fn encoded(m: PostAssignmentTableResponseV) -> Seq<u8> {
        m.encode()
    }

    open spec fn decoded(bytes: Seq<u8>) -> Option<PostAssignmentTableResponseV> {
        PostAssignmentTableResponseV::decode(bytes)
    }

    fn encode_bytes(&self) -> (r: Vec<u8>) {
        self.encode_to_vec()
    }

    fn decode_bytes(bytes: &[u8]) -> (r: Result<PostAssignmentTableResponse, WireError>) {
        PostAssignmentTableResponse::decode(bytes)
    }
}

/// An era's assignment table, or where its building stands.
#[derive(Debug)]
pub struct GetAssignmentTableResponse {
    pub status: i32,
    pub era_id: u64,
    pub table: Option<AssignmentTable>,
    pub lease_holder: String,
    pub lease_expires_at: u64,
}

/// The value of a [`GetAssignmentTableResponse`].
pub struct GetAssignmentTableResponseV {
    pub status: i32,
    pub era_id: u64,
    pub table: Option<AssignmentTableV>,
    pub lease_holder: Seq<char>,
    pub lease_expires_at: u64,
}

impl View for GetAssignmentTableResponse {
    type V = GetAssignmentTableResponseV;

    open spec fn view(&self) -> GetAssignmentTableResponseV {
        GetAssignmentTableResponseV {
            status: self.status,
            era_id: self.era_id,
            table: match &self.table { Some(m) => Some(m@), None => None },
            lease_holder: self.lease_holder@,
            lease_expires_at: self.lease_expires_at,
        }
    }
}

impl GetAssignmentTableResponseV {
    /// The message with every field at its default.
    pub open spec fn default_value() -> GetAssignmentTableResponseV {
        GetAssignmentTableResponseV {
            status: 0,
            era_id: 0,
            table: None,
            lease_holder: Seq::<char>::empty(),
            lease_expires_at: 0,
        }
    }

    /// Map fields hold their keys in order, each once, here and in nested messages.
    pub open spec fn wf(self) -> bool {
        &&& (self.table matches Some(m) ==> m.wf())
    }

    pub open spec fn piece_status(self) -> Seq<(u32, RawV)> {
        piece(1, vals_i32(self.status))
    }

    pub open spec fn piece_era_id(self) -> Seq<(u32, RawV)> {
        piece(2, vals_u64(self.era_id))
    }

    pub open spec fn piece_table(self) -> Seq<(u32, RawV)> {
        piece(3, vals_opt_msg(match self.table { Some(m) => Some(m.encode()), None => None }))
    }

    pub open spec fn piece_lease_holder(self) -> Seq<(u32, RawV)> {
        piece(4, vals_string(self.lease_holder))
    }

    pub open spec fn piece_lease_expires_at(self) -> Seq<(u32, RawV)> {
        piece(5, vals_u64(self.lease_expires_at))
    }

    /// The raw fields the message is written as, in field order.
    pub open spec fn to_raw(self) -> Seq<(u32, RawV)> {
        self.piece_status() + self.piece_era_id() + self.piece_table() + self.piece_lease_holder() + self.piece_lease_expires_at()
    }

    /// The message read from raw fields, as prost reads it.
    pub open spec fn from_raw(fs: Seq<(u32, RawV)>) -> Option<GetAssignmentTableResponseV> {
        let status = last_of(sel(fs, 1), conv_i32(), 0);
        let era_id = last_of(sel(fs, 2), conv_u64(), 0);
        let table = opt_msg(sel(fs, 3), AssignmentTableV::from_raw_fn());
        let lease_holder = last_of(sel(fs, 4), conv_string(), Seq::<char>::empty());
        let lease_expires_at = last_of(sel(fs, 5), conv_u64(), 0);
        if status is Some && era_id is Some && table is Some && lease_holder is Some && lease_expires_at is Some {
            Some(GetAssignmentTableResponseV {
                status: status.unwrap(),
                era_id: era_id.unwrap(),
                table: table.unwrap(),
                lease_holder: lease_holder.unwrap(),
                lease_expires_at: lease_expires_at.unwrap(),
            })
        } else {
            None
        }
    }

    pub open spec fn from_raw_fn() -> spec_fn(Seq<(u32, RawV)>) -> Option<GetAssignmentTableResponseV> {
        |fs: Seq<(u32, RawV)>| GetAssignmentTableResponseV::from_raw(fs)
    }

    /// The protobuf encoding of the message.
    pub open spec fn encode(self) -> Seq<u8> {
        encode_fields(self.to_raw())
    }

    pub open spec fn encode_fn() -> spec_fn(GetAssignmentTableResponseV) -> Seq<u8> {
        |m: GetAssignmentTableResponseV| m.encode()
    }

    /// The message read from bytes, if they hold one.
    pub open spec fn decode(s: Seq<u8>) -> Option<GetAssignmentTableResponseV> {
        decode_with(s, GetAssignmentTableResponseV::from_raw_fn())
    }

    /// The encoding is the encodings of the fields one after the other.
    pub proof fn lemma_encode_split(self)
        ensures
            self.encode() == encode_fields(self.piece_status()) + encode_fields(self.piece_era_id()) + encode_fields(self.piece_table()) + encode_fields(self.piece_lease_holder()) + encode_fields(self.piece_lease_expires_at()),
    {
        lemma_encode_fields_concat(self.piece_status(), self.piece_era_id());
        lemma_encode_fields_concat(self.piece_status() + self.piece_era_id(), self.piece_table());
        lemma_encode_fields_concat(self.piece_status() + self.piece_era_id() + self.piece_table(), self.piece_lease_holder());
        lemma_encode_fields_concat(self.piece_status() + self.piece_era_id() + self.piece_table() + self.piece_lease_holder(), self.piece_lease_expires_at());
    }

    /// Reading the raw fields of a message gives the message back.
    pub proof fn lemma_from_to_raw(self)
        requires
            self.wf(),
            self.encode().len() <= u64::MAX,
        ensures
            GetAssignmentTableResponseV::from_raw(self.to_raw()) == Some(self),
            fields_ok(self.to_raw()),
        decreases self.encode().len(),
    {
        let fs = self.to_raw();
        self.lemma_encode_split();
        assert(sel(fs, 1) =~= vals_i32(self.status));
        lemma_i32_round_trip(self.status);
        lemma_piece_ok(1, vals_i32(self.status));
        assert(sel(fs, 2) =~= vals_u64(self.era_id));
        lemma_u64_round_trip(self.era_id);
        lemma_piece_ok(2, vals_u64(self.era_id));
        lemma_fields_ok_concat(self.piece_status(), self.piece_era_id());
        assert(sel(fs, 3) =~= vals_opt_msg(match self.table { Some(m) => Some(m.encode()), None => None }));
        match self.table {
            Some(m) => {
                lemma_piece_payload_bound(3, vals_opt_msg(match self.table { Some(m) => Some(m.encode()), None => None }), 0);
                m.lemma_from_to_raw();
                lemma_opt_msg_round_trip(Some(m), m.encode(), m.to_raw(), AssignmentTableV::from_raw_fn());
            },
            None => {
                lemma_opt_msg_round_trip(None::<AssignmentTableV>, Seq::empty(), Seq::empty(), AssignmentTableV::from_raw_fn());
            },
        }
        lemma_piece_ok(3, vals_opt_msg(match self.table { Some(m) => Some(m.encode()), None => None }));
        lemma_fields_ok_concat(self.piece_status() + self.piece_era_id(), self.piece_table());
        assert(sel(fs, 4) =~= vals_string(self.lease_holder));
        lemma_string_round_trip(self.lease_holder);
        lemma_piece_ok(4, vals_string(self.lease_holder));
        lemma_fields_ok_concat(self.piece_status() + self.piece_era_id() + self.piece_table(), self.piece_lease_holder());
        assert(sel(fs, 5) =~= vals_u64(self.lease_expires_at));
        lemma_u64_round_trip(self.lease_expires_at);
        lemma_piece_ok(5, vals_u64(self.lease_expires_at));
        lemma_fields_ok_concat(self.piece_status() + self.piece_era_id() + self.piece_table() + self.piece_lease_holder(), self.piece_lease_expires_at());
    }

    pub open spec fn to_raw_fn() -> spec_fn(GetAssignmentTableResponseV) -> Seq<(u32, RawV)> {
        |m: GetAssignmentTableResponseV| m.to_raw()
    }
}

/// Decoding the encoding of a get assignment table response gives it back.
pub proof fn lemma_get_assignment_table_response_round_trip(m: GetAssignmentTableResponseV)
    requires
        m.wf(),
        m.encode().len() <= u64::MAX,
    ensures
        GetAssignmentTableResponseV::decode(m.encode()) == Some(m),
{
    m.lemma_from_to_raw();
    lemma_parse_encode_fields(m.to_raw());
}

/// Empty bytes decode to the default get assignment table response.
pub proof fn lemma_get_assignment_table_response_decode_empty()
    ensures
        GetAssignmentTableResponseV::decode(Seq::empty()) == Some(GetAssignmentTableResponseV::default_value()),
{
    let e = Seq::<(u32, RawV)>::empty();
    assert(sel(e, 1) == Seq::<RawV>::empty());
    assert(sel(e, 2) == Seq::<RawV>::empty());
    assert(sel(e, 3) == Seq::<RawV>::empty());
    assert(sel(e, 4) == Seq::<RawV>::empty());
    assert(sel(e, 5) == Seq::<RawV>::empty());
}

impl GetAssignmentTableResponse {
    /// Appends the protobuf encoding of the message.
    pub fn encode_raw(&self, buf: &mut Vec<u8>)
        ensures
            final(buf)@ == old(buf)@ + self@.encode(),
    {
        let ghost m = self@;
        put_i32_field(buf, 1, self.status);
        put_u64_field(buf, 2, self.era_id);
        proof {
            assert(buf@ =~= old(buf)@ + (encode_fields(m.piece_status()) + encode_fields(m.piece_era_id())));
        }
        let enc = match &self.table {
            Some(sub) => Some(sub.encode_to_vec()),
            None => None,
        };
        put_opt_msg_field(buf, 3, enc);
        proof {
            assert(buf@ =~= old(buf)@ + (encode_fields(m.piece_status()) + encode_fields(m.piece_era_id()) + encode_fields(m.piece_table())));
        }
        put_string_field(buf, 4, &self.lease_holder);
        proof {
            assert(buf@ =~= old(buf)@ + (encode_fields(m.piece_status()) + encode_fields(m.piece_era_id()) + encode_fields(m.piece_table()) + encode_fields(m.piece_lease_holder())));
        }
        put_u64_field(buf, 5, self.lease_expires_at);
        proof {
            assert(buf@ =~= old(buf)@ + (encode_fields(m.piece_status()) + encode_fields(m.piece_era_id()) + encode_fields(m.piece_table()) + encode_fields(m.piece_lease_holder()) + encode_fields(m.piece_lease_expires_at())));
        }
        proof {
            m.lemma_encode_split();
        }
    }

    /// The protobuf encoding of the message.
    pub fn encode_to_vec(&self) -> (r: Vec<u8>)
        ensures
            r@ == self@.encode(),
    {
        let mut buf = Vec::new();
        self.encode_raw(&mut buf);
        proof {
            assert(buf@ =~= self@.encode());
        }
        buf
    }

    /// Reads the message from its raw fields.
    pub fn from_fields(fields: &Vec<RawField>) -> (res: Result<GetAssignmentTableResponse, WireError>)
        ensures
            match GetAssignmentTableResponseV::from_raw(fields_view(fields@)) {
                Some(m) => res matches Ok(x) && x@ == m,
                None => res is Err,
            },
    {
        let ghost fs = fields_view(fields@);
        let mut status: i32 = 0;
        let mut era_id: u64 = 0;
        let mut table_fields: Vec<RawField> = Vec::new();
        let mut table_present = false;
        let mut lease_holder: String = String::new();
        let mut lease_expires_at: u64 = 0;
        let mut i: usize = 0;
        proof {
            assert(fs.take(0) =~= Seq::<(u32, RawV)>::empty());
            assert(fields_view(Seq::<RawField>::empty()) =~= Seq::<(u32, RawV)>::empty());
        }
        while i < fields.len()
            invariant
                fs == fields_view(fields@),
                i <= fields@.len(),
                last_of(sel(fs.take(i as int), 1), conv_i32(), 0) == Some(status),
                last_of(sel(fs.take(i as int), 2), conv_u64(), 0) == Some(era_id),
                concat_of(sel(fs.take(i as int), 3), conv_fields()) == Some(fields_view(table_fields@)),
                table_present == (sel(fs.take(i as int), 3).len() > 0),
                last_of(sel(fs.take(i as int), 4), conv_string(), Seq::<char>::empty()) == Some(lease_holder@),
                last_of(sel(fs.take(i as int), 5), conv_u64(), 0) == Some(lease_expires_at),
            decreases fields@.len() - i,
        {
            let f = &fields[i];
            proof {
                lemma_sel_take_step(fs, i as int);
            }
            if f.tag == 1 {
                step_i32(&mut status, &f.value, Ghost(fs), Ghost(i as int))?;
            } else if f.tag == 2 {
                step_u64(&mut era_id, &f.value, Ghost(fs), Ghost(i as int))?;
            } else if f.tag == 3 {
                step_msg_fields(&mut table_fields, &mut table_present, &f.value, Ghost(fs), Ghost(i as int))?;
            } else if f.tag == 4 {
                step_string(&mut lease_holder, &f.value, Ghost(fs), Ghost(i as int))?;
            } else if f.tag == 5 {
                step_u64(&mut lease_expires_at, &f.value, Ghost(fs), Ghost(i as int))?;
            }
            i = i + 1;
        }
        proof {
            assert(fs.take(i as int) =~= fs);
        }
        let table = if table_present {
            Some(AssignmentTable::from_fields(&table_fields)?)
        } else {
            None
        };
        Ok(GetAssignmentTableResponse { status, era_id, table, lease_holder, lease_expires_at })
    }

    /// Reads the message from its protobuf encoding.
    pub fn decode(bytes: &[u8]) -> (res: Result<GetAssignmentTableResponse, WireError>)
        ensures
            match GetAssignmentTableResponseV::decode(bytes@) {
                Some(m) => res matches Ok(x) && x@ == m,
                None => res is Err,
            },
    {
        let fields = parse_fields_exec(bytes)?;
        GetAssignmentTableResponse::from_fields(&fields)
    }

}

impl Default for GetAssignmentTableResponse {
    fn default() -> (r: GetAssignmentTableResponse)
        ensures
            r@ == GetAssignmentTableResponseV::default_value(),
    {
        let r = GetAssignmentTableResponse {
            status: 0,
            era_id: 0,
            table: None,
            lease_holder: String::new(),
            lease_expires_at: 0,
        };
        proof {
            assert(r@.lease_holder =~= GetAssignmentTableResponseV::default_value().lease_holder);
            assert(r@ =~= GetAssignmentTableResponseV::default_value());
        }
        r
    }
}

impl ProtoMessage for GetAssignmentTableResponse {
    open spec fn encoded(m: GetAssignmentTableResponseV) -> Seq<u8> {
        m.encode()
    }

    open spec fn decoded(bytes: Seq<u8>) -> Option<GetAssignmentTableResponseV> {
        GetAssignmentTableResponseV::decode(bytes)
    }

    fn encode_bytes(&self) -> (r: Vec<u8>) {
        self.encode_to_vec()
    }

    fn decode_bytes(bytes: &[u8]) -> (r: Result<GetAssignmentTableResponse, WireError>) {
        GetAssignmentTableResponse::decode(bytes)
    }
}

/// A collector response that an inspection result rests on.
#[derive(Debug)]
pub struct Provenance {
    pub collector_key: String,
    pub response_signature: Vec<u8>,
}

/// The value of a [`Provenance`].
pub struct ProvenanceV {
    pub collector_key: Seq<char>,
    pub response_signature: Seq<u8>,
}

impl View for Provenance {
    type V = ProvenanceV;

    open spec fn view(&self) -> ProvenanceV {
        ProvenanceV {
            collector_key: self.collector_key@,
            response_signature: self.response_signature@,
        }
    }
}

impl ProvenanceV {
    /// The message with every field at its default.
    pub open spec fn default_value() -> ProvenanceV {
        ProvenanceV {
            collector_key: Seq::<char>::empty(),
            response_signature: Seq::<u8>::empty(),
        }
    }

    /// Map fields hold their keys in order, each once, here and in nested messages.
    pub open spec fn wf(self) -> bool {
        true
    }

    pub open spec fn piece_collector_key(self) -> Seq<(u32, RawV)> {
        piece(1, vals_string(self.collector_key))
    }

    pub open spec fn piece_response_signature(self) -> Seq<(u32, RawV)> {
        piece(2, vals_bytes(self.response_signature))
    }

    /// The raw fields the message is written as, in field order.
    pub open spec fn to_raw(self) -> Seq<(u32, RawV)> {
        self.piece_collector_key() + self.piece_response_signature()
    }

    /// The message read from raw fields, as prost reads it.
    pub open spec fn from_raw(fs: Seq<(u32, RawV)>) -> Option<ProvenanceV> {
        let collector_key = last_of(sel(fs, 1), conv_string(), Seq::<char>::empty());
        let response_signature = last_of(sel(fs, 2), conv_bytes(), Seq::<u8>::empty());
        if collector_key is Some && response_signature is Some {
            Some(ProvenanceV {
                collector_key: collector_key.unwrap(),
                response_signature: response_signature.unwrap(),
            })
        } else {
            None
        }
    }

    pub open spec fn from_raw_fn() -> spec_fn(Seq<(u32, RawV)>) -> Option<ProvenanceV> {
        |fs: Seq<(u32, RawV)>| ProvenanceV::from_raw(fs)
    }

    /// The protobuf encoding of the message.
    pub open spec fn encode(self) -> Seq<u8> {
        encode_fields(self.to_raw())
    }

    pub open spec fn encode_fn() -> spec_fn(ProvenanceV) -> Seq<u8> {
        |m: ProvenanceV| m.encode()
    }

    /// The message read from bytes, if they hold one.
    pub open spec fn decode(s: Seq<u8>) -> Option<ProvenanceV> {
        decode_with(s, ProvenanceV::from_raw_fn())
    }

    /// The encoding is the encodings of the fields one after the other.
    pub proof fn lemma_encode_split(self)
        ensures
            self.encode() == encode_fields(self.piece_collector_key()) + encode_fields(self.piece_response_signature()),
    {
        lemma_encode_fields_concat(self.piece_collector_key(), self.piece_response_signature());
    }

    /// Reading the raw fields of a message gives the message back.
    pub proof fn lemma_from_to_raw(self)
        requires
            self.wf(),
            self.encode().len() <= u64::MAX,
        ensures
            ProvenanceV::from_raw(self.to_raw()) == Some(self),
            fields_ok(self.to_raw()),
        decreases self.encode().len(),
    {
        let fs = self.to_raw();
        self.lemma_encode_split();
        assert(sel(fs, 1) =~= vals_string(self.collector_key));
        lemma_string_round_trip(self.collector_key);
        lemma_piece_ok(1, vals_string(self.collector_key));
        assert(sel(fs, 2) =~= vals_bytes(self.response_signature));
        lemma_bytes_round_trip(self.response_signature);
        lemma_piece_ok(2, vals_bytes(self.response_signature));
        lemma_fields_ok_concat(self.piece_collector_key(), self.piece_response_signature());
    }

    pub open spec fn to_raw_fn() -> spec_fn(ProvenanceV) -> Seq<(u32, RawV)> {
        |m: ProvenanceV| m.to_raw()
    }
}

/// Decoding the encoding of a provenance gives it back.
pub proof fn lemma_provenance_round_trip(m: ProvenanceV)
    requires
        m.wf(),
        m.encode().len() <= u64::MAX,
    ensures
        ProvenanceV::decode(m.encode()) == Some(m),
{
    m.lemma_from_to_raw();
    lemma_parse_encode_fields(m.to_raw());
}

/// Empty bytes decode to the default provenance.
pub proof fn lemma_provenance_decode_empty()
    ensures
        ProvenanceV::decode(Seq::empty()) == Some(ProvenanceV::default_value()),
{
    let e = Seq::<(u32, RawV)>::empty();
    assert(sel(e, 1) == Seq::<RawV>::empty());
    assert(sel(e, 2) == Seq::<RawV>::empty());
}

impl Provenance {
    /// Appends the protobuf encoding of the message.
    pub fn encode_raw(&self, buf: &mut Vec<u8>)
        ensures
            final(buf)@ == old(buf)@ + self@.encode(),
    {
        let ghost m = self@;
        put_string_field(buf, 1, &self.collector_key);
        put_bytes_field(buf, 2, self.response_signature.as_slice());
        proof {
            assert(buf@ =~= old(buf)@ + (encode_fields(m.piece_collector_key()) + encode_fields(m.piece_response_signature())));
        }
        proof {
            m.lemma_encode_split();
        }
    }

    /// The protobuf encoding of the message.
    pub fn encode_to_vec(&self) -> (r: Vec<u8>)
        ensures
            r@ == self@.encode(),
    {
        let mut buf = Vec::new();
        self.encode_raw(&mut buf);
        proof {
            assert(buf@ =~= self@.encode());
        }
        buf
    }

    /// Reads the message from its raw fields.
    pub fn from_fields(fields: &Vec<RawField>) -> (res: Result<Provenance, WireError>)
        ensures
            match ProvenanceV::from_raw(fields_view(fields@)) {
                Some(m) => res matches Ok(x) && x@ == m,
                None => res is Err,
            },
    {
        let ghost fs = fields_view(fields@);
        let mut collector_key: String = String::new();
        let mut response_signature: Vec<u8> = Vec::new();
        let mut i: usize = 0;
        proof {
            assert(fs.take(0) =~= Seq::<(u32, RawV)>::empty());
            assert(fields_view(Seq::<RawField>::empty()) =~= Seq::<(u32, RawV)>::empty());
        }
        while i < fields.len()
            invariant
                fs == fields_view(fields@),
                i <= fields@.len(),
                last_of(sel(fs.take(i as int), 1), conv_string(), Seq::<char>::empty()) == Some(collector_key@),
                last_of(sel(fs.take(i as int), 2), conv_bytes(), Seq::<u8>::empty()) == Some(response_signature@),
            decreases fields@.len() - i,
        {
            let f = &fields[i];
            proof {
                lemma_sel_take_step(fs, i as int);
            }
            if f.tag == 1 {
                step_string(&mut collector_key, &f.value, Ghost(fs), Ghost(i as int))?;
            } else if f.tag == 2 {
                step_bytes(&mut response_signature, &f.value, Ghost(fs), Ghost(i as int))?;
            }
            i = i + 1;
        }
        proof {
            assert(fs.take(i as int) =~= fs);
        }
        Ok(Provenance { collector_key, response_signature })
    }

    /// Reads the message from its protobuf encoding.
    pub fn decode(bytes: &[u8]) -> (res: Result<Provenance, WireError>)
        ensures
            match ProvenanceV::decode(bytes@) {
                Some(m) => res matches Ok(x) && x@ == m,
                None => res is Err,
            },
    {
        let fields = parse_fields_exec(bytes)?;
        Provenance::from_fields(&fields)
    }

    /// The values of a sequence of messages.
    pub open spec fn views(v: Seq<Provenance>) -> Seq<ProvenanceV> {
        Seq::new(v.len(), |i: int| v[i]@)
    }

    /// Appends a repeated field of these messages.
    pub fn put_repeated(buf: &mut Vec<u8>, t: u32, v: &Vec<Provenance>)
        requires
            1 <= t <= MAX_TAG,
        ensures
            final(buf)@ == old(buf)@ + encode_fields(piece(t, vals_rep_msg(Provenance::views(v@), ProvenanceV::encode_fn()))),
    {
        let mut i: usize = 0;
        proof {
            assert(vals_rep_msg(Provenance::views(v@.take(0)), ProvenanceV::encode_fn()) =~= Seq::<RawV>::empty());
            lemma_encode_empty_piece(t);
            assert(buf@ =~= old(buf)@ + Seq::<u8>::empty());
        }
        while i < v.len()
            invariant
                1 <= t <= MAX_TAG,
                i <= v@.len(),
                buf@ == old(buf)@ + encode_fields(piece(t, vals_rep_msg(Provenance::views(v@.take(i as int)), ProvenanceV::encode_fn()))),
            decreases v@.len() - i,
        {
            let b = v[i].encode_to_vec();
            put_delimited(buf, t, b.as_slice());
            proof {
                let p0 = piece(t, vals_rep_msg(Provenance::views(v@.take(i as int)), ProvenanceV::encode_fn()));
                let q = piece(t, seq![RawV::Bytes(b@)]);
                assert(piece(t, vals_rep_msg(Provenance::views(v@.take(i + 1)), ProvenanceV::encode_fn())) =~= p0 + q);
                lemma_encode_fields_concat(p0, q);
            }
            i = i + 1;
        }
        proof {
            assert(v@.take(i as int) =~= v@);
        }
    }

    /// One more occurrence of a repeated field of these messages.
    pub fn step_repeated(cur: &mut Vec<Provenance>, r: &RawValue, Ghost(fs): Ghost<Seq<(u32, RawV)>>, Ghost(i): Ghost<int>) -> (res: Result<(), WireError>)
        requires
            0 <= i < fs.len(),
            fs[i].1 == r@,
            concat_of(sel(fs.take(i), fs[i].0), conv_msgs(ProvenanceV::from_raw_fn())) == Some(Provenance::views(old(cur)@)),
        ensures
            res is Ok ==> concat_of(sel(fs.take(i + 1), fs[i].0), conv_msgs(ProvenanceV::from_raw_fn())) == Some(Provenance::views(final(cur)@)),
            res is Err ==> concat_of(sel(fs, fs[i].0), conv_msgs(ProvenanceV::from_raw_fn())) is None,
    {
        proof {
            lemma_concat_of_at(fs, i, conv_msgs(ProvenanceV::from_raw_fn()));
        }
        let ef = raw_fields(r)?;
        let m = Provenance::from_fields(&ef)?;
        let ghost mv = m@;
        cur.push(m);
        proof {
            assert(Provenance::views(final(cur)@) =~= Provenance::views(old(cur)@) + seq![mv]);
        }
        Ok(())
    }

}

impl Default for Provenance {
    fn default() -> (r: Provenance)
        ensures
            r@ == ProvenanceV::default_value(),
    {
        let r = Provenance {
            collector_key: String::new(),
            response_signature: Vec::new(),
        };
        proof {
            assert(r@.collector_key =~= ProvenanceV::default_value().collector_key);
            assert(r@.response_signature =~= ProvenanceV::default_value().response_signature);
            assert(r@ =~= ProvenanceV::default_value());
        }
        r
    }
}

impl ProtoMessage for Provenance {
    open spec fn encoded(m: ProvenanceV) -> Seq<u8> {
        m.encode()
    }

    open spec fn decoded(bytes: Seq<u8>) -> Option<ProvenanceV> {
        ProvenanceV::decode(bytes)
    }

    fn encode_bytes(&self) -> (r: Vec<u8>) {
        self.encode_to_vec()
    }

    fn decode_bytes(bytes: &[u8]) -> (r: Result<Provenance, WireError>) {
        Provenance::decode(bytes)
    }
}

/// The result of inspecting one path.
#[derive(Debug)]
pub struct InspectionPathResult {
    pub path_hash: String,
    pub result_hash: String,
    pub exception: Option<Vec<u8>>,
    pub source_collectors: Vec<Provenance>,
}

/// The value of a [`InspectionPathResult`].
pub struct InspectionPathResultV {
    pub path_hash: Seq<char>,
    pub result_hash: Seq<char>,
    pub exception: Option<Seq<u8>>,
    pub source_collectors: Seq<ProvenanceV>,
}

impl View for InspectionPathResult {
    type V = InspectionPathResultV;

    open spec fn view(&self) -> InspectionPathResultV {
        InspectionPathResultV {
            path_hash: self.path_hash@,
            result_hash: self.result_hash@,
            exception: opt_bytes_view(&self.exception),
            source_collectors: Provenance::views(self.source_collectors@),
        }
    }
}

impl InspectionPathResultV {
    /// The message with every field at its default.
    pub open spec fn default_value() -> InspectionPathResultV {
        InspectionPathResultV {
            path_hash: Seq::<char>::empty(),
            result_hash: Seq::<char>::empty(),
            exception: None,
            source_collectors: Seq::<ProvenanceV>::empty(),
        }
    }

    /// Map fields hold their keys in order, each once, here and in nested messages.
    pub open spec fn wf(self) -> bool {
        &&& (forall|i: int| 0 <= i < self.source_collectors.len() ==> (#[trigger] self.source_collectors[i]).wf())
    }

    pub open spec fn piece_path_hash(self) -> Seq<(u32, RawV)> {
        piece(1, vals_string(self.path_hash))
    }

    pub open spec fn piece_result_hash(self) -> Seq<(u32, RawV)> {
        piece(2, vals_string(self.result_hash))
    }

    pub open spec fn piece_exception(self) -> Seq<(u32, RawV)> {
        piece(3, vals_opt_bytes(self.exception))
    }

    pub open spec fn piece_source_collectors(self) -> Seq<(u32, RawV)> {
        piece(4, vals_rep_msg(self.source_collectors, ProvenanceV::encode_fn()))
    }

    /// The raw fields the message is written as, in field order.
    pub open spec fn to_raw(self) -> Seq<(u32, RawV)> {
        self.piece_path_hash() + self.piece_result_hash() + self.piece_exception() + self.piece_source_collectors()
    }

    /// The message read from raw fields, as prost reads it.
    pub open spec fn from_raw(fs: Seq<(u32, RawV)>) -> Option<InspectionPathResultV> {
        let path_hash = last_of(sel(fs, 1), conv_string(), Seq::<char>::empty());
        let result_hash = last_of(sel(fs, 2), conv_string(), Seq::<char>::empty());
        let exception = last_of(sel(fs, 3), conv_opt_bytes(), None);
        let source_collectors = concat_of(sel(fs, 4), conv_msgs(ProvenanceV::from_raw_fn()));
        if path_hash is Some && result_hash is Some && exception is Some && source_collectors is Some {
            Some(InspectionPathResultV {
                path_hash: path_hash.unwrap(),
                result_hash: result_hash.unwrap(),
                exception: exception.unwrap(),
                source_collectors: source_collectors.unwrap(),
            })
        } else {
            None
        }
    }

    pub open spec fn from_raw_fn() -> spec_fn(Seq<(u32, RawV)>) -> Option<InspectionPathResultV> {
        |fs: Seq<(u32, RawV)>| InspectionPathResultV::from_raw(fs)
    }

    /// The protobuf encoding of the message.
    pub open spec fn encode(self) -> Seq<u8> {
        encode_fields(self.to_raw())
    }

    pub open spec fn encode_fn() -> spec_fn(InspectionPathResultV) -> Seq<u8> {
        |m: InspectionPathResultV| m.encode()
    }

    /// The message read from bytes, if they hold one.
    pub open spec fn decode(s: Seq<u8>) -> Option<InspectionPathResultV> {
        decode_with(s, InspectionPathResultV::from_raw_fn())
    }

    /// The encoding is the encodings of the fields one after the other.
    pub proof fn lemma_encode_split(self)
        ensures
            self.encode() == encode_fields(self.piece_path_hash()) + encode_fields(self.piece_result_hash()) + encode_fields(self.piece_exception()) + encode_fields(self.piece_source_collectors()),
    {
        lemma_encode_fields_concat(self.piece_path_hash(), self.piece_result_hash());
        lemma_encode_fields_concat(self.piece_path_hash() + self.piece_result_hash(), self.piece_exception());
        lemma_encode_fields_concat(self.piece_path_hash() + self.piece_result_hash() + self.piece_exception(), self.piece_source_collectors());
    }

    /// Reading the raw fields of a message gives the message back.
    pub proof fn lemma_from_to_raw(self)
        requires
            self.wf(),
            self.encode().len() <= u64::MAX,
        ensures
            InspectionPathResultV::from_raw(self.to_raw()) == Some(self),
            fields_ok(self.to_raw()),
        decreases self.encode().len(),
    {
        let fs = self.to_raw();
        self.lemma_encode_split();
        assert(sel(fs, 1) =~= vals_string(self.path_hash));
        lemma_string_round_trip(self.path_hash);
        lemma_piece_ok(1, vals_string(self.path_hash));
        assert(sel(fs, 2) =~= vals_string(self.result_hash));
        lemma_string_round_trip(self.result_hash);
        lemma_piece_ok(2, vals_string(self.result_hash));
        lemma_fields_ok_concat(self.piece_path_hash(), self.piece_result_hash());
        assert(sel(fs, 3) =~= vals_opt_bytes(self.exception));
        lemma_opt_bytes_round_trip(self.exception);
        lemma_piece_ok(3, vals_opt_bytes(self.exception));
        lemma_fields_ok_concat(self.piece_path_hash() + self.piece_result_hash(), self.piece_exception());
        assert(sel(fs, 4) =~= vals_rep_msg(self.source_collectors, ProvenanceV::encode_fn()));
        assert forall|i: int| 0 <= i < self.source_collectors.len() implies {
            &&& (ProvenanceV::encode_fn())(#[trigger] self.source_collectors[i]) == encode_fields((ProvenanceV::to_raw_fn())(self.source_collectors[i]))
            &&& fields_ok((ProvenanceV::to_raw_fn())(self.source_collectors[i]))
            &&& (ProvenanceV::encode_fn())(self.source_collectors[i]).len() <= u64::MAX
            &&& (ProvenanceV::from_raw_fn())((ProvenanceV::to_raw_fn())(self.source_collectors[i])) == Some(self.source_collectors[i])
        } by {
            lemma_piece_payload_bound(4, vals_rep_msg(self.source_collectors, ProvenanceV::encode_fn()), i);
            self.source_collectors[i].lemma_from_to_raw();
        }
        lemma_rep_msg_round_trip(self.source_collectors, ProvenanceV::encode_fn(), ProvenanceV::to_raw_fn(), ProvenanceV::from_raw_fn());
        lemma_piece_ok(4, vals_rep_msg(self.source_collectors, ProvenanceV::encode_fn()));
        lemma_fields_ok_concat(self.piece_path_hash() + self.piece_result_hash() + self.piece_exception(), self.piece_source_collectors());
    }

    pub open spec fn to_raw_fn() -> spec_fn(InspectionPathResultV) -> Seq<(u32, RawV)> {
        |m: InspectionPathResultV| m.to_raw()
    }
}

/// Decoding the encoding of a inspection path result gives it back.
pub proof fn lemma_inspection_path_result_round_trip(m: InspectionPathResultV)
    requires
        m.wf(),
        m.encode().len() <= u64::MAX,
    ensures
        InspectionPathResultV::decode(m.encode()) == Some(m),
{
    m.lemma_from_to_raw();
    lemma_parse_encode_fields(m.to_raw());
}

/// Empty bytes decode to the default inspection path result.
pub proof fn lemma_inspection_path_result_decode_empty()
    ensures
        InspectionPathResultV::decode(Seq::empty()) == Some(InspectionPathResultV::default_value()),
{
    let e = Seq::<(u32, RawV)>::empty();
    assert(sel(e, 1) == Seq::<RawV>::empty());
    assert(sel(e, 2) == Seq::<RawV>::empty());
    assert(sel(e, 3) == Seq::<RawV>::empty());
    assert(sel(e, 4) == Seq::<RawV>::empty());
}

impl InspectionPathResult {
    /// Appends the protobuf encoding of the message.
    pub fn encode_raw(&self, buf: &mut Vec<u8>)
        ensures
            final(buf)@ == old(buf)@ + self@.encode(),
    {
        let ghost m = self@;
        put_string_field(buf, 1, &self.path_hash);
        put_string_field(buf, 2, &self.result_hash);
        proof {
            assert(buf@ =~= old(buf)@ + (encode_fields(m.piece_path_hash()) + encode_fields(m.piece_result_hash())));
        }
        put_opt_bytes_field(buf, 3, &self.exception);
        proof {
            assert(buf@ =~= old(buf)@ + (encode_fields(m.piece_path_hash()) + encode_fields(m.piece_result_hash()) + encode_fields(m.piece_exception())));
        }
        Provenance::put_repeated(buf, 4, &self.source_collectors);
        proof {
            assert(buf@ =~= old(buf)@ + (encode_fields(m.piece_path_hash()) + encode_fields(m.piece_result_hash()) + encode_fields(m.piece_exception()) + encode_fields(m.piece_source_collectors())));
        }
        proof {
            m.lemma_encode_split();
        }
    }

    /// The protobuf encoding of the message.
    pub fn encode_to_vec(&self) -> (r: Vec<u8>)
        ensures
            r@ == self@.encode(),
    {
        let mut buf = Vec::new();
        self.encode_raw(&mut buf);
        proof {
            assert(buf@ =~= self@.encode());
        }
        buf
    }

    /// Reads the message from its raw fields.
    pub fn from_fields(fields: &Vec<RawField>) -> (res: Result<InspectionPathResult, WireError>)
        ensures
            match InspectionPathResultV::from_raw(fields_view(fields@)) {
                Some(m) => res matches Ok(x) && x@ == m,
                None => res is Err,
            },
    {
        let ghost fs = fields_view(fields@);
        let mut path_hash: String = String::new();
        let mut result_hash: String = String::new();
        let mut exception: Option<Vec<u8>> = None;
        let mut source_collectors: Vec<Provenance> = Vec::new();
        let mut i: usize = 0;
        proof {
            assert(fs.take(0) =~= Seq::<(u32, RawV)>::empty());
            assert(fields_view(Seq::<RawField>::empty()) =~= Seq::<(u32, RawV)>::empty());
        }
        while i < fields.len()
            invariant
                fs == fields_view(fields@),
                i <= fields@.len(),
                last_of(sel(fs.take(i as int), 1), conv_string(), Seq::<char>::empty()) == Some(path_hash@),
                last_of(sel(fs.take(i as int), 2), conv_string(), Seq::<char>::empty()) == Some(result_hash@),
                last_of(sel(fs.take(i as int), 3), conv_opt_bytes(), None) == Some(opt_bytes_view(&exception)),
                concat_of(sel(fs.take(i as int), 4), conv_msgs(ProvenanceV::from_raw_fn())) == Some(Provenance::views(source_collectors@)),
            decreases fields@.len() - i,
        {
            let f = &fields[i];
            proof {
                lemma_sel_take_step(fs, i as int);
            }
            if f.tag == 1 {
                step_string(&mut path_hash, &f.value, Ghost(fs), Ghost(i as int))?;
            } else if f.tag == 2 {
                step_string(&mut result_hash, &f.value, Ghost(fs), Ghost(i as int))?;
            } else if f.tag == 3 {
                step_opt_bytes(&mut exception, &f.value, Ghost(fs), Ghost(i as int))?;
            } else if f.tag == 4 {
                Provenance::step_repeated(&mut source_collectors, &f.value, Ghost(fs), Ghost(i as int))?;
            }
            i = i + 1;
        }
        proof {
            assert(fs.take(i as int) =~= fs);
        }
        Ok(InspectionPathResult { path_hash, result_hash, exception, source_collectors })
    }

    /// Reads the message from its protobuf encoding.
    pub fn decode(bytes: &[u8]) -> (res: Result<InspectionPathResult, WireError>)
        ensures
            match InspectionPathResultV::decode(bytes@) {
                Some(m) => res matches Ok(x) && x@ == m,
                None => res is Err,
            },
    {
        let fields = parse_fields_exec(bytes)?;
        InspectionPathResult::from_fields(&fields)
    }

    /// The values of a sequence of messages.
    pub open spec fn views(v: Seq<InspectionPathResult>) -> Seq<InspectionPathResultV> {
        Seq::new(v.len(), |i: int| v[i]@)
    }

    /// Appends a repeated field of these messages.
    pub fn put_repeated(buf: &mut Vec<u8>, t: u32, v: &Vec<InspectionPathResult>)
        requires
            1 <= t <= MAX_TAG,
        ensures
            final(buf)@ == old(buf)@ + encode_fields(piece(t, vals_rep_msg(InspectionPathResult::views(v@), InspectionPathResultV::encode_fn()))),
    {
        let mut i: usize = 0;
        proof {
            assert(vals_rep_msg(InspectionPathResult::views(v@.take(0)), InspectionPathResultV::encode_fn()) =~= Seq::<RawV>::empty());
            lemma_encode_empty_piece(t);
            assert(buf@ =~= old(buf)@ + Seq::<u8>::empty());
        }
        while i < v.len()
            invariant
                1 <= t <= MAX_TAG,
                i <= v@.len(),
                buf@ == old(buf)@ + encode_fields(piece(t, vals_rep_msg(InspectionPathResult::views(v@.take(i as int)), InspectionPathResultV::encode_fn()))),
            decreases v@.len() - i,
        {
            let b = v[i].encode_to_vec();
            put_delimited(buf, t, b.as_slice());
            proof {
                let p0 = piece(t, vals_rep_msg(InspectionPathResult::views(v@.take(i as int)), InspectionPathResultV::encode_fn()));
                let q = piece(t, seq![RawV::Bytes(b@)]);
                assert(piece(t, vals_rep_msg(InspectionPathResult::views(v@.take(i + 1)), InspectionPathResultV::encode_fn())) =~= p0 + q);
                lemma_encode_fields_concat(p0, q);
            }
            i = i + 1;
        }
        proof {
            assert(v@.take(i as int) =~= v@);
        }
    }

    /// One more occurrence of a repeated field of these messages.
    pub fn step_repeated(cur: &mut Vec<InspectionPathResult>, r: &RawValue, Ghost(fs): Ghost<Seq<(u32, RawV)>>, Ghost(i): Ghost<int>) -> (res: Result<(), WireError>)
        requires
            0 <= i < fs.len(),
            fs[i].1 == r@,
            concat_of(sel(fs.take(i), fs[i].0), conv_msgs(InspectionPathResultV::from_raw_fn())) == Some(InspectionPathResult::views(old(cur)@)),
        ensures
            res is Ok ==> concat_of(sel(fs.take(i + 1), fs[i].0), conv_msgs(InspectionPathResultV::from_raw_fn())) == Some(InspectionPathResult::views(final(cur)@)),
            res is Err ==> concat_of(sel(fs, fs[i].0), conv_msgs(InspectionPathResultV::from_raw_fn())) is None,
    {
        proof {
            lemma_concat_of_at(fs, i, conv_msgs(InspectionPathResultV::from_raw_fn()));
        }
        let ef = raw_fields(r)?;
        let m = InspectionPathResult::from_fields(&ef)?;
        let ghost mv = m@;
        cur.push(m);
        proof {
            assert(InspectionPathResult::views(final(cur)@) =~= InspectionPathResult::views(old(cur)@) + seq![mv]);
        }
        Ok(())
    }

}

impl Default for InspectionPathResult {
    fn default() -> (r: InspectionPathResult)
        ensures
            r@ == InspectionPathResultV::default_value(),
    {
        let r = InspectionPathResult {
            path_hash: String::new(),
            result_hash: String::new(),
            exception: None,
            source_collectors: Vec::new(),
        };
        proof {
            assert(r@.path_hash =~= InspectionPathResultV::default_value().path_hash);
            assert(r@.result_hash =~= InspectionPathResultV::default_value().result_hash);
            assert(r@.source_collectors =~= InspectionPathResultV::default_value().source_collectors);
            assert(r@ =~= InspectionPathResultV::default_value());
        }
        r
    }
}

impl ProtoMessage for InspectionPathResult {
    open spec fn encoded(m: InspectionPathResultV) -> Seq<u8> {
        m.encode()
    }

    open spec fn decoded(bytes: Seq<u8>) -> Option<InspectionPathResultV> {
        InspectionPathResultV::decode(bytes)
    }

    fn encode_bytes(&self) -> (r: Vec<u8>) {
        self.encode_to_vec()
    }

    fn decode_bytes(bytes: &[u8]) -> (r: Result<InspectionPathResult, WireError>) {
        InspectionPathResult::decode(bytes)
    }
}

/// Submission of an inspector's path results.
#[derive(Debug)]
pub struct PostInspectionResultRequest {
    pub era_id: u64,
    pub inspector_key: String,
    pub paths_results: Vec<InspectionPathResult>,
}

/// The value of a [`PostInspectionResultRequest`].
pub struct PostInspectionResultRequestV {
    pub era_id: u64,
    pub inspector_key: Seq<char>,
    pub paths_results: Seq<InspectionPathResultV>,
}

impl View for PostInspectionResultRequest {
    type V = PostInspectionResultRequestV;

    open spec fn view(&self) -> PostInspectionResultRequestV {
        PostInspectionResultRequestV {
            era_id: self.era_id,
            inspector_key: self.inspector_key@,
            paths_results: InspectionPathResult::views(self.paths_results@),
        }
    }
}

impl PostInspectionResultRequestV {
    /// The message with every field at its default.
    pub open spec fn default_value() -> PostInspectionResultRequestV {
        PostInspectionResultRequestV {
            era_id: 0,
            inspector_key: Seq::<char>::empty(),
            paths_results: Seq::<InspectionPathResultV>::empty(),
        }
    }

    /// Map fields hold their keys in order, each once, here and in nested messages.
    pub open spec fn wf(self) -> bool {
        &&& (forall|i: int| 0 <= i < self.paths_results.len() ==> (#[trigger] self.paths_results[i]).wf())
    }

    pub open spec fn piece_era_id(self) -> Seq<(u32, RawV)> {
        piece(1, vals_u64(self.era_id))
    }

    pub open spec fn piece_inspector_key(self) -> Seq<(u32, RawV)> {
        piece(2, vals_string(self.inspector_key))
    }

    pub open spec fn piece_paths_results(self) -> Seq<(u32, RawV)> {
        piece(3, vals_rep_msg(self.paths_results, InspectionPathResultV::encode_fn()))
    }

    /// The raw fields the message is written as, in field order.
    pub open spec fn to_raw(self) -> Seq<(u32, RawV)> {
        self.piece_era_id() + self.piece_inspector_key() + self.piece_paths_results()
    }

    /// The message read from raw fields, as prost reads it.
    pub open spec fn from_raw(fs: Seq<(u32, RawV)>) -> Option<PostInspectionResultRequestV> {
        let era_id = last_of(sel(fs, 1), conv_u64(), 0);
        let inspector_key = last_of(sel(fs, 2), conv_string(), Seq::<char>::empty());
        let paths_results = concat_of(sel(fs, 3), conv_msgs(InspectionPathResultV::from_raw_fn()));
        if era_id is Some && inspector_key is Some && paths_results is Some {
            Some(PostInspectionResultRequestV {
                era_id: era_id.unwrap(),
                inspector_key: inspector_key.unwrap(),
                paths_results: paths_results.unwrap(),
            })
        } else {
            None
        }
    }

    pub open spec fn from_raw_fn() -> spec_fn(Seq<(u32, RawV)>) -> Option<PostInspectionResultRequestV> {
        |fs: Seq<(u32, RawV)>| PostInspectionResultRequestV::from_raw(fs)
    }

    /// The protobuf encoding of the message.
    pub open spec fn encode(self) -> Seq<u8> {
        encode_fields(self.to_raw())
    }

    pub open spec fn encode_fn() -> spec_fn(PostInspectionResultRequestV) -> Seq<u8> {
        |m: PostInspectionResultRequestV| m.encode()
    }

    /// The message read from bytes, if they hold one.
    pub open spec fn decode(s: Seq<u8>) -> Option<PostInspectionResultRequestV> {
        decode_with(s, PostInspectionResultRequestV::from_raw_fn())
    }

    /// The encoding is the encodings of the fields one after the other.
    pub proof fn lemma_encode_split(self)
        ensures
            self.encode() == encode_fields(self.piece_era_id()) + encode_fields(self.piece_inspector_key()) + encode_fields(self.piece_paths_results()),
    {
        lemma_encode_fields_concat(self.piece_era_id(), self.piece_inspector_key());
        lemma_encode_fields_concat(self.piece_era_id() + self.piece_inspector_key(), self.piece_paths_results());
    }

    /// Reading the raw fields of a message gives the message back.
    pub proof fn lemma_from_to_raw(self)
        requires
            self.wf(),
            self.encode().len() <= u64::MAX,
        ensures
            PostInspectionResultRequestV::from_raw(self.to_raw()) == Some(self),
            fields_ok(self.to_raw()),
        decreases self.encode().len(),
    {
        let fs = self.to_raw();
        self.lemma_encode_split();
        assert(sel(fs, 1) =~= vals_u64(self.era_id));
        lemma_u64_round_trip(self.era_id);
        lemma_piece_ok(1, vals_u64(self.era_id));
        assert(sel(fs, 2) =~= vals_string(self.inspector_key));
        lemma_string_round_trip(self.inspector_key);
        lemma_piece_ok(2, vals_string(self.inspector_key));
        lemma_fields_ok_concat(self.piece_era_id(), self.piece_inspector_key());
        assert(sel(fs, 3) =~= vals_rep_msg(self.paths_results, InspectionPathResultV::encode_fn()));
        assert forall|i: int| 0 <= i < self.paths_results.len() implies {
            &&& (InspectionPathResultV::encode_fn())(#[trigger] self.paths_results[i]) == encode_fields((InspectionPathResultV::to_raw_fn())(self.paths_results[i]))
            &&& fields_ok((InspectionPathResultV::to_raw_fn())(self.paths_results[i]))
            &&& (InspectionPathResultV::encode_fn())(self.paths_results[i]).len() <= u64::MAX
            &&& (InspectionPathResultV::from_raw_fn())((InspectionPathResultV::to_raw_fn())(self.paths_results[i])) == Some(self.paths_results[i])
        } by {
            lemma_piece_payload_bound(3, vals_rep_msg(self.paths_results, InspectionPathResultV::encode_fn()), i);
            self.paths_results[i].lemma_from_to_raw();
        }
        lemma_rep_msg_round_trip(self.paths_results, InspectionPathResultV::encode_fn(), InspectionPathResultV::to_raw_fn(), InspectionPathResultV::from_raw_fn());
        lemma_piece_ok(3, vals_rep_msg(self.paths_results, InspectionPathResultV::encode_fn()));
        lemma_fields_ok_concat(self.piece_era_id() + self.piece_inspector_key(), self.piece_paths_results());
    }

    pub open spec fn to_raw_fn() -> spec_fn(PostInspectionResultRequestV) -> Seq<(u32, RawV)> {
        |m: PostInspectionResultRequestV| m.to_raw()
    }
}

/// Decoding the encoding of a post inspection result request gives it back.
pub proof fn lemma_post_inspection_result_request_round_trip(m: PostInspectionResultRequestV)
    requires
        m.wf(),
        m.encode().len() <= u64::MAX,
    ensures
        PostInspectionResultRequestV::decode(m.encode()) == Some(m),
{
    m.lemma_from_to_raw();
    lemma_parse_encode_fields(m.to_raw());
}

/// Empty bytes decode to the default post inspection result request.
pub proof fn lemma_post_inspection_result_request_decode_empty()
    ensures
        PostInspectionResultRequestV::decode(Seq::empty()) == Some(PostInspectionResultRequestV::default_value()),
{
    let e = Seq::<(u32, RawV)>::empty();
    assert(sel(e, 1) == Seq::<RawV>::empty());
    assert(sel(e, 2) == Seq::<RawV>::empty());
    assert(sel(e, 3) == Seq::<RawV>::empty());
}

impl PostInspectionResultRequest {
    /// Appends the protobuf encoding of the message.
    pub fn encode_raw(&self, buf: &mut Vec<u8>)
        ensures
            final(buf)@ == old(buf)@ + self@.encode(),
    {
        let ghost m = self@;
        put_u64_field(buf, 1, self.era_id);
        put_string_field(buf, 2, &self.inspector_key);
        proof {
            assert(buf@ =~= old(buf)@ + (encode_fields(m.piece_era_id()) + encode_fields(m.piece_inspector_key())));
        }
        InspectionPathResult::put_repeated(buf, 3, &self.paths_results);
        proof {
            assert(buf@ =~= old(buf)@ + (encode_fields(m.piece_era_id()) + encode_fields(m.piece_inspector_key()) + encode_fields(m.piece_paths_results())));
        }
        proof {
            m.lemma_encode_split();
        }
    }

    /// The protobuf encoding of the message.
    pub fn encode_to_vec(&self) -> (r: Vec<u8>)
        ensures
            r@ == self@.encode(),
    {
        let mut buf = Vec::new();
        self.encode_raw(&mut buf);
        proof {
            assert(buf@ =~= self@.encode());
        }
        buf
    }

    /// Reads the message from its raw fields.
    pub fn from_fields(fields: &Vec<RawField>) -> (res: Result<PostInspectionResultRequest, WireError>)
        ensures
            match PostInspectionResultRequestV::from_raw(fields_view(fields@)) {
                Some(m) => res matches Ok(x) && x@ == m,
                None => res is Err,
            },
    {
        let ghost fs = fields_view(fields@);
        let mut era_id: u64 = 0;
        let mut inspector_key: String = String::new();
        let mut paths_results: Vec<InspectionPathResult> = Vec::new();
        let mut i: usize = 0;
        proof {
            assert(fs.take(0) =~= Seq::<(u32, RawV)>::empty());
            assert(fields_view(Seq::<RawField>::empty()) =~= Seq::<(u32, RawV)>::empty());
        }
        while i < fields.len()
            invariant
                fs == fields_view(fields@),
                i <= fields@.len(),
                last_of(sel(fs.take(i as int), 1), conv_u64(), 0) == Some(era_id),
                last_of(sel(fs.take(i as int), 2), conv_string(), Seq::<char>::empty()) == Some(inspector_key@),
                concat_of(sel(fs.take(i as int), 3), conv_msgs(InspectionPathResultV::from_raw_fn())) == Some(InspectionPathResult::views(paths_results@)),
            decreases fields@.len() - i,
        {
            let f = &fields[i];
            proof {
                lemma_sel_take_step(fs, i as int);
            }
            if f.tag == 1 {
                step_u64(&mut era_id, &f.value, Ghost(fs), Ghost(i as int))?;
            } else if f.tag == 2 {
                step_string(&mut inspector_key, &f.value, Ghost(fs), Ghost(i as int))?;
            } else if f.tag == 3 {
                InspectionPathResult::step_repeated(&mut paths_results, &f.value, Ghost(fs), Ghost(i as int))?;
            }
            i = i + 1;
        }
        proof {
            assert(fs.take(i as int) =~= fs);
        }
        Ok(PostInspectionResultRequest { era_id, inspector_key, paths_results })
    }

    /// Reads the message from its protobuf encoding.
    pub fn decode(bytes: &[u8]) -> (res: Result<PostInspectionResultRequest, WireError>)
        ensures
            match PostInspectionResultRequestV::decode(bytes@) {
                Some(m) => res matches Ok(x) && x@ == m,
                None => res is Err,
            },
    {
        let fields = parse_fields_exec(bytes)?;
        PostInspectionResultRequest::from_fields(&fields)
    }

}

impl Default for PostInspectionResultRequest {
    fn default() -> (r: PostInspectionResultRequest)
        ensures
            r@ == PostInspectionResultRequestV::default_value(),
    {
        let r = PostInspectionResultRequest {
            era_id: 0,
            inspector_key: String::new(),
            paths_results: Vec::new(),
        };
        proof {
            assert(r@.inspector_key =~= PostInspectionResultRequestV::default_value().inspector_key);
            assert(r@.paths_results =~= PostInspectionResultRequestV::default_value().paths_results);
            assert(r@ =~= PostInspectionResultRequestV::default_value());
        }
        r
    }
}

impl ProtoMessage for PostInspectionResultRequest {
    open spec fn encoded(m: PostInspectionResultRequestV) -> Seq<u8> {
        m.encode()
    }

    open spec fn decoded(bytes: Seq<u8>) -> Option<PostInspectionResultRequestV> {
        PostInspectionResultRequestV::decode(bytes)
    }

    fn encode_bytes(&self) -> (r: Vec<u8>) {
        self.encode_to_vec()
    }

    fn decode_bytes(bytes: &[u8]) -> (r: Result<PostInspectionResultRequest, WireError>) {
        PostInspectionResultRequest::decode(bytes)
    }
}

/// A path result that was not accepted, and why.
#[derive(Debug)]
pub struct RejectedInspectionPath {
    pub path_hash: String,
    pub reason: i32,
}

/// The value of a [`RejectedInspectionPath`].
pub struct RejectedInspectionPathV {
    pub path_hash: Seq<char>,
    pub reason: i32,
}

impl View for RejectedInspectionPath {
    type V = RejectedInspectionPathV;

    open spec fn view(&self) -> RejectedInspectionPathV {
        RejectedInspectionPathV {
            path_hash: self.path_hash@,
            reason: self.reason,
        }
    }
}

impl RejectedInspectionPathV {
    /// The message with every field at its default.
    pub open spec fn default_value() -> RejectedInspectionPathV {
        RejectedInspectionPathV {
            path_hash: Seq::<char>::empty(),
            reason: 0,
        }
    }

    /// Map fields hold their keys in order, each once, here and in nested messages.
    pub open spec fn wf(self) -> bool {
        true
    }

    pub open spec fn piece_path_hash(self) -> Seq<(u32, RawV)> {
        piece(1, vals_string(self.path_hash))
    }

    pub open spec fn piece_reason(self) -> Seq<(u32, RawV)> {
        piece(2, vals_i32(self.reason))
    }

    /// The raw fields the message is written as, in field order.
    pub open spec fn to_raw(self) -> Seq<(u32, RawV)> {
        self.piece_path_hash() + self.piece_reason()
    }

    /// The message read from raw fields, as prost reads it.
    pub open spec fn from_raw(fs: Seq<(u32, RawV)>) -> Option<RejectedInspectionPathV> {
        let path_hash = last_of(sel(fs, 1), conv_string(), Seq::<char>::empty());
        let reason = last_of(sel(fs, 2), conv_i32(), 0);
        if path_hash is Some && reason is Some {
            Some(RejectedInspectionPathV {
                path_hash: path_hash.unwrap(),
                reason: reason.unwrap(),
            })
        } else {
            None
        }
    }

    pub open spec fn from_raw_fn() -> spec_fn(Seq<(u32, RawV)>) -> Option<RejectedInspectionPathV> {
        |fs: Seq<(u32, RawV)>| RejectedInspectionPathV::from_raw(fs)
    }

    /// The protobuf encoding of the message.
    pub open spec fn encode(self) -> Seq<u8> {
        encode_fields(self.to_raw())
    }

    pub open spec fn encode_fn() -> spec_fn(RejectedInspectionPathV) -> Seq<u8> {
        |m: RejectedInspectionPathV| m.encode()
    }

    /// The message read from bytes, if they hold one.
    pub open spec fn decode(s: Seq<u8>) -> Option<RejectedInspectionPathV> {
        decode_with(s, RejectedInspectionPathV::from_raw_fn())
    }

    /// The encoding is the encodings of the fields one after the other.
    pub proof fn lemma_encode_split(self)
        ensures
            self.encode() == encode_fields(self.piece_path_hash()) + encode_fields(self.piece_reason()),
    {
        lemma_encode_fields_concat(self.piece_path_hash(), self.piece_reason());
    }

    /// Reading the raw fields of a message gives the message back.
    pub proof fn lemma_from_to_raw(self)
        requires
            self.wf(),
            self.encode().len() <= u64::MAX,
        ensures
            RejectedInspectionPathV::from_raw(self.to_raw()) == Some(self),
            fields_ok(self.to_raw()),
        decreases self.encode().len(),
    {
        let fs = self.to_raw();
        self.lemma_encode_split();
        assert(sel(fs, 1) =~= vals_string(self.path_hash));
        lemma_string_round_trip(self.path_hash);
        lemma_piece_ok(1, vals_string(self.path_hash));
        assert(sel(fs, 2) =~= vals_i32(self.reason));
        lemma_i32_round_trip(self.reason);
        lemma_piece_ok(2, vals_i32(self.reason));
        lemma_fields_ok_concat(self.piece_path_hash(), self.piece_reason());
    }

    pub open spec fn to_raw_fn() -> spec_fn(RejectedInspectionPathV) -> Seq<(u32, RawV)> {
        |m: RejectedInspectionPathV| m.to_raw()
    }
}

/// Decoding the encoding of a rejected inspection path gives it back.
pub proof fn lemma_rejected_inspection_path_round_trip(m: RejectedInspectionPathV)
    requires
        m.wf(),
        m.encode().len() <= u64::MAX,
    ensures
        RejectedInspectionPathV::decode(m.encode()) == Some(m),
{
    m.lemma_from_to_raw();
    lemma_parse_encode_fields(m.to_raw());
}

/// Empty bytes decode to the default rejected inspection path.
pub proof fn lemma_rejected_inspection_path_decode_empty()
    ensures
        RejectedInspectionPathV::decode(Seq::empty()) == Some(RejectedInspectionPathV::default_value()),
{
    let e = Seq::<(u32, RawV)>::empty();
    assert(sel(e, 1) == Seq::<RawV>::empty());
    assert(sel(e, 2) == Seq::<RawV>::empty());
}

impl RejectedInspectionPath {
    /// Appends the protobuf encoding of the message.
    pub fn encode_raw(&self, buf: &mut Vec<u8>)
        ensures
            final(buf)@ == old(buf)@ + self@.encode(),
    {
        let ghost m = self@;
        put_string_field(buf, 1, &self.path_hash);
        put_i32_field(buf, 2, self.reason);
        proof {
            assert(buf@ =~= old(buf)@ + (encode_fields(m.piece_path_hash()) + encode_fields(m.piece_reason())));
        }
        proof {
            m.lemma_encode_split();
        }
    }

    /// The protobuf encoding of the message.
    pub fn encode_to_vec(&self) -> (r: Vec<u8>)
        ensures
            r@ == self@.encode(),
    {
        let mut buf = Vec::new();
        self.encode_raw(&mut buf);
        proof {
            assert(buf@ =~= self@.encode());
        }
        buf
    }

    /// Reads the message from its raw fields.
    pub fn from_fields(fields: &Vec<RawField>) -> (res: Result<RejectedInspectionPath, WireError>)
        ensures
            match RejectedInspectionPathV::from_raw(fields_view(fields@)) {
                Some(m) => res matches Ok(x) && x@ == m,
                None => res is Err,
            },
    {
        let ghost fs = fields_view(fields@);
        let mut path_hash: String = String::new();
        let mut reason: i32 = 0;
        let mut i: usize = 0;
        proof {
            assert(fs.take(0) =~= Seq::<(u32, RawV)>::empty());
            assert(fields_view(Seq::<RawField>::empty()) =~= Seq::<(u32, RawV)>::empty());
        }
        while i < fields.len()
            invariant
                fs == fields_view(fields@),
                i <= fields@.len(),
                last_of(sel(fs.take(i as int), 1), conv_string(), Seq::<char>::empty()) == Some(path_hash@),
                last_of(sel(fs.take(i as int), 2), conv_i32(), 0) == Some(reason),
            decreases fields@.len() - i,
        {
            let f = &fields[i];
            proof {
                lemma_sel_take_step(fs, i as int);
            }
            if f.tag == 1 {
                step_string(&mut path_hash, &f.value, Ghost(fs), Ghost(i as int))?;
            } else if f.tag == 2 {
                step_i32(&mut reason, &f.value, Ghost(fs), Ghost(i as int))?;
            }
            i = i + 1;
        }
        proof {
            assert(fs.take(i as int) =~= fs);
        }
        Ok(RejectedInspectionPath { path_hash, reason })
    }

    /// Reads the message from its protobuf encoding.
    pub fn decode(bytes: &[u8]) -> (res: Result<RejectedInspectionPath, WireError>)
        ensures
            match RejectedInspectionPathV::decode(bytes@) {
                Some(m) => res matches Ok(x) && x@ == m,
                None => res is Err,
            },
    {
        let fields = parse_fields_exec(bytes)?;
        RejectedInspectionPath::from_fields(&fields)
    }

    /// The values of a sequence of messages.
    pub open spec fn views(v: Seq<RejectedInspectionPath>) -> Seq<RejectedInspectionPathV> {
        Seq::new(v.len(), |i: int| v[i]@)
    }

    /// Appends a repeated field of these messages.
    pub fn put_repeated(buf: &mut Vec<u8>, t: u32, v: &Vec<RejectedInspectionPath>)
        requires
            1 <= t <= MAX_TAG,
        ensures
            final(buf)@ == old(buf)@ + encode_fields(piece(t, vals_rep_msg(RejectedInspectionPath::views(v@), RejectedInspectionPathV::encode_fn()))),
    {
        let mut i: usize = 0;
        proof {
            assert(vals_rep_msg(RejectedInspectionPath::views(v@.take(0)), RejectedInspectionPathV::encode_fn()) =~= Seq::<RawV>::empty());
            lemma_encode_empty_piece(t);
            assert(buf@ =~= old(buf)@ + Seq::<u8>::empty());
        }
        while i < v.len()
            invariant
                1 <= t <= MAX_TAG,
                i <= v@.len(),
                buf@ == old(buf)@ + encode_fields(piece(t, vals_rep_msg(RejectedInspectionPath::views(v@.take(i as int)), RejectedInspectionPathV::encode_fn()))),
            decreases v@.len() - i,
        {
            let b = v[i].encode_to_vec();
            put_delimited(buf, t, b.as_slice());
            proof {
                let p0 = piece(t, vals_rep_msg(RejectedInspectionPath::views(v@.take(i as int)), RejectedInspectionPathV::encode_fn()));
                let q = piece(t, seq![RawV::Bytes(b@)]);
                assert(piece(t, vals_rep_msg(RejectedInspectionPath::views(v@.take(i + 1)), RejectedInspectionPathV::encode_fn())) =~= p0 + q);
                lemma_encode_fields_concat(p0, q);
            }
            i = i + 1;
        }
        proof {
            assert(v@.take(i as int) =~= v@);
        }
    }

    /// One more occurrence of a repeated field of these messages.
    pub fn step_repeated(cur: &mut Vec<RejectedInspectionPath>, r: &RawValue, Ghost(fs): Ghost<Seq<(u32, RawV)>>, Ghost(i): Ghost<int>) -> (res: Result<(), WireError>)
        requires
            0 <= i < fs.len(),
            fs[i].1 == r@,
            concat_of(sel(fs.take(i), fs[i].0), conv_msgs(RejectedInspectionPathV::from_raw_fn())) == Some(RejectedInspectionPath::views(old(cur)@)),
        ensures
            res is Ok ==> concat_of(sel(fs.take(i + 1), fs[i].0), conv_msgs(RejectedInspectionPathV::from_raw_fn())) == Some(RejectedInspectionPath::views(final(cur)@)),
            res is Err ==> concat_of(sel(fs, fs[i].0), conv_msgs(RejectedInspectionPathV::from_raw_fn())) is None,
    {
        proof {
            lemma_concat_of_at(fs, i, conv_msgs(RejectedInspectionPathV::from_raw_fn()));
        }
        let ef = raw_fields(r)?;
        let m = RejectedInspectionPath::from_fields(&ef)?;
        let ghost mv = m@;
        cur.push(m);
        proof {
            assert(RejectedInspectionPath::views(final(cur)@) =~= RejectedInspectionPath::views(old(cur)@) + seq![mv]);
        }
        Ok(())
    }

}

impl Default for RejectedInspectionPath {
    fn default() -> (r: RejectedInspectionPath)
        ensures
            r@ == RejectedInspectionPathV::default_value(),
    {
        let r = RejectedInspectionPath {
            path_hash: String::new(),
            reason: 0,
        };
        proof {
            assert(r@.path_hash =~= RejectedInspectionPathV::default_value().path_hash);
            assert(r@ =~= RejectedInspectionPathV::default_value());
        }
        r
    }
}

impl ProtoMessage for RejectedInspectionPath {
    open spec fn encoded(m: RejectedInspectionPathV) -> Seq<u8> {
        m.encode()
    }

    open spec fn decoded(bytes: Seq<u8>) -> Option<RejectedInspectionPathV> {
        RejectedInspectionPathV::decode(bytes)
    }

    fn encode_bytes(&self) -> (r: Vec<u8>) {
        self.encode_to_vec()
    }

    fn decode_bytes(bytes: &[u8]) -> (r: Result<RejectedInspectionPath, WireError>) {
        RejectedInspectionPath::decode(bytes)
    }
}

/// Answer to a path results submission.
#[derive(Debug)]
pub struct PostInspectionResultResponse {
    pub status: i32,
    pub accepted_count: u32,
    pub rejected_count: u32,
    pub quorum_reached_paths: Vec<String>,
    pub rejected_paths: Vec<RejectedInspectionPath>,
}

/// The value of a [`PostInspectionResultResponse`].
pub struct PostInspectionResultResponseV {
    pub status: i32,
    pub accepted_count: u32,
    pub rejected_count: u32,
    pub quorum_reached_paths: Seq<Seq<char>>,
    pub rejected_paths: Seq<RejectedInspectionPathV>,
}

impl View for PostInspectionResultResponse {
    type V = PostInspectionResultResponseV;

    open spec fn view(&self) -> PostInspectionResultResponseV {
        PostInspectionResultResponseV {
            status: self.status,
            accepted_count: self.accepted_count,
            rejected_count: self.rejected_count,
            quorum_reached_paths: strings_view(self.quorum_reached_paths@),
            rejected_paths: RejectedInspectionPath::views(self.rejected_paths@),
        }
    }
}

impl PostInspectionResultResponseV {
    /// The message with every field at its default.
    pub open spec fn default_value() -> PostInspectionResultResponseV {
        PostInspectionResultResponseV {
            status: 0,
            accepted_count: 0,
            rejected_count: 0,
            quorum_reached_paths: Seq::<Seq<char>>::empty(),
            rejected_paths: Seq::<RejectedInspectionPathV>::empty(),
        }
    }

    /// Map fields hold their keys in order, each once, here and in nested messages.
    pub open spec fn wf(self) -> bool {
        &&& (forall|i: int| 0 <= i < self.rejected_paths.len() ==> (#[trigger] self.rejected_paths[i]).wf())
    }

    pub open spec fn piece_status(self) -> Seq<(u32, RawV)> {
        piece(1, vals_i32(self.status))
    }

    pub open spec fn piece_accepted_count(self) -> Seq<(u32, RawV)> {
        piece(2, vals_u32(self.accepted_count))
    }

    pub open spec fn piece_rejected_count(self) -> Seq<(u32, RawV)> {
        piece(3, vals_u32(self.rejected_count))
    }

    pub open spec fn piece_quorum_reached_paths(self) -> Seq<(u32, RawV)> {
        piece(4, vals_rep_string(self.quorum_reached_paths))
    }

    pub open spec fn piece_rejected_paths(self) -> Seq<(u32, RawV)> {
        piece(5, vals_rep_msg(self.rejected_paths, RejectedInspectionPathV::encode_fn()))
    }

    /// The raw fields the message is written as, in field order.
    pub open spec fn to_raw(self) -> Seq<(u32, RawV)> {
        self.piece_status() + self.piece_accepted_count() + self.piece_rejected_count() + self.piece_quorum_reached_paths() + self.piece_rejected_paths()
    }

    /// The message read from raw fields, as prost reads it.
    pub open spec fn from_raw(fs: Seq<(u32, RawV)>) -> Option<PostInspectionResultResponseV> {
        let status = last_of(sel(fs, 1), conv_i32(), 0);
        let accepted_count = last_of(sel(fs, 2), conv_u32(), 0);
        let rejected_count = last_of(sel(fs, 3), conv_u32(), 0);
        let quorum_reached_paths = concat_of(sel(fs, 4), conv_rep_string());
        let rejected_paths = concat_of(sel(fs, 5), conv_msgs(RejectedInspectionPathV::from_raw_fn()));
        if status is Some && accepted_count is Some && rejected_count is Some && quorum_reached_paths is Some && rejected_paths is Some {
            Some(PostInspectionResultResponseV {
                status: status.unwrap(),
                accepted_count: accepted_count.unwrap(),
                rejected_count: rejected_count.unwrap(),
                quorum_reached_paths: quorum_reached_paths.unwrap(),
                rejected_paths: rejected_paths.unwrap(),
            })
        } else {
            None
        }
    }

    pub open spec fn from_raw_fn() -> spec_fn(Seq<(u32, RawV)>) -> Option<PostInspectionResultResponseV> {
        |fs: Seq<(u32, RawV)>| PostInspectionResultResponseV::from_raw(fs)
    }

    /// The protobuf encoding of the message.
    pub open spec fn encode(self) -> Seq<u8> {
        encode_fields(self.to_raw())
    }

    pub open spec fn encode_fn() -> spec_fn(PostInspectionResultResponseV) -> Seq<u8> {
        |m: PostInspectionResultResponseV| m.encode()
    }

    /// The message read from bytes, if they hold one.
    pub open spec fn decode(s: Seq<u8>) -> Option<PostInspectionResultResponseV> {
        decode_with(s, PostInspectionResultResponseV::from_raw_fn())
    }

    /// The encoding is the encodings of the fields one after the other.
    pub proof fn lemma_encode_split(self)
        ensures
            self.encode() == encode_fields(self.piece_status()) + encode_fields(self.piece_accepted_count()) + encode_fields(self.piece_rejected_count()) + encode_fields(self.piece_quorum_reached_paths()) + encode_fields(self.piece_rejected_paths()),
    {
        lemma_encode_fields_concat(self.piece_status(), self.piece_accepted_count());
        lemma_encode_fields_concat(self.piece_status() + self.piece_accepted_count(), self.piece_rejected_count());
        lemma_encode_fields_concat(self.piece_status() + self.piece_accepted_count() + self.piece_rejected_count(), self.piece_quorum_reached_paths());
        lemma_encode_fields_concat(self.piece_status() + self.piece_accepted_count() + self.piece_rejected_count() + self.piece_quorum_reached_paths(), self.piece_rejected_paths());
    }

    /// Reading the raw fields of a message gives the message back.
    pub proof fn lemma_from_to_raw(self)
        requires
            self.wf(),
            self.encode().len() <= u64::MAX,
        ensures
            PostInspectionResultResponseV::from_raw(self.to_raw()) == Some(self),
            fields_ok(self.to_raw()),
        decreases self.encode().len(),
    {
        let fs = self.to_raw();
        self.lemma_encode_split();
        assert(sel(fs, 1) =~= vals_i32(self.status));
        lemma_i32_round_trip(self.status);
        lemma_piece_ok(1, vals_i32(self.status));
        assert(sel(fs, 2) =~= vals_u32(self.accepted_count));
        lemma_u32_round_trip(self.accepted_count);
        lemma_piece_ok(2, vals_u32(self.accepted_count));
        lemma_fields_ok_concat(self.piece_status(), self.piece_accepted_count());
        assert(sel(fs, 3) =~= vals_u32(self.rejected_count));
        lemma_u32_round_trip(self.rejected_count);
        lemma_piece_ok(3, vals_u32(self.rejected_count));
        lemma_fields_ok_concat(self.piece_status() + self.piece_accepted_count(), self.piece_rejected_count());
        assert(sel(fs, 4) =~= vals_rep_string(self.quorum_reached_paths));
        lemma_rep_string_round_trip(self.quorum_reached_paths);
        lemma_piece_ok(4, vals_rep_string(self.quorum_reached_paths));
        lemma_fields_ok_concat(self.piece_status() + self.piece_accepted_count() + self.piece_rejected_count(), self.piece_quorum_reached_paths());
        assert(sel(fs, 5) =~= vals_rep_msg(self.rejected_paths, RejectedInspectionPathV::encode_fn()));
        assert forall|i: int| 0 <= i < self.rejected_paths.len() implies {
            &&& (RejectedInspectionPathV::encode_fn())(#[trigger] self.rejected_paths[i]) == encode_fields((RejectedInspectionPathV::to_raw_fn())(self.rejected_paths[i]))
            &&& fields_ok((RejectedInspectionPathV::to_raw_fn())(self.rejected_paths[i]))
            &&& (RejectedInspectionPathV::encode_fn())(self.rejected_paths[i]).len() <= u64::MAX
            &&& (RejectedInspectionPathV::from_raw_fn())((RejectedInspectionPathV::to_raw_fn())(self.rejected_paths[i])) == Some(self.rejected_paths[i])
        } by {
            lemma_piece_payload_bound(5, vals_rep_msg(self.rejected_paths, RejectedInspectionPathV::encode_fn()), i);
            self.rejected_paths[i].lemma_from_to_raw();
        }
        lemma_rep_msg_round_trip(self.rejected_paths, RejectedInspectionPathV::encode_fn(), RejectedInspectionPathV::to_raw_fn(), RejectedInspectionPathV::from_raw_fn());
        lemma_piece_ok(5, vals_rep_msg(self.rejected_paths, RejectedInspectionPathV::encode_fn()));
        lemma_fields_ok_concat(self.piece_status() + self.piece_accepted_count() + self.piece_rejected_count() + self.piece_quorum_reached_paths(), self.piece_rejected_paths());
    }

    pub open spec fn to_raw_fn() -> spec_fn(PostInspectionResultResponseV) -> Seq<(u32, RawV)> {
        |m: PostInspectionResultResponseV| m.to_raw()
    }
}

/// Decoding the encoding of a post inspection result response gives it back.
pub proof fn lemma_post_inspection_result_response_round_trip(m: PostInspectionResultResponseV)
    requires
        m.wf(),
        m.encode().len() <= u64::MAX,
    ensures
        PostInspectionResultResponseV::decode(m.encode()) == Some(m),
{
    m.lemma_from_to_raw();
    lemma_parse_encode_fields(m.to_raw());
}

/// Empty bytes decode to the default post inspection result response.
pub proof fn lemma_post_inspection_result_response_decode_empty()
    ensures
        PostInspectionResultResponseV::decode(Seq::empty()) == Some(PostInspectionResultResponseV::default_value()),
{
    let e = Seq::<(u32, RawV)>::empty();
    assert(sel(e, 1) == Seq::<RawV>::empty());
    assert(sel(e, 2) == Seq::<RawV>::empty());
    assert(sel(e, 3) == Seq::<RawV>::empty());
    assert(sel(e, 4) == Seq::<RawV>::empty());
    assert(sel(e, 5) == Seq::<RawV>::empty());
}

impl PostInspectionResultResponse {
    /// Appends the protobuf encoding of the message.
    pub fn encode_raw(&self, buf: &mut Vec<u8>)
        ensures
            final(buf)@ == old(buf)@ + self@.encode(),
    {
        let ghost m = self@;
        put_i32_field(buf, 1, self.status);
        put_u32_field(buf, 2, self.accepted_count);
        proof {
            assert(buf@ =~= old(buf)@ + (encode_fields(m.piece_status()) + encode_fields(m.piece_accepted_count())));
        }
        put_u32_field(buf, 3, self.rejected_count);
        proof {
            assert(buf@ =~= old(buf)@ + (encode_fields(m.piece_status()) + encode_fields(m.piece_accepted_count()) + encode_fields(m.piece_rejected_count())));
        }
        put_rep_string_field(buf, 4, &self.quorum_reached_paths);
        proof {
            assert(buf@ =~= old(buf)@ + (encode_fields(m.piece_status()) + encode_fields(m.piece_accepted_count()) + encode_fields(m.piece_rejected_count()) + encode_fields(m.piece_quorum_reached_paths())));
        }
        RejectedInspectionPath::put_repeated(buf, 5, &self.rejected_paths);
        proof {
            assert(buf@ =~= old(buf)@ + (encode_fields(m.piece_status()) + encode_fields(m.piece_accepted_count()) + encode_fields(m.piece_rejected_count()) + encode_fields(m.piece_quorum_reached_paths()) + encode_fields(m.piece_rejected_paths())));
        }
        proof {
            m.lemma_encode_split();
        }
    }

    /// The protobuf encoding of the message.
    pub fn encode_to_vec(&self) -> (r: Vec<u8>)
        ensures
            r@ == self@.encode(),
    {
        let mut buf = Vec::new();
        self.encode_raw(&mut buf);
        proof {
            assert(buf@ =~= self@.encode());
        }
        buf
    }

    /// Reads the message from its raw fields.
    pub fn from_fields(fields: &Vec<RawField>) -> (res: Result<PostInspectionResultResponse, WireError>)
        ensures
            match PostInspectionResultResponseV::from_raw(fields_view(fields@)) {
                Some(m) => res matches Ok(x) && x@ == m,
                None => res is Err,
            },
    {
        let ghost fs = fields_view(fields@);
        let mut status: i32 = 0;
        let mut accepted_count: u32 = 0;
        let mut rejected_count: u32 = 0;
        let mut quorum_reached_paths: Vec<String> = Vec::new();
        let mut rejected_paths: Vec<RejectedInspectionPath> = Vec::new();
        let mut i: usize = 0;
        proof {
            assert(fs.take(0) =~= Seq::<(u32, RawV)>::empty());
            assert(fields_view(Seq::<RawField>::empty()) =~= Seq::<(u32, RawV)>::empty());
        }
        while i < fields.len()
            invariant
                fs == fields_view(fields@),
                i <= fields@.len(),
                last_of(sel(fs.take(i as int), 1), conv_i32(), 0) == Some(status),
                last_of(sel(fs.take(i as int), 2), conv_u32(), 0) == Some(accepted_count),
                last_of(sel(fs.take(i as int), 3), conv_u32(), 0) == Some(rejected_count),
                concat_of(sel(fs.take(i as int), 4), conv_rep_string()) == Some(strings_view(quorum_reached_paths@)),
                concat_of(sel(fs.take(i as int), 5), conv_msgs(RejectedInspectionPathV::from_raw_fn())) == Some(RejectedInspectionPath::views(rejected_paths@)),
            decreases fields@.len() - i,
        {
            let f = &fields[i];
            proof {
                lemma_sel_take_step(fs, i as int);
            }
            if f.tag == 1 {
                step_i32(&mut status, &f.value, Ghost(fs), Ghost(i as int))?;
            } else if f.tag == 2 {
                step_u32(&mut accepted_count, &f.value, Ghost(fs), Ghost(i as int))?;
            } else if f.tag == 3 {
                step_u32(&mut rejected_count, &f.value, Ghost(fs), Ghost(i as int))?;
            } else if f.tag == 4 {
                step_rep_string(&mut quorum_reached_paths, &f.value, Ghost(fs), Ghost(i as int))?;
            } else if f.tag == 5 {
                RejectedInspectionPath::step_repeated(&mut rejected_paths, &f.value, Ghost(fs), Ghost(i as int))?;
            }
            i = i + 1;
        }
        proof {
            assert(fs.take(i as int) =~= fs);
        }
        Ok(PostInspectionResultResponse { status, accepted_count, rejected_count, quorum_reached_paths, rejected_paths })
    }

    /// Reads the message from its protobuf encoding.
    pub fn decode(bytes: &[u8]) -> (res: Result<PostInspectionResultResponse, WireError>)
        ensures
            match PostInspectionResultResponseV::decode(bytes@) {
                Some(m) => res matches Ok(x) && x@ == m,
                None => res is Err,
            },
    {
        let fields = parse_fields_exec(bytes)?;
        PostInspectionResultResponse::from_fields(&fields)
    }

}

impl Default for PostInspectionResultResponse {
    fn default() -> (r: PostInspectionResultResponse)
        ensures
            r@ == PostInspectionResultResponseV::default_value(),
    {
        let r = PostInspectionResultResponse {
            status: 0,
            accepted_count: 0,
            rejected_count: 0,
            quorum_reached_paths: Vec::new(),
            rejected_paths: Vec::new(),
        };
        proof {
            assert(r@.quorum_reached_paths =~= PostInspectionResultResponseV::default_value().quorum_reached_paths);
            assert(r@.rejected_paths =~= PostInspectionResultResponseV::default_value().rejected_paths);
            assert(r@ =~= PostInspectionResultResponseV::default_value());
        }
        r
    }
}

impl ProtoMessage for PostInspectionResultResponse {
    open spec fn encoded(m: PostInspectionResultResponseV) -> Seq<u8> {
        m.encode()
    }

    open spec fn decoded(bytes: Seq<u8>) -> Option<PostInspectionResultResponseV> {
        PostInspectionResultResponseV::decode(bytes)
    }

    fn encode_bytes(&self) -> (r: Vec<u8>) {
        self.encode_to_vec()
    }

    fn decode_bytes(bytes: &[u8]) -> (r: Result<PostInspectionResultResponse, WireError>) {
        PostInspectionResultResponse::decode(bytes)
    }
}

/// Where the inspection of one path stands.
#[derive(Debug)]
pub struct InspectionPathStatus {
    pub status: i32,
    pub result_hash: String,
    pub exception: Vec<u8>,
    pub submissions: StringMap<u32>,
    pub inspectors: Vec<String>,
    pub remaining_inspectors: Vec<String>,
}

/// The value of a [`InspectionPathStatus`].
pub struct InspectionPathStatusV {
    pub status: i32,
    pub result_hash: Seq<char>,
    pub exception: Seq<u8>,
    pub submissions: Seq<(Seq<char>, u32)>,
    pub inspectors: Seq<Seq<char>>,
    pub remaining_inspectors: Seq<Seq<char>>,
}

impl View for InspectionPathStatus {
    type V = InspectionPathStatusV;

    open spec fn view(&self) -> InspectionPathStatusV {
        InspectionPathStatusV {
            status: self.status,
            result_hash: self.result_hash@,
            exception: self.exception@,
            submissions: self.submissions@,
            inspectors: strings_view(self.inspectors@),
            remaining_inspectors: strings_view(self.remaining_inspectors@),
        }
    }
}

impl InspectionPathStatusV {
    /// The message with every field at its default.
    pub open spec fn default_value() -> InspectionPathStatusV {
        InspectionPathStatusV {
            status: 0,
            result_hash: Seq::<char>::empty(),
            exception: Seq::<u8>::empty(),
            submissions: Seq::<(Seq<char>, u32)>::empty(),
            inspectors: Seq::<Seq<char>>::empty(),
            remaining_inspectors: Seq::<Seq<char>>::empty(),
        }
    }

    /// Map fields hold their keys in order, each once, here and in nested messages.
    pub open spec fn wf(self) -> bool {
        &&& keys_sorted(self.submissions)
    }

    pub open spec fn piece_status(self) -> Seq<(u32, RawV)> {
        piece(1, vals_i32(self.status))
    }

    pub open spec fn piece_result_hash(self) -> Seq<(u32, RawV)> {
        piece(2, vals_string(self.result_hash))
    }

    pub open spec fn piece_exception(self) -> Seq<(u32, RawV)> {
        piece(3, vals_bytes(self.exception))
    }

    pub open spec fn piece_submissions(self) -> Seq<(u32, RawV)> {
        piece(4, vals_map(self.submissions, venc_u32()))
    }

    pub open spec fn piece_inspectors(self) -> Seq<(u32, RawV)> {
        piece(5, vals_rep_string(self.inspectors))
    }

    pub open spec fn piece_remaining_inspectors(self) -> Seq<(u32, RawV)> {
        piece(6, vals_rep_string(self.remaining_inspectors))
    }

    /// The raw fields the message is written as, in field order.
    pub open spec fn to_raw(self) -> Seq<(u32, RawV)> {
        self.piece_status() + self.piece_result_hash() + self.piece_exception() + self.piece_submissions() + self.piece_inspectors() + self.piece_remaining_inspectors()
    }

    /// The message read from raw fields, as prost reads it.
    pub open spec fn from_raw(fs: Seq<(u32, RawV)>) -> Option<InspectionPathStatusV> {
        let status = last_of(sel(fs, 1), conv_i32(), 0);
        let result_hash = last_of(sel(fs, 2), conv_string(), Seq::<char>::empty());
        let exception = last_of(sel(fs, 3), conv_bytes(), Seq::<u8>::empty());
        let submissions = map_of(sel(fs, 4), val_u32());
        let inspectors = concat_of(sel(fs, 5), conv_rep_string());
        let remaining_inspectors = concat_of(sel(fs, 6), conv_rep_string());
        if status is Some && result_hash is Some && exception is Some && submissions is Some && inspectors is Some && remaining_inspectors is Some {
            Some(InspectionPathStatusV {
                status: status.unwrap(),
                result_hash: result_hash.unwrap(),
                exception: exception.unwrap(),
                submissions: submissions.unwrap(),
                inspectors: inspectors.unwrap(),
                remaining_inspectors: remaining_inspectors.unwrap(),
            })
        } else {
            None
        }
    }

    pub open spec fn from_raw_fn() -> spec_fn(Seq<(u32, RawV)>) -> Option<InspectionPathStatusV> {
        |fs: Seq<(u32, RawV)>| InspectionPathStatusV::from_raw(fs)
    }

    /// The protobuf encoding of the message.
    pub open spec fn encode(self) -> Seq<u8> {
        encode_fields(self.to_raw())
    }

    pub open spec fn encode_fn() -> spec_fn(InspectionPathStatusV) -> Seq<u8> {
        |m: InspectionPathStatusV| m.encode()
    }

    /// The message read from bytes, if they hold one.
    pub open spec fn decode(s: Seq<u8>) -> Option<InspectionPathStatusV> {
        decode_with(s, InspectionPathStatusV::from_raw_fn())
    }

    /// The encoding is the encodings of the fields one after the other.
    pub proof fn lemma_encode_split(self)
        ensures
            self.encode() == encode_fields(self.piece_status()) + encode_fields(self.piece_result_hash()) + encode_fields(self.piece_exception()) + encode_fields(self.piece_submissions()) + encode_fields(self.piece_inspectors()) + encode_fields(self.piece_remaining_inspectors()),
    {
        lemma_encode_fields_concat(self.piece_status(), self.piece_result_hash());
        lemma_encode_fields_concat(self.piece_status() + self.piece_result_hash(), self.piece_exception());
        lemma_encode_fields_concat(self.piece_status() + self.piece_result_hash() + self.piece_exception(), self.piece_submissions());
        lemma_encode_fields_concat(self.piece_status() + self.piece_result_hash() + self.piece_exception() + self.piece_submissions(), self.piece_inspectors());
        lemma_encode_fields_concat(self.piece_status() + self.piece_result_hash() + self.piece_exception() + self.piece_submissions() + self.piece_inspectors(), self.piece_remaining_inspectors());
    }

    /// Reading the raw fields of a message gives the message back.
    pub proof fn lemma_from_to_raw(self)
        requires
            self.wf(),
            self.encode().len() <= u64::MAX,
        ensures
            InspectionPathStatusV::from_raw(self.to_raw()) == Some(self),
            fields_ok(self.to_raw()),
        decreases self.encode().len(),
    {
        let fs = self.to_raw();
        self.lemma_encode_split();
        assert(sel(fs, 1) =~= vals_i32(self.status));
        lemma_i32_round_trip(self.status);
        lemma_piece_ok(1, vals_i32(self.status));
        assert(sel(fs, 2) =~= vals_string(self.result_hash));
        lemma_string_round_trip(self.result_hash);
        lemma_piece_ok(2, vals_string(self.result_hash));
        lemma_fields_ok_concat(self.piece_status(), self.piece_result_hash());
        assert(sel(fs, 3) =~= vals_bytes(self.exception));
        lemma_bytes_round_trip(self.exception);
        lemma_piece_ok(3, vals_bytes(self.exception));
        lemma_fields_ok_concat(self.piece_status() + self.piece_result_hash(), self.piece_exception());
        assert(sel(fs, 4) =~= vals_map(self.submissions, venc_u32()));
        assert forall|i: int| 0 <= i < self.submissions.len() implies {
            &&& (val_u32())((venc_u32())((#[trigger] self.submissions[i]).1)) == Some(self.submissions[i].1)
            &&& vals_ok((venc_u32())(self.submissions[i].1))
            &&& encode_fields(entry_raw(self.submissions[i].0, (venc_u32())(self.submissions[i].1))).len() <= u64::MAX
        } by {
            lemma_piece_payload_bound(4, vals_map(self.submissions, venc_u32()), i);
            lemma_u32_round_trip(self.submissions[i].1);
        }
        lemma_map_round_trip(self.submissions, val_u32(), venc_u32());
        lemma_piece_ok(4, vals_map(self.submissions, venc_u32()));
        lemma_fields_ok_concat(self.piece_status() + self.piece_result_hash() + self.piece_exception(), self.piece_submissions());
        assert(sel(fs, 5) =~= vals_rep_string(self.inspectors));
        lemma_rep_string_round_trip(self.inspectors);
        lemma_piece_ok(5, vals_rep_string(self.inspectors));
        lemma_fields_ok_concat(self.piece_status() + self.piece_result_hash() + self.piece_exception() + self.piece_submissions(), self.piece_inspectors());
        assert(sel(fs, 6) =~= vals_rep_string(self.remaining_inspectors));
        lemma_rep_string_round_trip(self.remaining_inspectors);
        lemma_piece_ok(6, vals_rep_string(self.remaining_inspectors));
        lemma_fields_ok_concat(self.piece_status() + self.piece_result_hash() + self.piece_exception() + self.piece_submissions() + self.piece_inspectors(), self.piece_remaining_inspectors());
    }

    pub open spec fn to_raw_fn() -> spec_fn(InspectionPathStatusV) -> Seq<(u32, RawV)> {
        |m: InspectionPathStatusV| m.to_raw()
    }
}

/// Decoding the encoding of a inspection path status gives it back.
pub proof fn lemma_inspection_path_status_round_trip(m: InspectionPathStatusV)
    requires
        m.wf(),
        m.encode().len() <= u64::MAX,
    ensures
        InspectionPathStatusV::decode(m.encode()) == Some(m),
{
    m.lemma_from_to_raw();
    lemma_parse_encode_fields(m.to_raw());
}

/// Empty bytes decode to the default inspection path status.
pub proof fn lemma_inspection_path_status_decode_empty()
    ensures
        InspectionPathStatusV::decode(Seq::empty()) == Some(InspectionPathStatusV::default_value()),
{
    let e = Seq::<(u32, RawV)>::empty();
    assert(sel(e, 1) == Seq::<RawV>::empty());
    assert(sel(e, 2) == Seq::<RawV>::empty());
    assert(sel(e, 3) == Seq::<RawV>::empty());
    assert(sel(e, 4) == Seq::<RawV>::empty());
    assert(sel(e, 5) == Seq::<RawV>::empty());
    assert(sel(e, 6) == Seq::<RawV>::empty());
}

impl InspectionPathStatus {
    /// Appends the protobuf encoding of the message.
    pub fn encode_raw(&self, buf: &mut Vec<u8>)
        ensures
            final(buf)@ == old(buf)@ + self@.encode(),
    {
        let ghost m = self@;
        put_i32_field(buf, 1, self.status);
        put_string_field(buf, 2, &self.result_hash);
        proof {
            assert(buf@ =~= old(buf)@ + (encode_fields(m.piece_status()) + encode_fields(m.piece_result_hash())));
        }
        put_bytes_field(buf, 3, self.exception.as_slice());
        proof {
            assert(buf@ =~= old(buf)@ + (encode_fields(m.piece_status()) + encode_fields(m.piece_result_hash()) + encode_fields(m.piece_exception())));
        }
        put_map_u32(buf, 4, &self.submissions);
        proof {
            assert(buf@ =~= old(buf)@ + (encode_fields(m.piece_status()) + encode_fields(m.piece_result_hash()) + encode_fields(m.piece_exception()) + encode_fields(m.piece_submissions())));
        }
        put_rep_string_field(buf, 5, &self.inspectors);
        proof {
            assert(buf@ =~= old(buf)@ + (encode_fields(m.piece_status()) + encode_fields(m.piece_result_hash()) + encode_fields(m.piece_exception()) + encode_fields(m.piece_submissions()) + encode_fields(m.piece_inspectors())));
        }
        put_rep_string_field(buf, 6, &self.remaining_inspectors);
        proof {
            assert(buf@ =~= old(buf)@ + (encode_fields(m.piece_status()) + encode_fields(m.piece_result_hash()) + encode_fields(m.piece_exception()) + encode_fields(m.piece_submissions()) + encode_fields(m.piece_inspectors()) + encode_fields(m.piece_remaining_inspectors())));
        }
        proof {
            m.lemma_encode_split();
        }
    }

    /// The protobuf encoding of the message.
    pub fn encode_to_vec(&self) -> (r: Vec<u8>)
        ensures
            r@ == self@.encode(),
    {
        let mut buf = Vec::new();
        self.encode_raw(&mut buf);
        proof {
            assert(buf@ =~= self@.encode());
        }
        buf
    }

    /// Reads the message from its raw fields.
    pub fn from_fields(fields: &Vec<RawField>) -> (res: Result<InspectionPathStatus, WireError>)
        ensures
            match InspectionPathStatusV::from_raw(fields_view(fields@)) {
                Some(m) => res matches Ok(x) && x@ == m,
                None => res is Err,
            },
    {
        let ghost fs = fields_view(fields@);
        let mut status: i32 = 0;
        let mut result_hash: String = String::new();
        let mut exception: Vec<u8> = Vec::new();
        let mut submissions: StringMap<u32> = StringMap::new();
        let mut inspectors: Vec<String> = Vec::new();
        let mut remaining_inspectors: Vec<String> = Vec::new();
        let mut i: usize = 0;
        proof {
            assert(fs.take(0) =~= Seq::<(u32, RawV)>::empty());
            assert(fields_view(Seq::<RawField>::empty()) =~= Seq::<(u32, RawV)>::empty());
        }
        while i < fields.len()
            invariant
                fs == fields_view(fields@),
                i <= fields@.len(),
                last_of(sel(fs.take(i as int), 1), conv_i32(), 0) == Some(status),
                last_of(sel(fs.take(i as int), 2), conv_string(), Seq::<char>::empty()) == Some(result_hash@),
                last_of(sel(fs.take(i as int), 3), conv_bytes(), Seq::<u8>::empty()) == Some(exception@),
                map_of(sel(fs.take(i as int), 4), val_u32()) == Some(submissions@),
                concat_of(sel(fs.take(i as int), 5), conv_rep_string()) == Some(strings_view(inspectors@)),
                concat_of(sel(fs.take(i as int), 6), conv_rep_string()) == Some(strings_view(remaining_inspectors@)),
            decreases fields@.len() - i,
        {
            let f = &fields[i];
            proof {
                lemma_sel_take_step(fs, i as int);
            }
            if f.tag == 1 {
                step_i32(&mut status, &f.value, Ghost(fs), Ghost(i as int))?;
            } else if f.tag == 2 {
                step_string(&mut result_hash, &f.value, Ghost(fs), Ghost(i as int))?;
            } else if f.tag == 3 {
                step_bytes(&mut exception, &f.value, Ghost(fs), Ghost(i as int))?;
            } else if f.tag == 4 {
                step_map_u32(&mut submissions, &f.value, Ghost(fs), Ghost(i as int))?;
            } else if f.tag == 5 {
                step_rep_string(&mut inspectors, &f.value, Ghost(fs), Ghost(i as int))?;
            } else if f.tag == 6 {
                step_rep_string(&mut remaining_inspectors, &f.value, Ghost(fs), Ghost(i as int))?;
            }
            i = i + 1;
        }
        proof {
            assert(fs.take(i as int) =~= fs);
        }
        Ok(InspectionPathStatus { status, result_hash, exception, submissions, inspectors, remaining_inspectors })
    }

    /// Reads the message from its protobuf encoding.
    pub fn decode(bytes: &[u8]) -> (res: Result<InspectionPathStatus, WireError>)
        ensures
            match InspectionPathStatusV::decode(bytes@) {
                Some(m) => res matches Ok(x) && x@ == m,
                None => res is Err,
            },
    {
        let fields = parse_fields_exec(bytes)?;
        InspectionPathStatus::from_fields(&fields)
    }

    /// Appends a `map<string, _>` field with these messages as values.
    pub fn put_map(buf: &mut Vec<u8>, t: u32, m: &StringMap<InspectionPathStatus>)
        requires
            1 <= t <= MAX_TAG,
        ensures
            final(buf)@ == old(buf)@ + encode_fields(piece(t, vals_map(m@, venc_msg(InspectionPathStatusV::encode_fn())))),
    {
        let es = m.entries();
        let ghost ev = m@;
        let mut i: usize = 0;
        proof {
            assert(vals_map(ev.take(0), venc_msg(InspectionPathStatusV::encode_fn())) =~= Seq::<RawV>::empty());
            lemma_encode_empty_piece(t);
            assert(buf@ =~= old(buf)@ + Seq::<u8>::empty());
        }
        while i < es.len()
            invariant
                1 <= t <= MAX_TAG,
                view_entries(es@) == ev,
                i <= ev.len(),
                buf@ == old(buf)@ + encode_fields(piece(t, vals_map(ev.take(i as int), venc_msg(InspectionPathStatusV::encode_fn())))),
            decreases ev.len() - i,
        {
            let mut entry: Vec<u8> = Vec::new();
            put_string_field(&mut entry, 1, &es[i].0);
            let vb = es[i].1.encode_to_vec();
            put_bytes_field(&mut entry, 2, vb.as_slice());
            proof {
                let e = ev[i as int];
                assert(e.0 == es@[i as int].0@ && e.1 == es@[i as int].1@);
                lemma_encode_fields_concat(piece(1, vals_string(e.0)), piece(2, vals_bytes(e.1.encode())));
                assert(entry@ =~= encode_fields(entry_raw(e.0, (venc_msg(InspectionPathStatusV::encode_fn()))(e.1))));
            }
            put_delimited(buf, t, entry.as_slice());
            proof {
                let p0 = piece(t, vals_map(ev.take(i as int), venc_msg(InspectionPathStatusV::encode_fn())));
                let q = piece(t, seq![RawV::Bytes(entry@)]);
                assert(piece(t, vals_map(ev.take(i + 1), venc_msg(InspectionPathStatusV::encode_fn()))) =~= p0 + q);
                lemma_encode_fields_concat(p0, q);
            }
            i = i + 1;
        }
        proof {
            assert(ev.take(i as int) =~= ev);
        }
    }

    /// One more entry of a `map<string, _>` field with these messages as values.
    pub fn step_map(cur: &mut StringMap<InspectionPathStatus>, r: &RawValue, Ghost(fs): Ghost<Seq<(u32, RawV)>>, Ghost(i): Ghost<int>) -> (res: Result<(), WireError>)
        requires
            0 <= i < fs.len(),
            fs[i].1 == r@,
            map_of(sel(fs.take(i), fs[i].0), val_msg(InspectionPathStatusV::from_raw_fn())) == Some(old(cur)@),
        ensures
            res is Ok ==> map_of(sel(fs.take(i + 1), fs[i].0), val_msg(InspectionPathStatusV::from_raw_fn())) == Some(final(cur)@),
            res is Err ==> map_of(sel(fs, fs[i].0), val_msg(InspectionPathStatusV::from_raw_fn())) is None,
    {
        proof {
            lemma_concat_of_at(fs, i, conv_entry(val_msg(InspectionPathStatusV::from_raw_fn())));
        }
        let ef = raw_fields(r)?;
        let ghost efs = fields_view(ef@);
        let mut key = String::new();
        let mut value_fields: Vec<RawField> = Vec::new();
        let mut value_present = false;
        let mut j: usize = 0;
        proof {
            assert(efs.take(0) =~= Seq::<(u32, RawV)>::empty());
            assert(fields_view(Seq::<RawField>::empty()) =~= Seq::<(u32, RawV)>::empty());
            if (conv_entry(val_msg(InspectionPathStatusV::from_raw_fn())))(r@) is None {
                assert(concat_of(sel(fs.take(i + 1), fs[i].0), conv_entry(val_msg(InspectionPathStatusV::from_raw_fn()))) is None);
            }
        }
        while j < ef.len()
            invariant
                efs == fields_view(ef@),
                j <= ef@.len(),
                last_of(sel(efs.take(j as int), 1), conv_string(), Seq::<char>::empty()) == Some(key@),
                concat_of(sel(efs.take(j as int), 2), conv_fields()) == Some(fields_view(value_fields@)),
                value_present == (sel(efs.take(j as int), 2).len() > 0),
                (conv_fields())(r@) == Some(efs),
                (conv_entry(val_msg(InspectionPathStatusV::from_raw_fn())))(r@) is None ==> map_of(sel(fs, fs[i].0), val_msg(InspectionPathStatusV::from_raw_fn())) is None,
            decreases ef@.len() - j,
        {
            let f = &ef[j];
            proof {
                lemma_sel_take_step(efs, j as int);
            }
            if f.tag == 1 {
                step_string(&mut key, &f.value, Ghost(efs), Ghost(j as int))?;
            } else if f.tag == 2 {
                step_msg_fields(&mut value_fields, &mut value_present, &f.value, Ghost(efs), Ghost(j as int))?;
            }
            j = j + 1;
        }
        proof {
            assert(efs.take(j as int) =~= efs);
        }
        let value = InspectionPathStatus::from_fields(&value_fields)?;
        proof {
            let p = concat_of(sel(fs.take(i), fs[i].0), conv_entry(val_msg(InspectionPathStatusV::from_raw_fn()))).unwrap();
            assert((p + seq![(key@, value@)]).drop_last() =~= p);
        }
        cur.insert(key, value);
        Ok(())
    }

}

impl Default for InspectionPathStatus {
    fn default() -> (r: InspectionPathStatus)
        ensures
            r@ == InspectionPathStatusV::default_value(),
    {
        let r = InspectionPathStatus {
            status: 0,
            result_hash: String::new(),
            exception: Vec::new(),
            submissions: StringMap::new(),
            inspectors: Vec::new(),
            remaining_inspectors: Vec::new(),
        };
        proof {
            assert(r@.result_hash =~= InspectionPathStatusV::default_value().result_hash);
            assert(r@.exception =~= InspectionPathStatusV::default_value().exception);
            assert(r@.submissions =~= InspectionPathStatusV::default_value().submissions);
            assert(r@.inspectors =~= InspectionPathStatusV::default_value().inspectors);
            assert(r@.remaining_inspectors =~= InspectionPathStatusV::default_value().remaining_inspectors);
            assert(r@ =~= InspectionPathStatusV::default_value());
        }
        r
    }
}

impl ProtoMessage for InspectionPathStatus {
    open spec fn encoded(m: InspectionPathStatusV) -> Seq<u8> {
        m.encode()
    }

    open spec fn decoded(bytes: Seq<u8>) -> Option<InspectionPathStatusV> {
        InspectionPathStatusV::decode(bytes)
    }

    fn encode_bytes(&self) -> (r: Vec<u8>) {
        self.encode_to_vec()
    }

    fn decode_bytes(bytes: &[u8]) -> (r: Result<InspectionPathStatus, WireError>) {
        InspectionPathStatus::decode(bytes)
    }
}

/// Where the inspection of an era stands.
#[derive(Debug)]
pub struct InspectionState {
    pub era_id: u64,
    pub total_paths: u32,
    pub verified_paths: u32,
    pub unverified_paths: u32,
    pub pending_paths: u32,
    pub irf: u32,
    pub paths: StringMap<InspectionPathStatus>,
    pub updated_at: u64,
    pub archived_cid: Vec<u8>,
    pub archived_at: u64,
    pub archival_status: i32,
}

/// The value of a [`InspectionState`].
pub struct InspectionStateV {
    pub era_id: u64,
    pub total_paths: u32,
    pub verified_paths: u32,
    pub unverified_paths: u32,
    pub pending_paths: u32,
    pub irf: u32,
    pub paths: Seq<(Seq<char>, InspectionPathStatusV)>,
    pub updated_at: u64,
    pub archived_cid: Seq<u8>,
    pub archived_at: u64,
    pub archival_status: i32,
}

impl View for InspectionState {
    type V = InspectionStateV;

    open spec fn view(&self) -> InspectionStateV {
        InspectionStateV {
            era_id: self.era_id,
            total_paths: self.total_paths,
            verified_paths: self.verified_paths,
            unverified_paths: self.unverified_paths,
            pending_paths: self.pending_paths,
            irf: self.irf,
            paths: self.paths@,
            updated_at: self.updated_at,
            archived_cid: self.archived_cid@,
            archived_at: self.archived_at,
            archival_status: self.archival_status,
        }
    }
}

impl InspectionStateV {
    /// The message with every field at its default.
    pub open spec fn default_value() -> InspectionStateV {
        InspectionStateV {
            era_id: 0,
            total_paths: 0,
            verified_paths: 0,
            unverified_paths: 0,
            pending_paths: 0,
            irf: 0,
            paths: Seq::<(Seq<char>, InspectionPathStatusV)>::empty(),
            updated_at: 0,
            archived_cid: Seq::<u8>::empty(),
            archived_at: 0,
            archival_status: 0,
        }
    }

    /// Map fields hold their keys in order, each once, here and in nested messages.
    pub open spec fn wf(self) -> bool {
        &&& keys_sorted(self.paths)
        &&& (forall|i: int| 0 <= i < self.paths.len() ==> (#[trigger] self.paths[i]).1.wf())
    }

    pub open spec fn piece_era_id(self) -> Seq<(u32, RawV)> {
        piece(1, vals_u64(self.era_id))
    }

    pub open spec fn piece_total_paths(self) -> Seq<(u32, RawV)> {
        piece(2, vals_u32(self.total_paths))
    }

    pub open spec fn piece_verified_paths(self) -> Seq<(u32, RawV)> {
        piece(3, vals_u32(self.verified_paths))
    }

    pub open spec fn piece_unverified_paths(self) -> Seq<(u32, RawV)> {
        piece(4, vals_u32(self.unverified_paths))
    }

    pub open spec fn piece_pending_paths(self) -> Seq<(u32, RawV)> {
        piece(5, vals_u32(self.pending_paths))
    }

    pub open spec fn piece_irf(self) -> Seq<(u32, RawV)> {
        piece(6, vals_u32(self.irf))
    }

    pub open spec fn piece_paths(self) -> Seq<(u32, RawV)> {
        piece(7, vals_map(self.paths, venc_msg(InspectionPathStatusV::encode_fn())))
    }

    pub open spec fn piece_updated_at(self) -> Seq<(u32, RawV)> {
        piece(8, vals_u64(self.updated_at))
    }

    pub open spec fn piece_archived_cid(self) -> Seq<(u32, RawV)> {
        piece(9, vals_bytes(self.archived_cid))
    }

    pub open spec fn piece_archived_at(self) -> Seq<(u32, RawV)> {
        piece(10, vals_u64(self.archived_at))
    }

    pub open spec fn piece_archival_status(self) -> Seq<(u32, RawV)> {
        piece(11, vals_i32(self.archival_status))
    }

    /// The raw fields the message is written as, in field order.
    pub open spec fn to_raw(self) -> Seq<(u32, RawV)> {
        self.piece_era_id() + self.piece_total_paths() + self.piece_verified_paths() + self.piece_unverified_paths() + self.piece_pending_paths() + self.piece_irf() + self.piece_paths() + self.piece_updated_at() + self.piece_archived_cid() + self.piece_archived_at() + self.piece_archival_status()
    }

    /// The message read from raw fields, as prost reads it.
    pub open spec fn from_raw(fs: Seq<(u32, RawV)>) -> Option<InspectionStateV> {
        let era_id = last_of(sel(fs, 1), conv_u64(), 0);
        let total_paths = last_of(sel(fs, 2), conv_u32(), 0);
        let verified_paths = last_of(sel(fs, 3), conv_u32(), 0);
        let unverified_paths = last_of(sel(fs, 4), conv_u32(), 0);
        let pending_paths = last_of(sel(fs, 5), conv_u32(), 0);
        let irf = last_of(sel(fs, 6), conv_u32(), 0);
        let paths = map_of(sel(fs, 7), val_msg(InspectionPathStatusV::from_raw_fn()));
        let updated_at = last_of(sel(fs, 8), conv_u64(), 0);
        let archived_cid = last_of(sel(fs, 9), conv_bytes(), Seq::<u8>::empty());
        let archived_at = last_of(sel(fs, 10), conv_u64(), 0);
        let archival_status = last_of(sel(fs, 11), conv_i32(), 0);
        if era_id is Some && total_paths is Some && verified_paths is Some && unverified_paths is Some && pending_paths is Some && irf is Some && paths is Some && updated_at is Some && archived_cid is Some && archived_at is Some && archival_status is Some {
            Some(InspectionStateV {
                era_id: era_id.unwrap(),
                total_paths: total_paths.unwrap(),
                verified_paths: verified_paths.unwrap(),
                unverified_paths: unverified_paths.unwrap(),
                pending_paths: pending_paths.unwrap(),
                irf: irf.unwrap(),
                paths: paths.unwrap(),
                updated_at: updated_at.unwrap(),
                archived_cid: archived_cid.unwrap(),
                archived_at: archived_at.unwrap(),
                archival_status: archival_status.unwrap(),
            })
        } else {
            None
        }
    }

    pub open spec fn from_raw_fn() -> spec_fn(Seq<(u32, RawV)>) -> Option<InspectionStateV> {
        |fs: Seq<(u32, RawV)>| InspectionStateV::from_raw(fs)
    }

    /// The protobuf encoding of the message.
    pub open spec fn encode(self) -> Seq<u8> {
        encode_fields(self.to_raw())
    }

    pub open spec fn encode_fn() -> spec_fn(InspectionStateV) -> Seq<u8> {
        |m: InspectionStateV| m.encode()
    }

    /// The message read from bytes, if they hold one.
    pub open spec fn decode(s: Seq<u8>) -> Option<InspectionStateV> {
        decode_with(s, InspectionStateV::from_raw_fn())
    }

    /// The encoding is the encodings of the fields one after the other.
    pub proof fn lemma_encode_split(self)
        ensures
            self.encode() == encode_fields(self.piece_era_id()) + encode_fields(self.piece_total_paths()) + encode_fields(self.piece_verified_paths()) + encode_fields(self.piece_unverified_paths()) + encode_fields(self.piece_pending_paths()) + encode_fields(self.piece_irf()) + encode_fields(self.piece_paths()) + encode_fields(self.piece_updated_at()) + encode_fields(self.piece_archived_cid()) + encode_fields(self.piece_archived_at()) + encode_fields(self.piece_archival_status()),
    {
        lemma_encode_fields_concat(self.piece_era_id(), self.piece_total_paths());
        lemma_encode_fields_concat(self.piece_era_id() + self.piece_total_paths(), self.piece_verified_paths());
        lemma_encode_fields_concat(self.piece_era_id() + self.piece_total_paths() + self.piece_verified_paths(), self.piece_unverified_paths());
        lemma_encode_fields_concat(self.piece_era_id() + self.piece_total_paths() + self.piece_verified_paths() + self.piece_unverified_paths(), self.piece_pending_paths());
        lemma_encode_fields_concat(self.piece_era_id() + self.piece_total_paths() + self.piece_verified_paths() + self.piece_unverified_paths() + self.piece_pending_paths(), self.piece_irf());
        lemma_encode_fields_concat(self.piece_era_id() + self.piece_total_paths() + self.piece_verified_paths() + self.piece_unverified_paths() + self.piece_pending_paths() + self.piece_irf(), self.piece_paths());
        lemma_encode_fields_concat(self.piece_era_id() + self.piece_total_paths() + self.piece_verified_paths() + self.piece_unverified_paths() + self.piece_pending_paths() + self.piece_irf() + self.piece_paths(), self.piece_updated_at());
        lemma_encode_fields_concat(self.piece_era_id() + self.piece_total_paths() + self.piece_verified_paths() + self.piece_unverified_paths() + self.piece_pending_paths() + self.piece_irf() + self.piece_paths() + self.piece_updated_at(), self.piece_archived_cid());
        lemma_encode_fields_concat(self.piece_era_id() + self.piece_total_paths() + self.piece_verified_paths() + self.piece_unverified_paths() + self.piece_pending_paths() + self.piece_irf() + self.piece_paths() + self.piece_updated_at() + self.piece_archived_cid(), self.piece_archived_at());
        lemma_encode_fields_concat(self.piece_era_id() + self.piece_total_paths() + self.piece_verified_paths() + self.piece_unverified_paths() + self.piece_pending_paths() + self.piece_irf() + self.piece_paths() + self.piece_updated_at() + self.piece_archived_cid() + self.piece_archived_at(), self.piece_archival_status());
    }

    /// Reading the raw fields of a message gives the message back.
    #[verifier::spinoff_prover]
    #[verifier::rlimit(60)]
    pub proof fn lemma_from_to_raw(self)
        requires
            self.wf(),
            self.encode().len() <= u64::MAX,
        ensures
            InspectionStateV::from_raw(self.to_raw()) == Some(self),
            fields_ok(self.to_raw()),
        decreases self.encode().len(),
    {
        let fs = self.to_raw();
        self.lemma_encode_split();
        assert(sel(fs, 1) =~= vals_u64(self.era_id));
        lemma_u64_round_trip(self.era_id);
        lemma_piece_ok(1, vals_u64(self.era_id));
        assert(sel(fs, 2) =~= vals_u32(self.total_paths));
        lemma_u32_round_trip(self.total_paths);
        lemma_piece_ok(2, vals_u32(self.total_paths));
        lemma_fields_ok_concat(self.piece_era_id(), self.piece_total_paths());
        assert(sel(fs, 3) =~= vals_u32(self.verified_paths));
        lemma_u32_round_trip(self.verified_paths);
        lemma_piece_ok(3, vals_u32(self.verified_paths));
        lemma_fields_ok_concat(self.piece_era_id() + self.piece_total_paths(), self.piece_verified_paths());
        assert(sel(fs, 4) =~= vals_u32(self.unverified_paths));
        lemma_u32_round_trip(self.unverified_paths);
        lemma_piece_ok(4, vals_u32(self.unverified_paths));
        lemma_fields_ok_concat(self.piece_era_id() + self.piece_total_paths() + self.piece_verified_paths(), self.piece_unverified_paths());
        assert(sel(fs, 5) =~= vals_u32(self.pending_paths));
        lemma_u32_round_trip(self.pending_paths);
        lemma_piece_ok(5, vals_u32(self.pending_paths));
        lemma_fields_ok_concat(self.piece_era_id() + self.piece_total_paths() + self.piece_verified_paths() + self.piece_unverified_paths(), self.piece_pending_paths());
        assert(sel(fs, 6) =~= vals_u32(self.irf));
        lemma_u32_round_trip(self.irf);
        lemma_piece_ok(6, vals_u32(self.irf));
        lemma_fields_ok_concat(self.piece_era_id() + self.piece_total_paths() + self.piece_verified_paths() + self.piece_unverified_paths() + self.piece_pending_paths(), self.piece_irf());
        assert(sel(fs, 7) =~= vals_map(self.paths, venc_msg(InspectionPathStatusV::encode_fn())));
        assert forall|i: int| 0 <= i < self.paths.len() implies {
            &&& (val_msg(InspectionPathStatusV::from_raw_fn()))((venc_msg(InspectionPathStatusV::encode_fn()))((#[trigger] self.paths[i]).1)) == Some(self.paths[i].1)
            &&& vals_ok((venc_msg(InspectionPathStatusV::encode_fn()))(self.paths[i].1))
            &&& encode_fields(entry_raw(self.paths[i].0, (venc_msg(InspectionPathStatusV::encode_fn()))(self.paths[i].1))).len() <= u64::MAX
        } by {
            lemma_piece_payload_bound(7, vals_map(self.paths, venc_msg(InspectionPathStatusV::encode_fn())), i);
            let m = self.paths[i].1;
            lemma_entry_payload_bound(self.paths[i].0, m.encode());
            m.lemma_from_to_raw();
            lemma_val_msg_round_trip(m, m.encode(), m.to_raw(), InspectionPathStatusV::from_raw_fn());
        }
        lemma_map_round_trip(self.paths, val_msg(InspectionPathStatusV::from_raw_fn()), venc_msg(InspectionPathStatusV::encode_fn()));
        lemma_piece_ok(7, vals_map(self.paths, venc_msg(InspectionPathStatusV::encode_fn())));
        lemma_fields_ok_concat(self.piece_era_id() + self.piece_total_paths() + self.piece_verified_paths() + self.piece_unverified_paths() + self.piece_pending_paths() + self.piece_irf(), self.piece_paths());
        assert(sel(fs, 8) =~= vals_u64(self.updated_at));
        lemma_u64_round_trip(self.updated_at);
        lemma_piece_ok(8, vals_u64(self.updated_at));
        lemma_fields_ok_concat(self.piece_era_id() + self.piece_total_paths() + self.piece_verified_paths() + self.piece_unverified_paths() + self.piece_pending_paths() + self.piece_irf() + self.piece_paths(), self.piece_updated_at());
        assert(sel(fs, 9) =~= vals_bytes(self.archived_cid));
        lemma_bytes_round_trip(self.archived_cid);
        lemma_piece_ok(9, vals_bytes(self.archived_cid));
        lemma_fields_ok_concat(self.piece_era_id() + self.piece_total_paths() + self.piece_verified_paths() + self.piece_unverified_paths() + self.piece_pending_paths() + self.piece_irf() + self.piece_paths() + self.piece_updated_at(), self.piece_archived_cid());
        assert(sel(fs, 10) =~= vals_u64(self.archived_at));
        lemma_u64_round_trip(self.archived_at);
        lemma_piece_ok(10, vals_u64(self.archived_at));
        lemma_fields_ok_concat(self.piece_era_id() + self.piece_total_paths() + self.piece_verified_paths() + self.piece_unverified_paths() + self.piece_pending_paths() + self.piece_irf() + self.piece_paths() + self.piece_updated_at() + self.piece_archived_cid(), self.piece_archived_at());
        assert(sel(fs, 11) =~= vals_i32(self.archival_status));
        lemma_i32_round_trip(self.archival_status);
        lemma_piece_ok(11, vals_i32(self.archival_status));
        lemma_fields_ok_concat(self.piece_era_id() + self.piece_total_paths() + self.piece_verified_paths() + self.piece_unverified_paths() + self.piece_pending_paths() + self.piece_irf() + self.piece_paths() + self.piece_updated_at() + self.piece_archived_cid() + self.piece_archived_at(), self.piece_archival_status());
    }

    pub open spec fn to_raw_fn() -> spec_fn(InspectionStateV) -> Seq<(u32, RawV)> {
        |m: InspectionStateV| m.to_raw()
    }
}

/// Decoding the encoding of a inspection state gives it back.
pub proof fn lemma_inspection_state_round_trip(m: InspectionStateV)
    requires
        m.wf(),
        m.encode().len() <= u64::MAX,
    ensures
        InspectionStateV::decode(m.encode()) == Some(m),
{
    m.lemma_from_to_raw();
    lemma_parse_encode_fields(m.to_raw());
}

/// Empty bytes decode to the default inspection state.
pub proof fn lemma_inspection_state_decode_empty()
    ensures
        InspectionStateV::decode(Seq::empty()) == Some(InspectionStateV::default_value()),
{
    let e = Seq::<(u32, RawV)>::empty();
    assert(sel(e, 1) == Seq::<RawV>::empty());
    assert(sel(e, 2) == Seq::<RawV>::empty());
    assert(sel(e, 3) == Seq::<RawV>::empty());
    assert(sel(e, 4) == Seq::<RawV>::empty());
    assert(sel(e, 5) == Seq::<RawV>::empty());
    assert(sel(e, 6) == Seq::<RawV>::empty());
    assert(sel(e, 7) == Seq::<RawV>::empty());
    assert(sel(e, 8) == Seq::<RawV>::empty());
    assert(sel(e, 9) == Seq::<RawV>::empty());
    assert(sel(e, 10) == Seq::<RawV>::empty());
    assert(sel(e, 11) == Seq::<RawV>::empty());
}

impl InspectionState {
    /// Appends the protobuf encoding of the message.
    #[verifier::spinoff_prover]
    #[verifier::rlimit(60)]
    pub fn encode_raw(&self, buf: &mut Vec<u8>)
        ensures
            final(buf)@ == old(buf)@ + self@.encode(),
    {
        let ghost m = self@;
        put_u64_field(buf, 1, self.era_id);
        put_u32_field(buf, 2, self.total_paths);
        proof {
            assert(buf@ =~= old(buf)@ + (encode_fields(m.piece_era_id()) + encode_fields(m.piece_total_paths())));
        }
        put_u32_field(buf, 3, self.verified_paths);
        proof {
            assert(buf@ =~= old(buf)@ + (encode_fields(m.piece_era_id()) + encode_fields(m.piece_total_paths()) + encode_fields(m.piece_verified_paths())));
        }
        put_u32_field(buf, 4, self.unverified_paths);
        proof {
            assert(buf@ =~= old(buf)@ + (encode_fields(m.piece_era_id()) + encode_fields(m.piece_total_paths()) + encode_fields(m.piece_verified_paths()) + encode_fields(m.piece_unverified_paths())));
        }
        put_u32_field(buf, 5, self.pending_paths);
        proof {
            assert(buf@ =~= old(buf)@ + (encode_fields(m.piece_era_id()) + encode_fields(m.piece_total_paths()) + encode_fields(m.piece_verified_paths()) + encode_fields(m.piece_unverified_paths()) + encode_fields(m.piece_pending_paths())));
        }
        put_u32_field(buf, 6, self.irf);
        proof {
            assert(buf@ =~= old(buf)@ + (encode_fields(m.piece_era_id()) + encode_fields(m.piece_total_paths()) + encode_fields(m.piece_verified_paths()) + encode_fields(m.piece_unverified_paths()) + encode_fields(m.piece_pending_paths()) + encode_fields(m.piece_irf())));
        }
        InspectionPathStatus::put_map(buf, 7, &self.paths);
        proof {
            assert(buf@ =~= old(buf)@ + (encode_fields(m.piece_era_id()) + encode_fields(m.piece_total_paths()) + encode_fields(m.piece_verified_paths()) + encode_fields(m.piece_unverified_paths()) + encode_fields(m.piece_pending_paths()) + encode_fields(m.piece_irf()) + encode_fields(m.piece_paths())));
        }
        put_u64_field(buf, 8, self.updated_at);
        proof {
            assert(buf@ =~= old(buf)@ + (encode_fields(m.piece_era_id()) + encode_fields(m.piece_total_paths()) + encode_fields(m.piece_verified_paths()) + encode_fields(m.piece_unverified_paths()) + encode_fields(m.piece_pending_paths()) + encode_fields(m.piece_irf()) + encode_fields(m.piece_paths()) + encode_fields(m.piece_updated_at())));
        }
        put_bytes_field(buf, 9, self.archived_cid.as_slice());
        proof {
            assert(buf@ =~= old(buf)@ + (encode_fields(m.piece_era_id()) + encode_fields(m.piece_total_paths()) + encode_fields(m.piece_verified_paths()) + encode_fields(m.piece_unverified_paths()) + encode_fields(m.piece_pending_paths()) + encode_fields(m.piece_irf()) + encode_fields(m.piece_paths()) + encode_fields(m.piece_updated_at()) + encode_fields(m.piece_archived_cid())));
        }
        put_u64_field(buf, 10, self.archived_at);
        proof {
            assert(buf@ =~= old(buf)@ + (encode_fields(m.piece_era_id()) + encode_fields(m.piece_total_paths()) + encode_fields(m.piece_verified_paths()) + encode_fields(m.piece_unverified_paths()) + encode_fields(m.piece_pending_paths()) + encode_fields(m.piece_irf()) + encode_fields(m.piece_paths()) + encode_fields(m.piece_updated_at()) + encode_fields(m.piece_archived_cid()) + encode_fields(m.piece_archived_at())));
        }
        put_i32_field(buf, 11, self.archival_status);
        proof {
            assert(buf@ =~= old(buf)@ + (encode_fields(m.piece_era_id()) + encode_fields(m.piece_total_paths()) + encode_fields(m.piece_verified_paths()) + encode_fields(m.piece_unverified_paths()) + encode_fields(m.piece_pending_paths()) + encode_fields(m.piece_irf()) + encode_fields(m.piece_paths()) + encode_fields(m.piece_updated_at()) + encode_fields(m.piece_archived_cid()) + encode_fields(m.piece_archived_at()) + encode_fields(m.piece_archival_status())));
        }
        proof {
            m.lemma_encode_split();
        }
    }

    /// The protobuf encoding of the message.
    pub fn encode_to_vec(&self) -> (r: Vec<u8>)
        ensures
            r@ == self@.encode(),
    {
        let mut buf = Vec::new();
        self.encode_raw(&mut buf);
        proof {
            assert(buf@ =~= self@.encode());
        }
        buf
    }

    /// Reads the message from its raw fields.
    #[verifier::spinoff_prover]
    #[verifier::rlimit(60)]
    pub fn from_fields(fields: &Vec<RawField>) -> (res: Result<InspectionState, WireError>)
        ensures
            match InspectionStateV::from_raw(fields_view(fields@)) {
                Some(m) => res matches Ok(x) && x@ == m,
                None => res is Err,
            },
    {
        let ghost fs = fields_view(fields@);
        let mut era_id: u64 = 0;
        let mut total_paths: u32 = 0;
        let mut verified_paths: u32 = 0;
        let mut unverified_paths: u32 = 0;
        let mut pending_paths: u32 = 0;
        let mut irf: u32 = 0;
        let mut paths: StringMap<InspectionPathStatus> = StringMap::new();
        let mut updated_at: u64 = 0;
        let mut archived_cid: Vec<u8> = Vec::new();
        let mut archived_at: u64 = 0;
        let mut archival_status: i32 = 0;
        let mut i: usize = 0;
        proof {
            assert(fs.take(0) =~= Seq::<(u32, RawV)>::empty());
            assert(fields_view(Seq::<RawField>::empty()) =~= Seq::<(u32, RawV)>::empty());
        }
        while i < fields.len()
            invariant
                fs == fields_view(fields@),
                i <= fields@.len(),
                last_of(sel(fs.take(i as int), 1), conv_u64(), 0) == Some(era_id),
                last_of(sel(fs.take(i as int), 2), conv_u32(), 0) == Some(total_paths),
                last_of(sel(fs.take(i as int), 3), conv_u32(), 0) == Some(verified_paths),
                last_of(sel(fs.take(i as int), 4), conv_u32(), 0) == Some(unverified_paths),
                last_of(sel(fs.take(i as int), 5), conv_u32(), 0) == Some(pending_paths),
                last_of(sel(fs.take(i as int), 6), conv_u32(), 0) == Some(irf),
                map_of(sel(fs.take(i as int), 7), val_msg(InspectionPathStatusV::from_raw_fn())) == Some(paths@),
                last_of(sel(fs.take(i as int), 8), conv_u64(), 0) == Some(updated_at),
                last_of(sel(fs.take(i as int), 9), conv_bytes(), Seq::<u8>::empty()) == Some(archived_cid@),
                last_of(sel(fs.take(i as int), 10), conv_u64(), 0) == Some(archived_at),
                last_of(sel(fs.take(i as int), 11), conv_i32(), 0) == Some(archival_status),
            decreases fields@.len() - i,
        {
            let f = &fields[i];
            proof {
                lemma_sel_take_step(fs, i as int);
            }
            if f.tag == 1 {
                step_u64(&mut era_id, &f.value, Ghost(fs), Ghost(i as int))?;
            } else if f.tag == 2 {
                step_u32(&mut total_paths, &f.value, Ghost(fs), Ghost(i as int))?;
            } else if f.tag == 3 {
                step_u32(&mut verified_paths, &f.value, Ghost(fs), Ghost(i as int))?;
            } else if f.tag == 4 {
                step_u32(&mut unverified_paths, &f.value, Ghost(fs), Ghost(i as int))?;
            } else if f.tag == 5 {
                step_u32(&mut pending_paths, &f.value, Ghost(fs), Ghost(i as int))?;
            } else if f.tag == 6 {
                step_u32(&mut irf, &f.value, Ghost(fs), Ghost(i as int))?;
            } else if f.tag == 7 {
                InspectionPathStatus::step_map(&mut paths, &f.value, Ghost(fs), Ghost(i as int))?;
            } else if f.tag == 8 {
                step_u64(&mut updated_at, &f.value, Ghost(fs), Ghost(i as int))?;
            } else if f.tag == 9 {
                step_bytes(&mut archived_cid, &f.value, Ghost(fs), Ghost(i as int))?;
            } else if f.tag == 10 {
                step_u64(&mut archived_at, &f.value, Ghost(fs), Ghost(i as int))?;
            } else if f.tag == 11 {
                step_i32(&mut archival_status, &f.value, Ghost(fs), Ghost(i as int))?;
            }
            i = i + 1;
        }
        proof {
            assert(fs.take(i as int) =~= fs);
        }
        Ok(InspectionState { era_id, total_paths, verified_paths, unverified_paths, pending_paths, irf, paths, updated_at, archived_cid, archived_at, archival_status })
    }

    /// Reads the message from its protobuf encoding.
    pub fn decode(bytes: &[u8]) -> (res: Result<InspectionState, WireError>)
        ensures
            match InspectionStateV::decode(bytes@) {
                Some(m) => res matches Ok(x) && x@ == m,
                None => res is Err,
            },
    {
        let fields = parse_fields_exec(bytes)?;
        InspectionState::from_fields(&fields)
    }

}

impl Default for InspectionState {
    fn default() -> (r: InspectionState)
        ensures
            r@ == InspectionStateV::default_value(),
    {
        let r = InspectionState {
            era_id: 0,
            total_paths: 0,
            verified_paths: 0,
            unverified_paths: 0,
            pending_paths: 0,
            irf: 0,
            paths: StringMap::new(),
            updated_at: 0,
            archived_cid: Vec::new(),
            archived_at: 0,
            archival_status: 0,
        };
        proof {
            assert(r@.paths =~= InspectionStateV::default_value().paths);
            assert(r@.archived_cid =~= InspectionStateV::default_value().archived_cid);
            assert(r@ =~= InspectionStateV::default_value());
        }
        r
    }
}

impl ProtoMessage for InspectionState {
    open spec fn encoded(m: InspectionStateV) -> Seq<u8> {
        m.encode()
    }

    open spec fn decoded(bytes: Seq<u8>) -> Option<InspectionStateV> {
        InspectionStateV::decode(bytes)
    }

    fn encode_bytes(&self) -> (r: Vec<u8>) {
        self.encode_to_vec()
    }

    fn decode_bytes(bytes: &[u8]) -> (r: Result<InspectionState, WireError>) {
        InspectionState::decode(bytes)
    }
}

/// A path whose inspection found an exception.
#[derive(Debug)]
pub struct UnverifiedPath {
    pub path_hash: String,
    pub exception: Vec<u8>,
}

/// The value of a [`UnverifiedPath`].
pub struct UnverifiedPathV {
    pub path_hash: Seq<char>,
    pub exception: Seq<u8>,
}

impl View for UnverifiedPath {
    type V = UnverifiedPathV;

    open spec fn view(&self) -> UnverifiedPathV {
        UnverifiedPathV {
            path_hash: self.path_hash@,
            exception: self.exception@,
        }
    }
}

impl UnverifiedPathV {
    /// The message with every field at its default.
    pub open spec fn default_value() -> UnverifiedPathV {
        UnverifiedPathV {
            path_hash: Seq::<char>::empty(),
            exception: Seq::<u8>::empty(),
        }
    }

    /// Map fields hold their keys in order, each once, here and in nested messages.
    pub open spec fn wf(self) -> bool {
        true
    }

    pub open spec fn piece_path_hash(self) -> Seq<(u32, RawV)> {
        piece(1, vals_string(self.path_hash))
    }

    pub open spec fn piece_exception(self) -> Seq<(u32, RawV)> {
        piece(2, vals_bytes(self.exception))
    }

    /// The raw fields the message is written as, in field order.
    pub open spec fn to_raw(self) -> Seq<(u32, RawV)> {
        self.piece_path_hash() + self.piece_exception()
    }

    /// The message read from raw fields, as prost reads it.
    pub open spec fn from_raw(fs: Seq<(u32, RawV)>) -> Option<UnverifiedPathV> {
        let path_hash = last_of(sel(fs, 1), conv_string(), Seq::<char>::empty());
        let exception = last_of(sel(fs, 2), conv_bytes(), Seq::<u8>::empty());
        if path_hash is Some && exception is Some {
            Some(UnverifiedPathV {
                path_hash: path_hash.unwrap(),
                exception: exception.unwrap(),
            })
        } else {
            None
        }
    }

    pub open spec fn from_raw_fn() -> spec_fn(Seq<(u32, RawV)>) -> Option<UnverifiedPathV> {
        |fs: Seq<(u32, RawV)>| UnverifiedPathV::from_raw(fs)
    }

    /// The protobuf encoding of the message.
    pub open spec fn encode(self) -> Seq<u8> {
        encode_fields(self.to_raw())
    }

    pub open spec fn encode_fn() -> spec_fn(UnverifiedPathV) -> Seq<u8> {
        |m: UnverifiedPathV| m.encode()
    }

    /// The message read from bytes, if they hold one.
    pub open spec fn decode(s: Seq<u8>) -> Option<UnverifiedPathV> {
        decode_with(s, UnverifiedPathV::from_raw_fn())
    }

    /// The encoding is the encodings of the fields one after the other.
    pub proof fn lemma_encode_split(self)
        ensures
            self.encode() == encode_fields(self.piece_path_hash()) + encode_fields(self.piece_exception()),
    {
        lemma_encode_fields_concat(self.piece_path_hash(), self.piece_exception());
    }

    /// Reading the raw fields of a message gives the message back.
    pub proof fn lemma_from_to_raw(self)
        requires
            self.wf(),
            self.encode().len() <= u64::MAX,
        ensures
            UnverifiedPathV::from_raw(self.to_raw()) == Some(self),
            fields_ok(self.to_raw()),
        decreases self.encode().len(),
    {
        let fs = self.to_raw();
        self.lemma_encode_split();
        assert(sel(fs, 1) =~= vals_string(self.path_hash));
        lemma_string_round_trip(self.path_hash);
        lemma_piece_ok(1, vals_string(self.path_hash));
        assert(sel(fs, 2) =~= vals_bytes(self.exception));
        lemma_bytes_round_trip(self.exception);
        lemma_piece_ok(2, vals_bytes(self.exception));
        lemma_fields_ok_concat(self.piece_path_hash(), self.piece_exception());
    }

    pub open spec fn to_raw_fn() -> spec_fn(UnverifiedPathV) -> Seq<(u32, RawV)> {
        |m: UnverifiedPathV| m.to_raw()
    }
}

/// Decoding the encoding of a unverified path gives it back.
pub proof fn lemma_unverified_path_round_trip(m: UnverifiedPathV)
    requires
        m.wf(),
        m.encode().len() <= u64::MAX,
    ensures
        UnverifiedPathV::decode(m.encode()) == Some(m),
{
    m.lemma_from_to_raw();
    lemma_parse_encode_fields(m.to_raw());
}

/// Empty bytes decode to the default unverified path.
pub proof fn lemma_unverified_path_decode_empty()
    ensures
        UnverifiedPathV::decode(Seq::empty()) == Some(UnverifiedPathV::default_value()),
{
    let e = Seq::<(u32, RawV)>::empty();
    assert(sel(e, 1) == Seq::<RawV>::empty());
    assert(sel(e, 2) == Seq::<RawV>::empty());
}

impl UnverifiedPath {
    /// Appends the protobuf encoding of the message.
    pub fn encode_raw(&self, buf: &mut Vec<u8>)
        ensures
            final(buf)@ == old(buf)@ + self@.encode(),
    {
        let ghost m = self@;
        put_string_field(buf, 1, &self.path_hash);
        put_bytes_field(buf, 2, self.exception.as_slice());
        proof {
            assert(buf@ =~= old(buf)@ + (encode_fields(m.piece_path_hash()) + encode_fields(m.piece_exception())));
        }
        proof {
            m.lemma_encode_split();
        }
    }

    /// The protobuf encoding of the message.
    pub fn encode_to_vec(&self) -> (r: Vec<u8>)
        ensures
            r@ == self@.encode(),
    {
        let mut buf = Vec::new();
        self.encode_raw(&mut buf);
        proof {
            assert(buf@ =~= self@.encode());
        }
        buf
    }

    /// Reads the message from its raw fields.
    pub fn from_fields(fields: &Vec<RawField>) -> (res: Result<UnverifiedPath, WireError>)
        ensures
            match UnverifiedPathV::from_raw(fields_view(fields@)) {
                Some(m) => res matches Ok(x) && x@ == m,
                None => res is Err,
            },
    {
        let ghost fs = fields_view(fields@);
        let mut path_hash: String = String::new();
        let mut exception: Vec<u8> = Vec::new();
        let mut i: usize = 0;
        proof {
            assert(fs.take(0) =~= Seq::<(u32, RawV)>::empty());
            assert(fields_view(Seq::<RawField>::empty()) =~= Seq::<(u32, RawV)>::empty());
        }
        while i < fields.len()
            invariant
                fs == fields_view(fields@),
                i <= fields@.len(),
                last_of(sel(fs.take(i as int), 1), conv_string(), Seq::<char>::empty()) == Some(path_hash@),
                last_of(sel(fs.take(i as int), 2), conv_bytes(), Seq::<u8>::empty()) == Some(exception@),
            decreases fields@.len() - i,
        {
            let f = &fields[i];
            proof {
                lemma_sel_take_step(fs, i as int);
            }
            if f.tag == 1 {
                step_string(&mut path_hash, &f.value, Ghost(fs), Ghost(i as int))?;
            } else if f.tag == 2 {
                step_bytes(&mut exception, &f.value, Ghost(fs), Ghost(i as int))?;
            }
            i = i + 1;
        }
        proof {
            assert(fs.take(i as int) =~= fs);
        }
        Ok(UnverifiedPath { path_hash, exception })
    }

    /// Reads the message from its protobuf encoding.
    pub fn decode(bytes: &[u8]) -> (res: Result<UnverifiedPath, WireError>)
        ensures
            match UnverifiedPathV::decode(bytes@) {
                Some(m) => res matches Ok(x) && x@ == m,
                None => res is Err,
            },
    {
        let fields = parse_fields_exec(bytes)?;
        UnverifiedPath::from_fields(&fields)
    }

    /// The values of a sequence of messages.
    pub open spec fn views(v: Seq<UnverifiedPath>) -> Seq<UnverifiedPathV> {
        Seq::new(v.len(), |i: int| v[i]@)
    }

    /// Appends a repeated field of these messages.
    pub fn put_repeated(buf: &mut Vec<u8>, t: u32, v: &Vec<UnverifiedPath>)
        requires
            1 <= t <= MAX_TAG,
        ensures
            final(buf)@ == old(buf)@ + encode_fields(piece(t, vals_rep_msg(UnverifiedPath::views(v@), UnverifiedPathV::encode_fn()))),
    {
        let mut i: usize = 0;
        proof {
            assert(vals_rep_msg(UnverifiedPath::views(v@.take(0)), UnverifiedPathV::encode_fn()) =~= Seq::<RawV>::empty());
            lemma_encode_empty_piece(t);
            assert(buf@ =~= old(buf)@ + Seq::<u8>::empty());
        }
        while i < v.len()
            invariant
                1 <= t <= MAX_TAG,
                i <= v@.len(),
                buf@ == old(buf)@ + encode_fields(piece(t, vals_rep_msg(UnverifiedPath::views(v@.take(i as int)), UnverifiedPathV::encode_fn()))),
            decreases v@.len() - i,
        {
            let b = v[i].encode_to_vec();
            put_delimited(buf, t, b.as_slice());
            proof {
                let p0 = piece(t, vals_rep_msg(UnverifiedPath::views(v@.take(i as int)), UnverifiedPathV::encode_fn()));
                let q = piece(t, seq![RawV::Bytes(b@)]);
                assert(piece(t, vals_rep_msg(UnverifiedPath::views(v@.take(i + 1)), UnverifiedPathV::encode_fn())) =~= p0 + q);
                lemma_encode_fields_concat(p0, q);
            }
            i = i + 1;
        }
        proof {
            assert(v@.take(i as int) =~= v@);
        }
    }

    /// One more occurrence of a repeated field of these messages.
    pub fn step_repeated(cur: &mut Vec<UnverifiedPath>, r: &RawValue, Ghost(fs): Ghost<Seq<(u32, RawV)>>, Ghost(i): Ghost<int>) -> (res: Result<(), WireError>)
        requires
            0 <= i < fs.len(),
            fs[i].1 == r@,
            concat_of(sel(fs.take(i), fs[i].0), conv_msgs(UnverifiedPathV::from_raw_fn())) == Some(UnverifiedPath::views(old(cur)@)),
        ensures
            res is Ok ==> concat_of(sel(fs.take(i + 1), fs[i].0), conv_msgs(UnverifiedPathV::from_raw_fn())) == Some(UnverifiedPath::views(final(cur)@)),
            res is Err ==> concat_of(sel(fs, fs[i].0), conv_msgs(UnverifiedPathV::from_raw_fn())) is None,
    {
        proof {
            lemma_concat_of_at(fs, i, conv_msgs(UnverifiedPathV::from_raw_fn()));
        }
        let ef = raw_fields(r)?;
        let m = UnverifiedPath::from_fields(&ef)?;
        let ghost mv = m@;
        cur.push(m);
        proof {
            assert(UnverifiedPath::views(final(cur)@) =~= UnverifiedPath::views(old(cur)@) + seq![mv]);
        }
        Ok(())
    }

}

impl Default for UnverifiedPath {
    fn default() -> (r: UnverifiedPath)
        ensures
            r@ == UnverifiedPathV::default_value(),
    {
        let r = UnverifiedPath {
            path_hash: String::new(),
            exception: Vec::new(),
        };
        proof {
            assert(r@.path_hash =~= UnverifiedPathV::default_value().path_hash);
            assert(r@.exception =~= UnverifiedPathV::default_value().exception);
            assert(r@ =~= UnverifiedPathV::default_value());
        }
        r
    }
}

impl ProtoMessage for UnverifiedPath {
    open spec fn encoded(m: UnverifiedPathV) -> Seq<u8> {
        m.encode()
    }

    open spec fn decoded(bytes: Seq<u8>) -> Option<UnverifiedPathV> {
        UnverifiedPathV::decode(bytes)
    }

    fn encode_bytes(&self) -> (r: Vec<u8>) {
        self.encode_to_vec()
    }

    fn decode_bytes(bytes: &[u8]) -> (r: Result<UnverifiedPath, WireError>) {
        UnverifiedPath::decode(bytes)
    }
}

/// The outcome of an era's inspection.
#[derive(Debug)]
pub struct InspectionReceipt {
    pub era_id: u64,
    pub cluster_id: String,
    pub verified_paths: Vec<String>,
    pub unverified_paths: Vec<UnverifiedPath>,
    pub quorum_unreached_paths: Vec<String>,
    pub generated_at: u64,
    pub complete: bool,
    pub archived_cid: Vec<u8>,
    pub archived_at: u64,
    pub archival_status: i32,
}

/// The value of a [`InspectionReceipt`].
pub struct InspectionReceiptV {
    pub era_id: u64,
    pub cluster_id: Seq<char>,
    pub verified_paths: Seq<Seq<char>>,
    pub unverified_paths: Seq<UnverifiedPathV>,
    pub quorum_unreached_paths: Seq<Seq<char>>,
    pub generated_at: u64,
    pub complete: bool,
    pub archived_cid: Seq<u8>,
    pub archived_at: u64,
    pub archival_status: i32,
}

impl View for InspectionReceipt {
    type V = InspectionReceiptV;

    open spec fn view(&self) -> InspectionReceiptV {
        InspectionReceiptV {
            era_id: self.era_id,
            cluster_id: self.cluster_id@,
            verified_paths: strings_view(self.verified_paths@),
            unverified_paths: UnverifiedPath::views(self.unverified_paths@),
            quorum_unreached_paths: strings_view(self.quorum_unreached_paths@),
            generated_at: self.generated_at,
            complete: self.complete,
            archived_cid: self.archived_cid@,
            archived_at: self.archived_at,
            archival_status: self.archival_status,
        }
    }
}

impl InspectionReceiptV {
    /// The message with every field at its default.
    pub open spec fn default_value() -> InspectionReceiptV {
        InspectionReceiptV {
            era_id: 0,
            cluster_id: Seq::<char>::empty(),
            verified_paths: Seq::<Seq<char>>::empty(),
            unverified_paths: Seq::<UnverifiedPathV>::empty(),
            quorum_unreached_paths: Seq::<Seq<char>>::empty(),
            generated_at: 0,
            complete: false,
            archived_cid: Seq::<u8>::empty(),
            archived_at: 0,
            archival_status: 0,
        }
    }

    /// Map fields hold their keys in order, each once, here and in nested messages.
    pub open spec fn wf(self) -> bool {
        &&& (forall|i: int| 0 <= i < self.unverified_paths.len() ==> (#[trigger] self.unverified_paths[i]).wf())
    }

    pub open spec fn piece_era_id(self) -> Seq<(u32, RawV)> {
        piece(1, vals_u64(self.era_id))
    }

    pub open spec fn piece_cluster_id(self) -> Seq<(u32, RawV)> {
        piece(2, vals_string(self.cluster_id))
    }

    pub open spec fn piece_verified_paths(self) -> Seq<(u32, RawV)> {
        piece(3, vals_rep_string(self.verified_paths))
    }

    pub open spec fn piece_unverified_paths(self) -> Seq<(u32, RawV)> {
        piece(4, vals_rep_msg(self.unverified_paths, UnverifiedPathV::encode_fn()))
    }

    pub open spec fn piece_quorum_unreached_paths(self) -> Seq<(u32, RawV)> {
        piece(5, vals_rep_string(self.quorum_unreached_paths))
    }

    pub open spec fn piece_generated_at(self) -> Seq<(u32, RawV)> {
        piece(6, vals_u64(self.generated_at))
    }

    pub open spec fn piece_complete(self) -> Seq<(u32, RawV)> {
        piece(7, vals_bool(self.complete))
    }

    pub open spec fn piece_archived_cid(self) -> Seq<(u32, RawV)> {
        piece(8, vals_bytes(self.archived_cid))
    }

    pub open spec fn piece_archived_at(self) -> Seq<(u32, RawV)> {
        piece(9, vals_u64(self.archived_at))
    }

    pub open spec fn piece_archival_status(self) -> Seq<(u32, RawV)> {
        piece(10, vals_i32(self.archival_status))
    }

    /// The raw fields the message is written as, in field order.
    pub open spec fn to_raw(self) -> Seq<(u32, RawV)> {
        self.piece_era_id() + self.piece_cluster_id() + self.piece_verified_paths() + self.piece_unverified_paths() + self.piece_quorum_unreached_paths() + self.piece_generated_at() + self.piece_complete() + self.piece_archived_cid() + self.piece_archived_at() + self.piece_archival_status()
    }

    /// The message read from raw fields, as prost reads it.
    pub open spec fn from_raw(fs: Seq<(u32, RawV)>) -> Option<InspectionReceiptV> {
        let era_id = last_of(sel(fs, 1), conv_u64(), 0);
        let cluster_id = last_of(sel(fs, 2), conv_string(), Seq::<char>::empty());
        let verified_paths = concat_of(sel(fs, 3), conv_rep_string());
        let unverified_paths = concat_of(sel(fs, 4), conv_msgs(UnverifiedPathV::from_raw_fn()));
        let quorum_unreached_paths = concat_of(sel(fs, 5), conv_rep_string());
        let generated_at = last_of(sel(fs, 6), conv_u64(), 0);
        let complete = last_of(sel(fs, 7), conv_bool(), false);
        let archived_cid = last_of(sel(fs, 8), conv_bytes(), Seq::<u8>::empty());
        let archived_at = last_of(sel(fs, 9), conv_u64(), 0);
        let archival_status = last_of(sel(fs, 10), conv_i32(), 0);
        if era_id is Some && cluster_id is Some && verified_paths is Some && unverified_paths is Some && quorum_unreached_paths is Some && generated_at is Some && complete is Some && archived_cid is Some && archived_at is Some && archival_status is Some {
            Some(InspectionReceiptV {
                era_id: era_id.unwrap(),
                cluster_id: cluster_id.unwrap(),
                verified_paths: verified_paths.unwrap(),
                unverified_paths: unverified_paths.unwrap(),
                quorum_unreached_paths: quorum_unreached_paths.unwrap(),
                generated_at: generated_at.unwrap(),
                complete: complete.unwrap(),
                archived_cid: archived_cid.unwrap(),
                archived_at: archived_at.unwrap(),
                archival_status: archival_status.unwrap(),
            })
        } else {
            None
        }
    }

    pub open spec fn from_raw_fn() -> spec_fn(Seq<(u32, RawV)>) -> Option<InspectionReceiptV> {
        |fs: Seq<(u32, RawV)>| InspectionReceiptV::from_raw(fs)
    }

    /// The protobuf encoding of the message.
    pub open spec fn encode(self) -> Seq<u8> {
        encode_fields(self.to_raw())
    }

    pub open spec fn encode_fn() -> spec_fn(InspectionReceiptV) -> Seq<u8> {
        |m: InspectionReceiptV| m.encode()
    }

    /// The message read from bytes, if they hold one.
    pub open spec fn decode(s: Seq<u8>) -> Option<InspectionReceiptV> {
        decode_with(s, InspectionReceiptV::from_raw_fn())
    }

    /// The encoding is the encodings of the fields one after the other.
    pub proof fn lemma_encode_split(self)
        ensures
            self.encode() == encode_fields(self.piece_era_id()) + encode_fields(self.piece_cluster_id()) + encode_fields(self.piece_verified_paths()) + encode_fields(self.piece_unverified_paths()) + encode_fields(self.piece_quorum_unreached_paths()) + encode_fields(self.piece_generated_at()) + encode_fields(self.piece_complete()) + encode_fields(self.piece_archived_cid()) + encode_fields(self.piece_archived_at()) + encode_fields(self.piece_archival_status()),
    {
        lemma_encode_fields_concat(self.piece_era_id(), self.piece_cluster_id());
        lemma_encode_fields_concat(self.piece_era_id() + self.piece_cluster_id(), self.piece_verified_paths());
        lemma_encode_fields_concat(self.piece_era_id() + self.piece_cluster_id() + self.piece_verified_paths(), self.piece_unverified_paths());
        lemma_encode_fields_concat(self.piece_era_id() + self.piece_cluster_id() + self.piece_verified_paths() + self.piece_unverified_paths(), self.piece_quorum_unreached_paths());
        lemma_encode_fields_concat(self.piece_era_id() + self.piece_cluster_id() + self.piece_verified_paths() + self.piece_unverified_paths() + self.piece_quorum_unreached_paths(), self.piece_generated_at());
        lemma_encode_fields_concat(self.piece_era_id() + self.piece_cluster_id() + self.piece_verified_paths() + self.piece_unverified_paths() + self.piece_quorum_unreached_paths() + self.piece_generated_at(), self.piece_complete());
        lemma_encode_fields_concat(self.piece_era_id() + self.piece_cluster_id() + self.piece_verified_paths() + self.piece_unverified_paths() + self.piece_quorum_unreached_paths() + self.piece_generated_at() + self.piece_complete(), self.piece_archived_cid());
        lemma_encode_fields_concat(self.piece_era_id() + self.piece_cluster_id() + self.piece_verified_paths() + self.piece_unverified_paths() + self.piece_quorum_unreached_paths() + self.piece_generated_at() + self.piece_complete() + self.piece_archived_cid(), self.piece_archived_at());
        lemma_encode_fields_concat(self.piece_era_id() + self.piece_cluster_id() + self.piece_verified_paths() + self.piece_unverified_paths() + self.piece_quorum_unreached_paths() + self.piece_generated_at() + self.piece_complete() + self.piece_archived_cid() + self.piece_archived_at(), self.piece_archival_status());
    }

    /// Reading the raw fields of a message gives the message back.
    #[verifier::spinoff_prover]
    #[verifier::rlimit(60)]
    pub proof fn lemma_from_to_raw(self)
        requires
            self.wf(),
            self.encode().len() <= u64::MAX,
        ensures
            InspectionReceiptV::from_raw(self.to_raw()) == Some(self),
            fields_ok(self.to_raw()),
        decreases self.encode().len(),
    {
        let fs = self.to_raw();
        self.lemma_encode_split();
        assert(sel(fs, 1) =~= vals_u64(self.era_id));
        lemma_u64_round_trip(self.era_id);
        lemma_piece_ok(1, vals_u64(self.era_id));
        assert(sel(fs, 2) =~= vals_string(self.cluster_id));
        lemma_string_round_trip(self.cluster_id);
        lemma_piece_ok(2, vals_string(self.cluster_id));
        lemma_fields_ok_concat(self.piece_era_id(), self.piece_cluster_id());
        assert(sel(fs, 3) =~= vals_rep_string(self.verified_paths));
        lemma_rep_string_round_trip(self.verified_paths);
        lemma_piece_ok(3, vals_rep_string(self.verified_paths));
        lemma_fields_ok_concat(self.piece_era_id() + self.piece_cluster_id(), self.piece_verified_paths());
        assert(sel(fs, 4) =~= vals_rep_msg(self.unverified_paths, UnverifiedPathV::encode_fn()));
        assert forall|i: int| 0 <= i < self.unverified_paths.len() implies {
            &&& (UnverifiedPathV::encode_fn())(#[trigger] self.unverified_paths[i]) == encode_fields((UnverifiedPathV::to_raw_fn())(self.unverified_paths[i]))
            &&& fields_ok((UnverifiedPathV::to_raw_fn())(self.unverified_paths[i]))
            &&& (UnverifiedPathV::encode_fn())(self.unverified_paths[i]).len() <= u64::MAX
            &&& (UnverifiedPathV::from_raw_fn())((UnverifiedPathV::to_raw_fn())(self.unverified_paths[i])) == Some(self.unverified_paths[i])
        } by {
            lemma_piece_payload_bound(4, vals_rep_msg(self.unverified_paths, UnverifiedPathV::encode_fn()), i);
            self.unverified_paths[i].lemma_from_to_raw();
        }
        lemma_rep_msg_round_trip(self.unverified_paths, UnverifiedPathV::encode_fn(), UnverifiedPathV::to_raw_fn(), UnverifiedPathV::from_raw_fn());
        lemma_piece_ok(4, vals_rep_msg(self.unverified_paths, UnverifiedPathV::encode_fn()));
        lemma_fields_ok_concat(self.piece_era_id() + self.piece_cluster_id() + self.piece_verified_paths(), self.piece_unverified_paths());
        assert(sel(fs, 5) =~= vals_rep_string(self.quorum_unreached_paths));
        lemma_rep_string_round_trip(self.quorum_unreached_paths);
        lemma_piece_ok(5, vals_rep_string(self.quorum_unreached_paths));
        lemma_fields_ok_concat(self.piece_era_id() + self.piece_cluster_id() + self.piece_verified_paths() + self.piece_unverified_paths(), self.piece_quorum_unreached_paths());
        assert(sel(fs, 6) =~= vals_u64(self.generated_at));
        lemma_u64_round_trip(self.generated_at);
        lemma_piece_ok(6, vals_u64(self.generated_at));
        lemma_fields_ok_concat(self.piece_era_id() + self.piece_cluster_id() + self.piece_verified_paths() + self.piece_unverified_paths() + self.piece_quorum_unreached_paths(), self.piece_generated_at());
        assert(sel(fs, 7) =~= vals_bool(self.complete));
        lemma_bool_round_trip(self.complete);
        lemma_piece_ok(7, vals_bool(self.complete));
        lemma_fields_ok_concat(self.piece_era_id() + self.piece_cluster_id() + self.piece_verified_paths() + self.piece_unverified_paths() + self.piece_quorum_unreached_paths() + self.piece_generated_at(), self.piece_complete());
        assert(sel(fs, 8) =~= vals_bytes(self.archived_cid));
        lemma_bytes_round_trip(self.archived_cid);
        lemma_piece_ok(8, vals_bytes(self.archived_cid));
        lemma_fields_ok_concat(self.piece_era_id() + self.piece_cluster_id() + self.piece_verified_paths() + self.piece_unverified_paths() + self.piece_quorum_unreached_paths() + self.piece_generated_at() + self.piece_complete(), self.piece_archived_cid());
        assert(sel(fs, 9) =~= vals_u64(self.archived_at));
        lemma_u64_round_trip(self.archived_at);
        lemma_piece_ok(9, vals_u64(self.archived_at));
        lemma_fields_ok_concat(self.piece_era_id() + self.piece_cluster_id() + self.piece_verified_paths() + self.piece_unverified_paths() + self.piece_quorum_unreached_paths() + self.piece_generated_at() + self.piece_complete() + self.piece_archived_cid(), self.piece_archived_at());
        assert(sel(fs, 10) =~= vals_i32(self.archival_status));
        lemma_i32_round_trip(self.archival_status);
        lemma_piece_ok(10, vals_i32(self.archival_status));
        lemma_fields_ok_concat(self.piece_era_id() + self.piece_cluster_id() + self.piece_verified_paths() + self.piece_unverified_paths() + self.piece_quorum_unreached_paths() + self.piece_generated_at() + self.piece_complete() + self.piece_archived_cid() + self.piece_archived_at(), self.piece_archival_status());
    }

    pub open spec fn to_raw_fn() -> spec_fn(InspectionReceiptV) -> Seq<(u32, RawV)> {
        |m: InspectionReceiptV| m.to_raw()
    }
}

/// Decoding the encoding of a inspection receipt gives it back.
pub proof fn lemma_inspection_receipt_round_trip(m: InspectionReceiptV)
    requires
        m.wf(),
        m.encode().len() <= u64::MAX,
    ensures
        InspectionReceiptV::decode(m.encode()) == Some(m),
{
    m.lemma_from_to_raw();
    lemma_parse_encode_fields(m.to_raw());
}

/// Empty bytes decode to the default inspection receipt.
pub proof fn lemma_inspection_receipt_decode_empty()
    ensures
        InspectionReceiptV::decode(Seq::empty()) == Some(InspectionReceiptV::default_value()),
{
    let e = Seq::<(u32, RawV)>::empty();
    assert(sel(e, 1) == Seq::<RawV>::empty());
    assert(sel(e, 2) == Seq::<RawV>::empty());
    assert(sel(e, 3) == Seq::<RawV>::empty());
    assert(sel(e, 4) == Seq::<RawV>::empty());
    assert(sel(e, 5) == Seq::<RawV>::empty());
    assert(sel(e, 6) == Seq::<RawV>::empty());
    assert(sel(e, 7) == Seq::<RawV>::empty());
    assert(sel(e, 8) == Seq::<RawV>::empty());
    assert(sel(e, 9) == Seq::<RawV>::empty());
    assert(sel(e, 10) == Seq::<RawV>::empty());
}

impl InspectionReceipt {
    /// Appends the protobuf encoding of the message.
    #[verifier::spinoff_prover]
    #[verifier::rlimit(60)]
    pub fn encode_raw(&self, buf: &mut Vec<u8>)
        ensures
            final(buf)@ == old(buf)@ + self@.encode(),
    {
        let ghost m = self@;
        put_u64_field(buf, 1, self.era_id);
        put_string_field(buf, 2, &self.cluster_id);
        proof {
            assert(buf@ =~= old(buf)@ + (encode_fields(m.piece_era_id()) + encode_fields(m.piece_cluster_id())));
        }
        put_rep_string_field(buf, 3, &self.verified_paths);
        proof {
            assert(buf@ =~= old(buf)@ + (encode_fields(m.piece_era_id()) + encode_fields(m.piece_cluster_id()) + encode_fields(m.piece_verified_paths())));
        }
        UnverifiedPath::put_repeated(buf, 4, &self.unverified_paths);
        proof {
            assert(buf@ =~= old(buf)@ + (encode_fields(m.piece_era_id()) + encode_fields(m.piece_cluster_id()) + encode_fields(m.piece_verified_paths()) + encode_fields(m.piece_unverified_paths())));
        }
        put_rep_string_field(buf, 5, &self.quorum_unreached_paths);
        proof {
            assert(buf@ =~= old(buf)@ + (encode_fields(m.piece_era_id()) + encode_fields(m.piece_cluster_id()) + encode_fields(m.piece_verified_paths()) + encode_fields(m.piece_unverified_paths()) + encode_fields(m.piece_quorum_unreached_paths())));
        }
        put_u64_field(buf, 6, self.generated_at);
        proof {
            assert(buf@ =~= old(buf)@ + (encode_fields(m.piece_era_id()) + encode_fields(m.piece_cluster_id()) + encode_fields(m.piece_verified_paths()) + encode_fields(m.piece_unverified_paths()) + encode_fields(m.piece_quorum_unreached_paths()) + encode_fields(m.piece_generated_at())));
        }
        put_bool_field(buf, 7, self.complete);
        proof {
            assert(buf@ =~= old(buf)@ + (encode_fields(m.piece_era_id()) + encode_fields(m.piece_cluster_id()) + encode_fields(m.piece_verified_paths()) + encode_fields(m.piece_unverified_paths()) + encode_fields(m.piece_quorum_unreached_paths()) + encode_fields(m.piece_generated_at()) + encode_fields(m.piece_complete())));
        }
        put_bytes_field(buf, 8, self.archived_cid.as_slice());
        proof {
            assert(buf@ =~= old(buf)@ + (encode_fields(m.piece_era_id()) + encode_fields(m.piece_cluster_id()) + encode_fields(m.piece_verified_paths()) + encode_fields(m.piece_unverified_paths()) + encode_fields(m.piece_quorum_unreached_paths()) + encode_fields(m.piece_generated_at()) + encode_fields(m.piece_complete()) + encode_fields(m.piece_archived_cid())));
        }
        put_u64_field(buf, 9, self.archived_at);
        proof {
            assert(buf@ =~= old(buf)@ + (encode_fields(m.piece_era_id()) + encode_fields(m.piece_cluster_id()) + encode_fields(m.piece_verified_paths()) + encode_fields(m.piece_unverified_paths()) + encode_fields(m.piece_quorum_unreached_paths()) + encode_fields(m.piece_generated_at()) + encode_fields(m.piece_complete()) + encode_fields(m.piece_archived_cid()) + encode_fields(m.piece_archived_at())));
        }
        put_i32_field(buf, 10, self.archival_status);
        proof {
            assert(buf@ =~= old(buf)@ + (encode_fields(m.piece_era_id()) + encode_fields(m.piece_cluster_id()) + encode_fields(m.piece_verified_paths()) + encode_fields(m.piece_unverified_paths()) + encode_fields(m.piece_quorum_unreached_paths()) + encode_fields(m.piece_generated_at()) + encode_fields(m.piece_complete()) + encode_fields(m.piece_archived_cid()) + encode_fields(m.piece_archived_at()) + encode_fields(m.piece_archival_status())));
        }
        proof {
            m.lemma_encode_split();
        }
    }

    /// The protobuf encoding of the message.
    pub fn encode_to_vec(&self) -> (r: Vec<u8>)
        ensures
            r@ == self@.encode(),
    {
        let mut buf = Vec::new();
        self.encode_raw(&mut buf);
        proof {
            assert(buf@ =~= self@.encode());
        }
        buf
    }

    /// Reads the message from its raw fields.
    #[verifier::spinoff_prover]
    #[verifier::rlimit(60)]
    pub fn from_fields(fields: &Vec<RawField>) -> (res: Result<InspectionReceipt, WireError>)
        ensures
            match InspectionReceiptV::from_raw(fields_view(fields@)) {
                Some(m) => res matches Ok(x) && x@ == m,
                None => res is Err,
            },
    {
        let ghost fs = fields_view(fields@);
        let mut era_id: u64 = 0;
        let mut cluster_id: String = String::new();
        let mut verified_paths: Vec<String> = Vec::new();
        let mut unverified_paths: Vec<UnverifiedPath> = Vec::new();
        let mut quorum_unreached_paths: Vec<String> = Vec::new();
        let mut generated_at: u64 = 0;
        let mut complete: bool = false;
        let mut archived_cid: Vec<u8> = Vec::new();
        let mut archived_at: u64 = 0;
        let mut archival_status: i32 = 0;
        let mut i: usize = 0;
        proof {
            assert(fs.take(0) =~= Seq::<(u32, RawV)>::empty());
            assert(fields_view(Seq::<RawField>::empty()) =~= Seq::<(u32, RawV)>::empty());
        }
        while i < fields.len()
            invariant
                fs == fields_view(fields@),
                i <= fields@.len(),
                last_of(sel(fs.take(i as int), 1), conv_u64(), 0) == Some(era_id),
                last_of(sel(fs.take(i as int), 2), conv_string(), Seq::<char>::empty()) == Some(cluster_id@),
                concat_of(sel(fs.take(i as int), 3), conv_rep_string()) == Some(strings_view(verified_paths@)),
                concat_of(sel(fs.take(i as int), 4), conv_msgs(UnverifiedPathV::from_raw_fn())) == Some(UnverifiedPath::views(unverified_paths@)),
                concat_of(sel(fs.take(i as int), 5), conv_rep_string()) == Some(strings_view(quorum_unreached_paths@)),
                last_of(sel(fs.take(i as int), 6), conv_u64(), 0) == Some(generated_at),
                last_of(sel(fs.take(i as int), 7), conv_bool(), false) == Some(complete),
                last_of(sel(fs.take(i as int), 8), conv_bytes(), Seq::<u8>::empty()) == Some(archived_cid@),
                last_of(sel(fs.take(i as int), 9), conv_u64(), 0) == Some(archived_at),
                last_of(sel(fs.take(i as int), 10), conv_i32(), 0) == Some(archival_status),
            decreases fields@.len() - i,
        {
            let f = &fields[i];
            proof {
                lemma_sel_take_step(fs, i as int);
            }
            if f.tag == 1 {
                step_u64(&mut era_id, &f.value, Ghost(fs), Ghost(i as int))?;
            } else if f.tag == 2 {
                step_string(&mut cluster_id, &f.value, Ghost(fs), Ghost(i as int))?;
            } else if f.tag == 3 {
                step_rep_string(&mut verified_paths, &f.value, Ghost(fs), Ghost(i as int))?;
            } else if f.tag == 4 {
                UnverifiedPath::step_repeated(&mut unverified_paths, &f.value, Ghost(fs), Ghost(i as int))?;
            } else if f.tag == 5 {
                step_rep_string(&mut quorum_unreached_paths, &f.value, Ghost(fs), Ghost(i as int))?;
            } else if f.tag == 6 {
                step_u64(&mut generated_at, &f.value, Ghost(fs), Ghost(i as int))?;
            } else if f.tag == 7 {
                step_bool(&mut complete, &f.value, Ghost(fs), Ghost(i as int))?;
            } else if f.tag == 8 {
                step_bytes(&mut archived_cid, &f.value, Ghost(fs), Ghost(i as int))?;
            } else if f.tag == 9 {
                step_u64(&mut archived_at, &f.value, Ghost(fs), Ghost(i as int))?;
            } else if f.tag == 10 {
                step_i32(&mut archival_status, &f.value, Ghost(fs), Ghost(i as int))?;
            }
            i = i + 1;
        }
        proof {
            assert(fs.take(i as int) =~= fs);
        }
        Ok(InspectionReceipt { era_id, cluster_id, verified_paths, unverified_paths, quorum_unreached_paths, generated_at, complete, archived_cid, archived_at, archival_status })
    }

    /// Reads the message from its protobuf encoding.
    pub fn decode(bytes: &[u8]) -> (res: Result<InspectionReceipt, WireError>)
        ensures
            match InspectionReceiptV::decode(bytes@) {
                Some(m) => res matches Ok(x) && x@ == m,
                None => res is Err,
            },
    {
        let fields = parse_fields_exec(bytes)?;
        InspectionReceipt::from_fields(&fields)
    }

}

impl Default for InspectionReceipt {
    fn default() -> (r: InspectionReceipt)
        ensures
            r@ == InspectionReceiptV::default_value(),
    {
        let r = InspectionReceipt {
            era_id: 0,
            cluster_id: String::new(),
            verified_paths: Vec::new(),
            unverified_paths: Vec::new(),
            quorum_unreached_paths: Vec::new(),
            generated_at: 0,
            complete: false,
            archived_cid: Vec::new(),
            archived_at: 0,
            archival_status: 0,
        };
        proof {
            assert(r@.cluster_id =~= InspectionReceiptV::default_value().cluster_id);
            assert(r@.verified_paths =~= InspectionReceiptV::default_value().verified_paths);
            assert(r@.unverified_paths =~= InspectionReceiptV::default_value().unverified_paths);
            assert(r@.quorum_unreached_paths =~= InspectionReceiptV::default_value().quorum_unreached_paths);
            assert(r@.archived_cid =~= InspectionReceiptV::default_value().archived_cid);
            assert(r@ =~= InspectionReceiptV::default_value());
        }
        r
    }
}

impl ProtoMessage for InspectionReceipt {
    open spec fn encoded(m: InspectionReceiptV) -> Seq<u8> {
        m.encode()
    }

    open spec fn decoded(bytes: Seq<u8>) -> Option<InspectionReceiptV> {
        InspectionReceiptV::decode(bytes)
    }

    fn encode_bytes(&self) -> (r: Vec<u8>) {
        self.encode_to_vec()
    }

    fn decode_bytes(bytes: &[u8]) -> (r: Result<InspectionReceipt, WireError>) {
        InspectionReceipt::decode(bytes)
    }
}

/// A member of the inspection sync quorum.
#[derive(Debug)]
pub struct InspSyncQuorumMember {
    pub node_key: String,
    pub http_endpoint: String,
    pub etcd_client_url: String,
    pub is_leader: bool,
    pub is_healthy: bool,
}

/// The value of a [`InspSyncQuorumMember`].
pub struct InspSyncQuorumMemberV {
    pub node_key: Seq<char>,
    pub http_endpoint: Seq<char>,
    pub etcd_client_url: Seq<char>,
    pub is_leader: bool,
    pub is_healthy: bool,
}

impl View for InspSyncQuorumMember {
    type V = InspSyncQuorumMemberV;

    open spec fn view(&self) -> InspSyncQuorumMemberV {
        InspSyncQuorumMemberV {
            node_key: self.node_key@,
            http_endpoint: self.http_endpoint@,
            etcd_client_url: self.etcd_client_url@,
            is_leader: self.is_leader,
            is_healthy: self.is_healthy,
        }
    }
}

impl InspSyncQuorumMemberV {
    /// The message with every field at its default.
    pub open spec fn default_value() -> InspSyncQuorumMemberV {
        InspSyncQuorumMemberV {
            node_key: Seq::<char>::empty(),
            http_endpoint: Seq::<char>::empty(),
            etcd_client_url: Seq::<char>::empty(),
            is_leader: false,
            is_healthy: false,
        }
    }

    /// Map fields hold their keys in order, each once, here and in nested messages.
    pub open spec fn wf(self) -> bool {
        true
    }

    pub open spec fn piece_node_key(self) -> Seq<(u32, RawV)> {
        piece(1, vals_string(self.node_key))
    }

    pub open spec fn piece_http_endpoint(self) -> Seq<(u32, RawV)> {
        piece(2, vals_string(self.http_endpoint))
    }

    pub open spec fn piece_etcd_client_url(self) -> Seq<(u32, RawV)> {
        piece(3, vals_string(self.etcd_client_url))
    }

    pub open spec fn piece_is_leader(self) -> Seq<(u32, RawV)> {
        piece(4, vals_bool(self.is_leader))
    }

    pub open spec fn piece_is_healthy(self) -> Seq<(u32, RawV)> {
        piece(5, vals_bool(self.is_healthy))
    }

    /// The raw fields the message is written as, in field order.
    pub open spec fn to_raw(self) -> Seq<(u32, RawV)> {
        self.piece_node_key() + self.piece_http_endpoint() + self.piece_etcd_client_url() + self.piece_is_leader() + self.piece_is_healthy()
    }

    /// The message read from raw fields, as prost reads it.
    pub open spec fn from_raw(fs: Seq<(u32, RawV)>) -> Option<InspSyncQuorumMemberV> {
        let node_key = last_of(sel(fs, 1), conv_string(), Seq::<char>::empty());
        let http_endpoint = last_of(sel(fs, 2), conv_string(), Seq::<char>::empty());
        let etcd_client_url = last_of(sel(fs, 3), conv_string(), Seq::<char>::empty());
        let is_leader = last_of(sel(fs, 4), conv_bool(), false);
        let is_healthy = last_of(sel(fs, 5), conv_bool(), false);
        if node_key is Some && http_endpoint is Some && etcd_client_url is Some && is_leader is Some && is_healthy is Some {
            Some(InspSyncQuorumMemberV {
                node_key: node_key.unwrap(),
                http_endpoint: http_endpoint.unwrap(),
                etcd_client_url: etcd_client_url.unwrap(),
                is_leader: is_leader.unwrap(),
                is_healthy: is_healthy.unwrap(),
            })
        } else {
            None
        }
    }

    pub open spec fn from_raw_fn() -> spec_fn(Seq<(u32, RawV)>) -> Option<InspSyncQuorumMemberV> {
        |fs: Seq<(u32, RawV)>| InspSyncQuorumMemberV::from_raw(fs)
    }

    /// The protobuf encoding of the message.
    pub open spec fn encode(self) -> Seq<u8> {
        encode_fields(self.to_raw())
    }

    pub open spec fn encode_fn() -> spec_fn(InspSyncQuorumMemberV) -> Seq<u8> {
        |m: InspSyncQuorumMemberV| m.encode()
    }

    /// The message read from bytes, if they hold one.
    pub open spec fn decode(s: Seq<u8>) -> Option<InspSyncQuorumMemberV> {
        decode_with(s, InspSyncQuorumMemberV::from_raw_fn())
    }

    /// The encoding is the encodings of the fields one after the other.
    pub proof fn lemma_encode_split(self)
        ensures
            self.encode() == encode_fields(self.piece_node_key()) + encode_fields(self.piece_http_endpoint()) + encode_fields(self.piece_etcd_client_url()) + encode_fields(self.piece_is_leader()) + encode_fields(self.piece_is_healthy()),
    {
        lemma_encode_fields_concat(self.piece_node_key(), self.piece_http_endpoint());
        lemma_encode_fields_concat(self.piece_node_key() + self.piece_http_endpoint(), self.piece_etcd_client_url());
        lemma_encode_fields_concat(self.piece_node_key() + self.piece_http_endpoint() + self.piece_etcd_client_url(), self.piece_is_leader());
        lemma_encode_fields_concat(self.piece_node_key() + self.piece_http_endpoint() + self.piece_etcd_client_url() + self.piece_is_leader(), self.piece_is_healthy());
    }

    /// Reading the raw fields of a message gives the message back.
    pub proof fn lemma_from_to_raw(self)
        requires
            self.wf(),
            self.encode().len() <= u64::MAX,
        ensures
            InspSyncQuorumMemberV::from_raw(self.to_raw()) == Some(self),
            fields_ok(self.to_raw()),
        decreases self.encode().len(),
    {
        let fs = self.to_raw();
        self.lemma_encode_split();
        assert(sel(fs, 1) =~= vals_string(self.node_key));
        lemma_string_round_trip(self.node_key);
        lemma_piece_ok(1, vals_string(self.node_key));
        assert(sel(fs, 2) =~= vals_string(self.http_endpoint));
        lemma_string_round_trip(self.http_endpoint);
        lemma_piece_ok(2, vals_string(self.http_endpoint));
        lemma_fields_ok_concat(self.piece_node_key(), self.piece_http_endpoint());
        assert(sel(fs, 3) =~= vals_string(self.etcd_client_url));
        lemma_string_round_trip(self.etcd_client_url);
        lemma_piece_ok(3, vals_string(self.etcd_client_url));
        lemma_fields_ok_concat(self.piece_node_key() + self.piece_http_endpoint(), self.piece_etcd_client_url());
        assert(sel(fs, 4) =~= vals_bool(self.is_leader));
        lemma_bool_round_trip(self.is_leader);
        lemma_piece_ok(4, vals_bool(self.is_leader));
        lemma_fields_ok_concat(self.piece_node_key() + self.piece_http_endpoint() + self.piece_etcd_client_url(), self.piece_is_leader());
        assert(sel(fs, 5) =~= vals_bool(self.is_healthy));
        lemma_bool_round_trip(self.is_healthy);
        lemma_piece_ok(5, vals_bool(self.is_healthy));
        lemma_fields_ok_concat(self.piece_node_key() + self.piece_http_endpoint() + self.piece_etcd_client_url() + self.piece_is_leader(), self.piece_is_healthy());
    }

    pub open spec fn to_raw_fn() -> spec_fn(InspSyncQuorumMemberV) -> Seq<(u32, RawV)> {
        |m: InspSyncQuorumMemberV| m.to_raw()
    }
}

/// Decoding the encoding of a insp sync quorum member gives it back.
pub proof fn lemma_insp_sync_quorum_member_round_trip(m: InspSyncQuorumMemberV)
    requires
        m.wf(),
        m.encode().len() <= u64::MAX,
    ensures
        InspSyncQuorumMemberV::decode(m.encode()) == Some(m),
{
    m.lemma_from_to_raw();
    lemma_parse_encode_fields(m.to_raw());
}

/// Empty bytes decode to the default insp sync quorum member.
pub proof fn lemma_insp_sync_quorum_member_decode_empty()
    ensures
        InspSyncQuorumMemberV::decode(Seq::empty()) == Some(InspSyncQuorumMemberV::default_value()),
{
    let e = Seq::<(u32, RawV)>::empty();
    assert(sel(e, 1) == Seq::<RawV>::empty());
    assert(sel(e, 2) == Seq::<RawV>::empty());
    assert(sel(e, 3) == Seq::<RawV>::empty());
    assert(sel(e, 4) == Seq::<RawV>::empty());
    assert(sel(e, 5) == Seq::<RawV>::empty());
}

impl InspSyncQuorumMember {
    /// Appends the protobuf encoding of the message.
    pub fn encode_raw(&self, buf: &mut Vec<u8>)
        ensures
            final(buf)@ == old(buf)@ + self@.encode(),
    {
        let ghost m = self@;
        put_string_field(buf, 1, &self.node_key);
        put_string_field(buf, 2, &self.http_endpoint);
        proof {
            assert(buf@ =~= old(buf)@ + (encode_fields(m.piece_node_key()) + encode_fields(m.piece_http_endpoint())));
        }
        put_string_field(buf, 3, &self.etcd_client_url);
        proof {
            assert(buf@ =~= old(buf)@ + (encode_fields(m.piece_node_key()) + encode_fields(m.piece_http_endpoint()) + encode_fields(m.piece_etcd_client_url())));
        }
        put_bool_field(buf, 4, self.is_leader);
        proof {
            assert(buf@ =~= old(buf)@ + (encode_fields(m.piece_node_key()) + encode_fields(m.piece_http_endpoint()) + encode_fields(m.piece_etcd_client_url()) + encode_fields(m.piece_is_leader())));
        }
        put_bool_field(buf, 5, self.is_healthy);
        proof {
            assert(buf@ =~= old(buf)@ + (encode_fields(m.piece_node_key()) + encode_fields(m.piece_http_endpoint()) + encode_fields(m.piece_etcd_client_url()) + encode_fields(m.piece_is_leader()) + encode_fields(m.piece_is_healthy())));
        }
        proof {
            m.lemma_encode_split();
        }
    }

    /// The protobuf encoding of the message.
    pub fn encode_to_vec(&self) -> (r: Vec<u8>)
        ensures
            r@ == self@.encode(),
    {
        let mut buf = Vec::new();
        self.encode_raw(&mut buf);
        proof {
            assert(buf@ =~= self@.encode());
        }
        buf
    }

    /// Reads the message from its raw fields.
    pub fn from_fields(fields: &Vec<RawField>) -> (res: Result<InspSyncQuorumMember, WireError>)
        ensures
            match InspSyncQuorumMemberV::from_raw(fields_view(fields@)) {
                Some(m) => res matches Ok(x) && x@ == m,
                None => res is Err,
            },
    {
        let ghost fs = fields_view(fields@);
        let mut node_key: String = String::new();
        let mut http_endpoint: String = String::new();
        let mut etcd_client_url: String = String::new();
        let mut is_leader: bool = false;
        let mut is_healthy: bool = false;
        let mut i: usize = 0;
        proof {
            assert(fs.take(0) =~= Seq::<(u32, RawV)>::empty());
            assert(fields_view(Seq::<RawField>::empty()) =~= Seq::<(u32, RawV)>::empty());
        }
        while i < fields.len()
            invariant
                fs == fields_view(fields@),
                i <= fields@.len(),
                last_of(sel(fs.take(i as int), 1), conv_string(), Seq::<char>::empty()) == Some(node_key@),
                last_of(sel(fs.take(i as int), 2), conv_string(), Seq::<char>::empty()) == Some(http_endpoint@),
                last_of(sel(fs.take(i as int), 3), conv_string(), Seq::<char>::empty()) == Some(etcd_client_url@),
                last_of(sel(fs.take(i as int), 4), conv_bool(), false) == Some(is_leader),
                last_of(sel(fs.take(i as int), 5), conv_bool(), false) == Some(is_healthy),
            decreases fields@.len() - i,
        {
            let f = &fields[i];
            proof {
                lemma_sel_take_step(fs, i as int);
            }
            if f.tag == 1 {
                step_string(&mut node_key, &f.value, Ghost(fs), Ghost(i as int))?;
            } else if f.tag == 2 {
                step_string(&mut http_endpoint, &f.value, Ghost(fs), Ghost(i as int))?;
            } else if f.tag == 3 {
                step_string(&mut etcd_client_url, &f.value, Ghost(fs), Ghost(i as int))?;
            } else if f.tag == 4 {
                step_bool(&mut is_leader, &f.value, Ghost(fs), Ghost(i as int))?;
            } else if f.tag == 5 {
                step_bool(&mut is_healthy, &f.value, Ghost(fs), Ghost(i as int))?;
            }
            i = i + 1;
        }
        proof {
            assert(fs.take(i as int) =~= fs);
        }
        Ok(InspSyncQuorumMember { node_key, http_endpoint, etcd_client_url, is_leader, is_healthy })
    }

    /// Reads the message from its protobuf encoding.
    pub fn decode(bytes: &[u8]) -> (res: Result<InspSyncQuorumMember, WireError>)
        ensures
            match InspSyncQuorumMemberV::decode(bytes@) {
                Some(m) => res matches Ok(x) && x@ == m,
                None => res is Err,
            },
    {
        let fields = parse_fields_exec(bytes)?;
        InspSyncQuorumMember::from_fields(&fields)
    }

    /// The values of a sequence of messages.
    pub open spec fn views(v: Seq<InspSyncQuorumMember>) -> Seq<InspSyncQuorumMemberV> {
        Seq::new(v.len(), |i: int| v[i]@)
    }

    /// Appends a repeated field of these messages.
    pub fn put_repeated(buf: &mut Vec<u8>, t: u32, v: &Vec<InspSyncQuorumMember>)
        requires
            1 <= t <= MAX_TAG,
        ensures
            final(buf)@ == old(buf)@ + encode_fields(piece(t, vals_rep_msg(InspSyncQuorumMember::views(v@), InspSyncQuorumMemberV::encode_fn()))),
    {
        let mut i: usize = 0;
        proof {
            assert(vals_rep_msg(InspSyncQuorumMember::views(v@.take(0)), InspSyncQuorumMemberV::encode_fn()) =~= Seq::<RawV>::empty());
            lemma_encode_empty_piece(t);
            assert(buf@ =~= old(buf)@ + Seq::<u8>::empty());
        }
        while i < v.len()
            invariant
                1 <= t <= MAX_TAG,
                i <= v@.len(),
                buf@ == old(buf)@ + encode_fields(piece(t, vals_rep_msg(InspSyncQuorumMember::views(v@.take(i as int)), InspSyncQuorumMemberV::encode_fn()))),
            decreases v@.len() - i,
        {
            let b = v[i].encode_to_vec();
            put_delimited(buf, t, b.as_slice());
            proof {
                let p0 = piece(t, vals_rep_msg(InspSyncQuorumMember::views(v@.take(i as int)), InspSyncQuorumMemberV::encode_fn()));
                let q = piece(t, seq![RawV::Bytes(b@)]);
                assert(piece(t, vals_rep_msg(InspSyncQuorumMember::views(v@.take(i + 1)), InspSyncQuorumMemberV::encode_fn())) =~= p0 + q);
                lemma_encode_fields_concat(p0, q);
            }
            i = i + 1;
        }
        proof {
            assert(v@.take(i as int) =~= v@);
        }
    }

    /// One more occurrence of a repeated field of these messages.
    pub fn step_repeated(cur: &mut Vec<InspSyncQuorumMember>, r: &RawValue, Ghost(fs): Ghost<Seq<(u32, RawV)>>, Ghost(i): Ghost<int>) -> (res: Result<(), WireError>)
        requires
            0 <= i < fs.len(),
            fs[i].1 == r@,
            concat_of(sel(fs.take(i), fs[i].0), conv_msgs(InspSyncQuorumMemberV::from_raw_fn())) == Some(InspSyncQuorumMember::views(old(cur)@)),
        ensures
            res is Ok ==> concat_of(sel(fs.take(i + 1), fs[i].0), conv_msgs(InspSyncQuorumMemberV::from_raw_fn())) == Some(InspSyncQuorumMember::views(final(cur)@)),
            res is Err ==> concat_of(sel(fs, fs[i].0), conv_msgs(InspSyncQuorumMemberV::from_raw_fn())) is None,
    {
        proof {
            lemma_concat_of_at(fs, i, conv_msgs(InspSyncQuorumMemberV::from_raw_fn()));
        }
        let ef = raw_fields(r)?;
        let m = InspSyncQuorumMember::from_fields(&ef)?;
        let ghost mv = m@;
        cur.push(m);
        proof {
            assert(InspSyncQuorumMember::views(final(cur)@) =~= InspSyncQuorumMember::views(old(cur)@) + seq![mv]);
        }
        Ok(())
    }

}

impl Default for InspSyncQuorumMember {
    fn default() -> (r: InspSyncQuorumMember)
        ensures
            r@ == InspSyncQuorumMemberV::default_value(),
    {
        let r = InspSyncQuorumMember {
            node_key: String::new(),
            http_endpoint: String::new(),
            etcd_client_url: String::new(),
            is_leader: false,
            is_healthy: false,
        };
        proof {
            assert(r@.node_key =~= InspSyncQuorumMemberV::default_value().node_key);
            assert(r@.http_endpoint =~= InspSyncQuorumMemberV::default_value().http_endpoint);
            assert(r@.etcd_client_url =~= InspSyncQuorumMemberV::default_value().etcd_client_url);
            assert(r@ =~= InspSyncQuorumMemberV::default_value());
        }
        r
    }
}

impl ProtoMessage for InspSyncQuorumMember {
    open spec fn encoded(m: InspSyncQuorumMemberV) -> Seq<u8> {
        m.encode()
    }

    open spec fn decoded(bytes: Seq<u8>) -> Option<InspSyncQuorumMemberV> {
        InspSyncQuorumMemberV::decode(bytes)
    }

    fn encode_bytes(&self) -> (r: Vec<u8>) {
        self.encode_to_vec()
    }

    fn decode_bytes(bytes: &[u8]) -> (r: Result<InspSyncQuorumMember, WireError>) {
        InspSyncQuorumMember::decode(bytes)
    }
}

/// The inspection sync quorum of an era.
#[derive(Debug)]
pub struct InspSyncQuorumInfo {
    pub era_id: u64,
    pub quorum_members: Vec<InspSyncQuorumMember>,
    pub quorum_size: u32,
    pub healthy_members: u32,
    pub election_seed: Vec<u8>,
    pub formation_time: u64,
    pub single_endpoint: String,
}

/// The value of a [`InspSyncQuorumInfo`].
pub struct InspSyncQuorumInfoV {
    pub era_id: u64,
    pub quorum_members: Seq<InspSyncQuorumMemberV>,
    pub quorum_size: u32,
    pub healthy_members: u32,
    pub election_seed: Seq<u8>,
    pub formation_time: u64,
    pub single_endpoint: Seq<char>,
}

impl View for InspSyncQuorumInfo {
    type V = InspSyncQuorumInfoV;

    open spec fn view(&self) -> InspSyncQuorumInfoV {
        InspSyncQuorumInfoV {
            era_id: self.era_id,
            quorum_members: InspSyncQuorumMember::views(self.quorum_members@),
            quorum_size: self.quorum_size,
            healthy_members: self.healthy_members,
            election_seed: self.election_seed@,
            formation_time: self.formation_time,
            single_endpoint: self.single_endpoint@,
        }
    }
}

impl InspSyncQuorumInfoV {
    /// The message with every field at its default.
    pub open spec fn default_value() -> InspSyncQuorumInfoV {
        InspSyncQuorumInfoV {
            era_id: 0,
            quorum_members: Seq::<InspSyncQuorumMemberV>::empty(),
            quorum_size: 0,
            healthy_members: 0,
            election_seed: Seq::<u8>::empty(),
            formation_time: 0,
            single_endpoint: Seq::<char>::empty(),
        }
    }

    /// Map fields hold their keys in order, each once, here and in nested messages.
    pub open spec fn wf(self) -> bool {
        &&& (forall|i: int| 0 <= i < self.quorum_members.len() ==> (#[trigger] self.quorum_members[i]).wf())
    }

    pub open spec fn piece_era_id(self) -> Seq<(u32, RawV)> {
        piece(1, vals_u64(self.era_id))
    }

    pub open spec fn piece_quorum_members(self) -> Seq<(u32, RawV)> {
        piece(2, vals_rep_msg(self.quorum_members, InspSyncQuorumMemberV::encode_fn()))
    }

    pub open spec fn piece_quorum_size(self) -> Seq<(u32, RawV)> {
        piece(3, vals_u32(self.quorum_size))
    }

    pub open spec fn piece_healthy_members(self) -> Seq<(u32, RawV)> {
        piece(4, vals_u32(self.healthy_members))
    }

    pub open spec fn piece_election_seed(self) -> Seq<(u32, RawV)> {
        piece(5, vals_bytes(self.election_seed))
    }

    pub open spec fn piece_formation_time(self) -> Seq<(u32, RawV)> {
        piece(6, vals_u64(self.formation_time))
    }

    pub open spec fn piece_single_endpoint(self) -> Seq<(u32, RawV)> {
        piece(7, vals_string(self.single_endpoint))
    }

    /// The raw fields the message is written as, in field order.
    pub open spec fn to_raw(self) -> Seq<(u32, RawV)> {
        self.piece_era_id() + self.piece_quorum_members() + self.piece_quorum_size() + self.piece_healthy_members() + self.piece_election_seed() + self.piece_formation_time() + self.piece_single_endpoint()
    }

    /// The message read from raw fields, as prost reads it.
    pub open spec fn from_raw(fs: Seq<(u32, RawV)>) -> Option<InspSyncQuorumInfoV> {
        let era_id = last_of(sel(fs, 1), conv_u64(), 0);
        let quorum_members = concat_of(sel(fs, 2), conv_msgs(InspSyncQuorumMemberV::from_raw_fn()));
        let quorum_size = last_of(sel(fs, 3), conv_u32(), 0);
        let healthy_members = last_of(sel(fs, 4), conv_u32(), 0);
        let election_seed = last_of(sel(fs, 5), conv_bytes(), Seq::<u8>::empty());
        let formation_time = last_of(sel(fs, 6), conv_u64(), 0);
        let single_endpoint = last_of(sel(fs, 7), conv_string(), Seq::<char>::empty());
        if era_id is Some && quorum_members is Some && quorum_size is Some && healthy_members is Some && election_seed is Some && formation_time is Some && single_endpoint is Some {
            Some(InspSyncQuorumInfoV {
                era_id: era_id.unwrap(),
                quorum_members: quorum_members.unwrap(),
                quorum_size: quorum_size.unwrap(),
                healthy_members: healthy_members.unwrap(),
                election_seed: election_seed.unwrap(),
                formation_time: formation_time.unwrap(),
                single_endpoint: single_endpoint.unwrap(),
            })
        } else {
            None
        }
    }

    pub open spec fn from_raw_fn() -> spec_fn(Seq<(u32, RawV)>) -> Option<InspSyncQuorumInfoV> {
        |fs: Seq<(u32, RawV)>| InspSyncQuorumInfoV::from_raw(fs)
    }

    /// The protobuf encoding of the message.
    pub open spec fn encode(self) -> Seq<u8> {
        encode_fields(self.to_raw())
    }

    pub open spec fn encode_fn() -> spec_fn(InspSyncQuorumInfoV) -> Seq<u8> {
        |m: InspSyncQuorumInfoV| m.encode()
    }

    /// The message read from bytes, if they hold one.
    pub open spec fn decode(s: Seq<u8>) -> Option<InspSyncQuorumInfoV> {
        decode_with(s, InspSyncQuorumInfoV::from_raw_fn())
    }

    /// The encoding is the encodings of the fields one after the other.
    pub proof fn lemma_encode_split(self)
        ensures
            self.encode() == encode_fields(self.piece_era_id()) + encode_fields(self.piece_quorum_members()) + encode_fields(self.piece_quorum_size()) + encode_fields(self.piece_healthy_members()) + encode_fields(self.piece_election_seed()) + encode_fields(self.piece_formation_time()) + encode_fields(self.piece_single_endpoint()),
    {
        lemma_encode_fields_concat(self.piece_era_id(), self.piece_quorum_members());
        lemma_encode_fields_concat(self.piece_era_id() + self.piece_quorum_members(), self.piece_quorum_size());
        lemma_encode_fields_concat(self.piece_era_id() + self.piece_quorum_members() + self.piece_quorum_size(), self.piece_healthy_members());
        lemma_encode_fields_concat(self.piece_era_id() + self.piece_quorum_members() + self.piece_quorum_size() + self.piece_healthy_members(), self.piece_election_seed());
        lemma_encode_fields_concat(self.piece_era_id() + self.piece_quorum_members() + self.piece_quorum_size() + self.piece_healthy_members() + self.piece_election_seed(), self.piece_formation_time());
        lemma_encode_fields_concat(self.piece_era_id() + self.piece_quorum_members() + self.piece_quorum_size() + self.piece_healthy_members() + self.piece_election_seed() + self.piece_formation_time(), self.piece_single_endpoint());
    }

    /// Reading the raw fields of a message gives the message back.
    #[verifier::spinoff_prover]
    #[verifier::rlimit(60)]
    pub proof fn lemma_from_to_raw(self)
        requires
            self.wf(),
            self.encode().len() <= u64::MAX,
        ensures
            InspSyncQuorumInfoV::from_raw(self.to_raw()) == Some(self),
            fields_ok(self.to_raw()),
        decreases self.encode().len(),
    {
        let fs = self.to_raw();
        self.lemma_encode_split();
        assert(sel(fs, 1) =~= vals_u64(self.era_id));
        lemma_u64_round_trip(self.era_id);
        lemma_piece_ok(1, vals_u64(self.era_id));
        assert(sel(fs, 2) =~= vals_rep_msg(self.quorum_members, InspSyncQuorumMemberV::encode_fn()));
        assert forall|i: int| 0 <= i < self.quorum_members.len() implies {
            &&& (InspSyncQuorumMemberV::encode_fn())(#[trigger] self.quorum_members[i]) == encode_fields((InspSyncQuorumMemberV::to_raw_fn())(self.quorum_members[i]))
            &&& fields_ok((InspSyncQuorumMemberV::to_raw_fn())(self.quorum_members[i]))
            &&& (InspSyncQuorumMemberV::encode_fn())(self.quorum_members[i]).len() <= u64::MAX
            &&& (InspSyncQuorumMemberV::from_raw_fn())((InspSyncQuorumMemberV::to_raw_fn())(self.quorum_members[i])) == Some(self.quorum_members[i])
        } by {
            lemma_piece_payload_bound(2, vals_rep_msg(self.quorum_members, InspSyncQuorumMemberV::encode_fn()), i);
            self.quorum_members[i].lemma_from_to_raw();
        }
        lemma_rep_msg_round_trip(self.quorum_members, InspSyncQuorumMemberV::encode_fn(), InspSyncQuorumMemberV::to_raw_fn(), InspSyncQuorumMemberV::from_raw_fn());
        lemma_piece_ok(2, vals_rep_msg(self.quorum_members, InspSyncQuorumMemberV::encode_fn()));
        lemma_fields_ok_concat(self.piece_era_id(), self.piece_quorum_members());
        assert(sel(fs, 3) =~= vals_u32(self.quorum_size));
        lemma_u32_round_trip(self.quorum_size);
        lemma_piece_ok(3, vals_u32(self.quorum_size));
        lemma_fields_ok_concat(self.piece_era_id() + self.piece_quorum_members(), self.piece_quorum_size());
        assert(sel(fs, 4) =~= vals_u32(self.healthy_members));
        lemma_u32_round_trip(self.healthy_members);
        lemma_piece_ok(4, vals_u32(self.healthy_members));
        lemma_fields_ok_concat(self.piece_era_id() + self.piece_quorum_members() + self.piece_quorum_size(), self.piece_healthy_members());
        assert(sel(fs, 5) =~= vals_bytes(self.election_seed));
        lemma_bytes_round_trip(self.election_seed);
        lemma_piece_ok(5, vals_bytes(self.election_seed));
        lemma_fields_ok_concat(self.piece_era_id() + self.piece_quorum_members() + self.piece_quorum_size() + self.piece_healthy_members(), self.piece_election_seed());
        assert(sel(fs, 6) =~= vals_u64(self.formation_time));
        lemma_u64_round_trip(self.formation_time);
        lemma_piece_ok(6, vals_u64(self.formation_time));
        lemma_fields_ok_concat(self.piece_era_id() + self.piece_quorum_members() + self.piece_quorum_size() + self.piece_healthy_members() + self.piece_election_seed(), self.piece_formation_time());
        assert(sel(fs, 7) =~= vals_string(self.single_endpoint));
        lemma_string_round_trip(self.single_endpoint);
        lemma_piece_ok(7, vals_string(self.single_endpoint));
        lemma_fields_ok_concat(self.piece_era_id() + self.piece_quorum_members() + self.piece_quorum_size() + self.piece_healthy_members() + self.piece_election_seed() + self.piece_formation_time(), self.piece_single_endpoint());
    }

    pub open spec fn to_raw_fn() -> spec_fn(InspSyncQuorumInfoV) -> Seq<(u32, RawV)> {
        |m: InspSyncQuorumInfoV| m.to_raw()
    }
}

/// Decoding the encoding of a insp sync quorum info gives it back.
pub proof fn lemma_insp_sync_quorum_info_round_trip(m: InspSyncQuorumInfoV)
    requires
        m.wf(),
        m.encode().len() <= u64::MAX,
    ensures
        InspSyncQuorumInfoV::decode(m.encode()) == Some(m),
{
    m.lemma_from_to_raw();
    lemma_parse_encode_fields(m.to_raw());
}

/// Empty bytes decode to the default insp sync quorum info.
pub proof fn lemma_insp_sync_quorum_info_decode_empty()
    ensures
        InspSyncQuorumInfoV::decode(Seq::empty()) == Some(InspSyncQuorumInfoV::default_value()),
{
    let e = Seq::<(u32, RawV)>::empty();
    assert(sel(e, 1) == Seq::<RawV>::empty());
    assert(sel(e, 2) == Seq::<RawV>::empty());
    assert(sel(e, 3) == Seq::<RawV>::empty());
    assert(sel(e, 4) == Seq::<RawV>::empty());
    assert(sel(e, 5) == Seq::<RawV>::empty());
    assert(sel(e, 6) == Seq::<RawV>::empty());
    assert(sel(e, 7) == Seq::<RawV>::empty());
}

impl InspSyncQuorumInfo {
    /// Appends the protobuf encoding of the message.
    #[verifier::spinoff_prover]
    #[verifier::rlimit(60)]
    pub fn encode_raw(&self, buf: &mut Vec<u8>)
        ensures
            final(buf)@ == old(buf)@ + self@.encode(),
    {
        let ghost m = self@;
        put_u64_field(buf, 1, self.era_id);
        InspSyncQuorumMember::put_repeated(buf, 2, &self.quorum_members);
        proof {
            assert(buf@ =~= old(buf)@ + (encode_fields(m.piece_era_id()) + encode_fields(m.piece_quorum_members())));
        }
        put_u32_field(buf, 3, self.quorum_size);
        proof {
            assert(buf@ =~= old(buf)@ + (encode_fields(m.piece_era_id()) + encode_fields(m.piece_quorum_members()) + encode_fields(m.piece_quorum_size())));
        }
        put_u32_field(buf, 4, self.healthy_members);
        proof {
            assert(buf@ =~= old(buf)@ + (encode_fields(m.piece_era_id()) + encode_fields(m.piece_quorum_members()) + encode_fields(m.piece_quorum_size()) + encode_fields(m.piece_healthy_members())));
        }
        put_bytes_field(buf, 5, self.election_seed.as_slice());
        proof {
            assert(buf@ =~= old(buf)@ + (encode_fields(m.piece_era_id()) + encode_fields(m.piece_quorum_members()) + encode_fields(m.piece_quorum_size()) + encode_fields(m.piece_healthy_members()) + encode_fields(m.piece_election_seed())));
        }
        put_u64_field(buf, 6, self.formation_time);
        proof {
            assert(buf@ =~= old(buf)@ + (encode_fields(m.piece_era_id()) + encode_fields(m.piece_quorum_members()) + encode_fields(m.piece_quorum_size()) + encode_fields(m.piece_healthy_members()) + encode_fields(m.piece_election_seed()) + encode_fields(m.piece_formation_time())));
        }
        put_string_field(buf, 7, &self.single_endpoint);
        proof {
            assert(buf@ =~= old(buf)@ + (encode_fields(m.piece_era_id()) + encode_fields(m.piece_quorum_members()) + encode_fields(m.piece_quorum_size()) + encode_fields(m.piece_healthy_members()) + encode_fields(m.piece_election_seed()) + encode_fields(m.piece_formation_time()) + encode_fields(m.piece_single_endpoint())));
        }
        proof {
            m.lemma_encode_split();
        }
    }

    /// The protobuf encoding of the message.
    pub fn encode_to_vec(&self) -> (r: Vec<u8>)
        ensures
            r@ == self@.encode(),
    {
        let mut buf = Vec::new();
        self.encode_raw(&mut buf);
        proof {
            assert(buf@ =~= self@.encode());
        }
        buf
    }

    /// Reads the message from its raw fields.
    #[verifier::spinoff_prover]
    #[verifier::rlimit(60)]
    pub fn from_fields(fields: &Vec<RawField>) -> (res: Result<InspSyncQuorumInfo, WireError>)
        ensures
            match InspSyncQuorumInfoV::from_raw(fields_view(fields@)) {
                Some(m) => res matches Ok(x) && x@ == m,
                None => res is Err,
            },
    {
        let ghost fs = fields_view(fields@);
        let mut era_id: u64 = 0;
        let mut quorum_members: Vec<InspSyncQuorumMember> = Vec::new();
        let mut quorum_size: u32 = 0;
        let mut healthy_members: u32 = 0;
        let mut election_seed: Vec<u8> = Vec::new();
        let mut formation_time: u64 = 0;
        let mut single_endpoint: String = String::new();
        let mut i: usize = 0;
        proof {
            assert(fs.take(0) =~= Seq::<(u32, RawV)>::empty());
            assert(fields_view(Seq::<RawField>::empty()) =~= Seq::<(u32, RawV)>::empty());
        }
        while i < fields.len()
            invariant
                fs == fields_view(fields@),
                i <= fields@.len(),
                last_of(sel(fs.take(i as int), 1), conv_u64(), 0) == Some(era_id),
                concat_of(sel(fs.take(i as int), 2), conv_msgs(InspSyncQuorumMemberV::from_raw_fn())) == Some(InspSyncQuorumMember::views(quorum_members@)),
                last_of(sel(fs.take(i as int), 3), conv_u32(), 0) == Some(quorum_size),
                last_of(sel(fs.take(i as int), 4), conv_u32(), 0) == Some(healthy_members),
                last_of(sel(fs.take(i as int), 5), conv_bytes(), Seq::<u8>::empty()) == Some(election_seed@),
                last_of(sel(fs.take(i as int), 6), conv_u64(), 0) == Some(formation_time),
                last_of(sel(fs.take(i as int), 7), conv_string(), Seq::<char>::empty()) == Some(single_endpoint@),
            decreases fields@.len() - i,
        {
            let f = &fields[i];
            proof {
                lemma_sel_take_step(fs, i as int);
            }
            if f.tag == 1 {
                step_u64(&mut era_id, &f.value, Ghost(fs), Ghost(i as int))?;
            } else if f.tag == 2 {
                InspSyncQuorumMember::step_repeated(&mut quorum_members, &f.value, Ghost(fs), Ghost(i as int))?;
            } else if f.tag == 3 {
                step_u32(&mut quorum_size, &f.value, Ghost(fs), Ghost(i as int))?;
            } else if f.tag == 4 {
                step_u32(&mut healthy_members, &f.value, Ghost(fs), Ghost(i as int))?;
            } else if f.tag == 5 {
                step_bytes(&mut election_seed, &f.value, Ghost(fs), Ghost(i as int))?;
            } else if f.tag == 6 {
                step_u64(&mut formation_time, &f.value, Ghost(fs), Ghost(i as int))?;
            } else if f.tag == 7 {
                step_string(&mut single_endpoint, &f.value, Ghost(fs), Ghost(i as int))?;
            }
            i = i + 1;
        }
        proof {
            assert(fs.take(i as int) =~= fs);
        }
        Ok(InspSyncQuorumInfo { era_id, quorum_members, quorum_size, healthy_members, election_seed, formation_time, single_endpoint })
    }

    /// Reads the message from its protobuf encoding.
    pub fn decode(bytes: &[u8]) -> (res: Result<InspSyncQuorumInfo, WireError>)
        ensures
            match InspSyncQuorumInfoV::decode(bytes@) {
                Some(m) => res matches Ok(x) && x@ == m,
                None => res is Err,
            },
    {
        let fields = parse_fields_exec(bytes)?;
        InspSyncQuorumInfo::from_fields(&fields)
    }

}

impl Default for InspSyncQuorumInfo {
    fn default() -> (r: InspSyncQuorumInfo)
        ensures
            r@ == InspSyncQuorumInfoV::default_value(),
    {
        let r = InspSyncQuorumInfo {
            era_id: 0,
            quorum_members: Vec::new(),
            quorum_size: 0,
            healthy_members: 0,
            election_seed: Vec::new(),
            formation_time: 0,
            single_endpoint: String::new(),
        };
        proof {
            assert(r@.quorum_members =~= InspSyncQuorumInfoV::default_value().quorum_members);
            assert(r@.election_seed =~= InspSyncQuorumInfoV::default_value().election_seed);
            assert(r@.single_endpoint =~= InspSyncQuorumInfoV::default_value().single_endpoint);
            assert(r@ =~= InspSyncQuorumInfoV::default_value());
        }
        r
    }
}

impl ProtoMessage for InspSyncQuorumInfo {
    open spec fn encoded(m: InspSyncQuorumInfoV) -> Seq<u8> {
        m.encode()
    }

    open spec fn decoded(bytes: Seq<u8>) -> Option<InspSyncQuorumInfoV> {
        InspSyncQuorumInfoV::decode(bytes)
    }

    fn encode_bytes(&self) -> (r: Vec<u8>) {
        self.encode_to_vec()
    }

    fn decode_bytes(bytes: &[u8]) -> (r: Result<InspSyncQuorumInfo, WireError>) {
        InspSyncQuorumInfo::decode(bytes)
    }
}

} // verus!
