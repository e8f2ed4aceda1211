//! The signed envelope in which nodes send their responses.
use vstd::prelude::*;
use crate::codec::{
    concat_of, conv_bool, conv_bytes, conv_fields, conv_i32, conv_msgs, conv_opt_bytes,
    conv_packed_u64, conv_rep_string, conv_string, conv_u32, conv_u64, conv_entry, decode_with,
    entry_raw, last_of, lemma_bool_round_trip, lemma_bytes_round_trip, lemma_concat_of_at,
    lemma_encode_empty_piece, lemma_entry_payload_bound, lemma_i32_round_trip,
    lemma_map_round_trip, lemma_opt_bytes_round_trip, lemma_opt_msg_round_trip,
    lemma_packed_round_trip, lemma_piece_ok, lemma_piece_payload_bound,
    lemma_rep_msg_round_trip, lemma_rep_string_round_trip, lemma_sel_concat, lemma_sel_piece,
    lemma_sel_take_step, lemma_string_round_trip, lemma_u32_round_trip, lemma_u64_round_trip,
    lemma_val_msg_round_trip, map_of, opt_bytes_view, opt_msg, piece, put_bool_field,
    put_bytes_field, put_delimited, put_i32_field, put_map_u32, put_opt_bytes_field,
    put_opt_msg_field, put_packed_u64_field, put_rep_string_field, put_string_field,
    put_u32_field, put_u64_field, raw_fields, sel, step_bool, step_bytes, step_i32,
    step_map_u32, step_msg_fields, step_opt_bytes, step_packed_u64, step_rep_string,
    step_string, step_u32, step_u64, strings_view, val_msg, val_u32, vals_bool, vals_bytes,
    vals_i32, vals_map, vals_ok, vals_opt_bytes, vals_opt_msg, vals_packed_u64,
    vals_rep_msg, vals_rep_string, vals_string, vals_u32, vals_u64, venc_msg, venc_u32,
};
use crate::message::ProtoMessage;
use crate::string_map::{keys_sorted, view_entries, StringMap};
use crate::varint::MAX_TAG;
use crate::wire::{
    encode_fields, fields_ok, fields_view, lemma_encode_fields_concat, lemma_fields_ok_concat,
    lemma_parse_encode_fields, parse_fields_exec, RawField, RawV, RawValue, WireError,
};

verus! {

broadcast use {lemma_sel_concat, lemma_sel_piece};


/// A signature and the key that made it.
#[derive(Debug)]
pub struct Signature {
    pub signer: Vec<u8>,
    pub value: Vec<u8>,
}

/// The value of a [`Signature`].
pub struct SignatureV {
    pub signer: Seq<u8>,
    pub value: Seq<u8>,
}

impl View for Signature {
    type V = SignatureV;

    open spec fn view(&self) -> SignatureV {
        SignatureV {
            signer: self.signer@,
            value: self.value@,
        }
    }
}

impl SignatureV {
    /// The message with every field at its default.
    pub open spec fn default_value() -> SignatureV {
        SignatureV {
            signer: Seq::<u8>::empty(),
            value: Seq::<u8>::empty(),
        }
    }

    /// Map fields hold their keys in order, each once, here and in nested messages.
    pub open spec fn wf(self) -> bool {
        true
    }

    pub open spec fn piece_signer(self) -> Seq<(u32, RawV)> {
        piece(1, vals_bytes(self.signer))
    }

    pub open spec fn piece_value(self) -> Seq<(u32, RawV)> {
        piece(2, vals_bytes(self.value))
    }

    /// The raw fields the message is written as, in field order.
    pub open spec fn to_raw(self) -> Seq<(u32, RawV)> {
        self.piece_signer() + self.piece_value()
    }

    /// The message read from raw fields, as prost reads it.
    pub open spec fn from_raw(fs: Seq<(u32, RawV)>) -> Option<SignatureV> {
        let signer = last_of(sel(fs, 1), conv_bytes(), Seq::<u8>::empty());
        let value = last_of(sel(fs, 2), conv_bytes(), Seq::<u8>::empty());
        if signer is Some && value is Some {
            Some(SignatureV {
                signer: signer.unwrap(),
                value: value.unwrap(),
            })
        } else {
            None
        }
    }

    pub open spec fn from_raw_fn() -> spec_fn(Seq<(u32, RawV)>) -> Option<SignatureV> {
        |fs: Seq<(u32, RawV)>| SignatureV::from_raw(fs)
    }

    /// The protobuf encoding of the message.
    pub open spec fn encode(self) -> Seq<u8> {
        encode_fields(self.to_raw())
    }

    pub open spec fn encode_fn() -> spec_fn(SignatureV) -> Seq<u8> {
        |m: SignatureV| m.encode()
    }

    /// The message read from bytes, if they hold one.
    pub open spec fn decode(s: Seq<u8>) -> Option<SignatureV> {
        decode_with(s, SignatureV::from_raw_fn())
    }

    /// The encoding is the encodings of the fields one after the other.
    pub proof fn lemma_encode_split(self)
        ensures
            self.encode() == encode_fields(self.piece_signer()) + encode_fields(self.piece_value()),
    {
        lemma_encode_fields_concat(self.piece_signer(), self.piece_value());
    }

    /// Reading the raw fields of a message gives the message back.
    pub proof fn lemma_from_to_raw(self)
        requires
            self.wf(),
            self.encode().len() <= u64::MAX,
        ensures
            SignatureV::from_raw(self.to_raw()) == Some(self),
            fields_ok(self.to_raw()),
        decreases self.encode().len(),
    {
        let fs = self.to_raw();
        self.lemma_encode_split();
        assert(sel(fs, 1) =~= vals_bytes(self.signer));
        lemma_bytes_round_trip(self.signer);
        lemma_piece_ok(1, vals_bytes(self.signer));
        assert(sel(fs, 2) =~= vals_bytes(self.value));
        lemma_bytes_round_trip(self.value);
        lemma_piece_ok(2, vals_bytes(self.value));
        lemma_fields_ok_concat(self.piece_signer(), self.piece_value());
    }

    pub open spec fn to_raw_fn() -> spec_fn(SignatureV) -> Seq<(u32, RawV)> {
        |m: SignatureV| m.to_raw()
    }
}

/// Decoding the encoding of a signature gives it back.
pub proof fn lemma_signature_round_trip(m: SignatureV)
    requires
        m.wf(),
        m.encode().len() <= u64::MAX,
    ensures
        SignatureV::decode(m.encode()) == Some(m),
{
    m.lemma_from_to_raw();
    lemma_parse_encode_fields(m.to_raw());
}

/// Empty bytes decode to the default signature.
pub proof fn lemma_signature_decode_empty()
    ensures
        SignatureV::decode(Seq::empty()) == Some(SignatureV::default_value()),
{
    let e = Seq::<(u32, RawV)>::empty();
    assert(sel(e, 1) == Seq::<RawV>::empty());
    assert(sel(e, 2) == Seq::<RawV>::empty());
}

impl Signature {
    /// Appends the protobuf encoding of the message.
    pub fn encode_raw(&self, buf: &mut Vec<u8>)
        ensures
            final(buf)@ == old(buf)@ + self@.encode(),
    {
        let ghost m = self@;
        put_bytes_field(buf, 1, self.signer.as_slice());
        put_bytes_field(buf, 2, self.value.as_slice());
        proof {
            assert(buf@ =~= old(buf)@ + (encode_fields(m.piece_signer()) + encode_fields(m.piece_value())));
        }
        proof {
            m.lemma_encode_split();
        }
    }

    /// The protobuf encoding of the message.
    pub fn encode_to_vec(&self) -> (r: Vec<u8>)
        ensures
            r@ == self@.encode(),
    {
        let mut buf = Vec::new();
        self.encode_raw(&mut buf);
        proof {
            assert(buf@ =~= self@.encode());
        }
        buf
    }

    /// Reads the message from its raw fields.
    pub fn from_fields(fields: &Vec<RawField>) -> (res: Result<Signature, WireError>)
        ensures
            match SignatureV::from_raw(fields_view(fields@)) {
                Some(m) => res matches Ok(x) && x@ == m,
                None => res is Err,
            },
    {
        let ghost fs = fields_view(fields@);
        let mut signer: Vec<u8> = Vec::new();
        let mut value: Vec<u8> = Vec::new();
        let mut i: usize = 0;
        proof {
            assert(fs.take(0) =~= Seq::<(u32, RawV)>::empty());
            assert(fields_view(Seq::<RawField>::empty()) =~= Seq::<(u32, RawV)>::empty());
        }
        while i < fields.len()
            invariant
                fs == fields_view(fields@),
                i <= fields@.len(),
                last_of(sel(fs.take(i as int), 1), conv_bytes(), Seq::<u8>::empty()) == Some(signer@),
                last_of(sel(fs.take(i as int), 2), conv_bytes(), Seq::<u8>::empty()) == Some(value@),
            decreases fields@.len() - i,
        {
            let f = &fields[i];
            proof {
                lemma_sel_take_step(fs, i as int);
            }
            if f.tag == 1 {
                step_bytes(&mut signer, &f.value, Ghost(fs), Ghost(i as int))?;
            } else if f.tag == 2 {
                step_bytes(&mut value, &f.value, Ghost(fs), Ghost(i as int))?;
            }
            i = i + 1;
        }
        proof {
            assert(fs.take(i as int) =~= fs);
        }
        Ok(Signature { signer, value })
    }

    /// Reads the message from its protobuf encoding.
    pub fn decode(bytes: &[u8]) -> (res: Result<Signature, WireError>)
        ensures
            match SignatureV::decode(bytes@) {
                Some(m) => res matches Ok(x) && x@ == m,
                None => res is Err,
            },
    {
        let fields = parse_fields_exec(bytes)?;
        Signature::from_fields(&fields)
    }

}

impl Default for Signature {
    fn default() -> (r: Signature)
        ensures
            r@ == SignatureV::default_value(),
    {
        let r = Signature {
            signer: Vec::new(),
            value: Vec::new(),
        };
        proof {
            assert(r@.signer =~= SignatureV::default_value().signer);
            assert(r@.value =~= SignatureV::default_value().value);
            assert(r@ =~= SignatureV::default_value());
        }
        r
    }
}

impl ProtoMessage for Signature {
    open spec fn encoded(m: SignatureV) -> Seq<u8> {
        m.encode()
    }

    open spec fn decoded(bytes: Seq<u8>) -> Option<SignatureV> {
        SignatureV::decode(bytes)
    }

    fn encode_bytes(&self) -> (r: Vec<u8>) {
        self.encode_to_vec()
    }

    fn decode_bytes(bytes: &[u8]) -> (r: Result<Signature, WireError>) {
        Signature::decode(bytes)
    }
}

/// A response payload with the signature of the node that sent it.
#[derive(Debug)]
pub struct SignedResponse {
    pub payload: Vec<u8>,
    pub signature: Option<Signature>,
}

/// The value of a [`SignedResponse`].
pub struct SignedResponseV {
    pub payload: Seq<u8>,
    pub signature: Option<SignatureV>,
}

impl View for SignedResponse {
    type V = SignedResponseV;

    open spec fn view(&self) -> SignedResponseV {
        SignedResponseV {
            payload: self.payload@,
            signature: match &self.signature { Some(m) => Some(m@), None => None },
        }
    }
}

impl SignedResponseV {
    /// The message with every field at its default.
    pub open spec fn default_value() -> SignedResponseV {
        SignedResponseV {
            payload: Seq::<u8>::empty(),
            signature: None,
        }
    }

    /// Map fields hold their keys in order, each once, here and in nested messages.
    pub open spec fn wf(self) -> bool {
        &&& (self.signature matches Some(m) ==> m.wf())
    }

    pub open spec fn piece_payload(self) -> Seq<(u32, RawV)> {
        piece(1, vals_bytes(self.payload))
    }

    pub open spec fn piece_signature(self) -> Seq<(u32, RawV)> {
        piece(2, vals_opt_msg(match self.signature { Some(m) => Some(m.encode()), None => None }))
    }

    /// The raw fields the message is written as, in field order.
    pub open spec fn to_raw(self) -> Seq<(u32, RawV)> {
        self.piece_payload() + self.piece_signature()
    }

    /// The message read from raw fields, as prost reads it.
    pub open spec fn from_raw(fs: Seq<(u32, RawV)>) -> Option<SignedResponseV> {
        let payload = last_of(sel(fs, 1), conv_bytes(), Seq::<u8>::empty());
        let signature = opt_msg(sel(fs, 2), SignatureV::from_raw_fn());
        if payload is Some && signature is Some {
            Some(SignedResponseV {
                payload: payload.unwrap(),
                signature: signature.unwrap(),
            })
        } else {
            None
        }
    }

    pub open spec fn from_raw_fn() -> spec_fn(Seq<(u32, RawV)>) -> Option<SignedResponseV> {
        |fs: Seq<(u32, RawV)>| SignedResponseV::from_raw(fs)
    }

    /// The protobuf encoding of the message.
    pub open spec fn encode(self) -> Seq<u8> {
        encode_fields(self.to_raw())
    }

    pub open spec fn encode_fn() -> spec_fn(SignedResponseV) -> Seq<u8> {
        |m: SignedResponseV| m.encode()
    }

    /// The message read from bytes, if they hold one.
    pub open spec fn decode(s: Seq<u8>) -> Option<SignedResponseV> {
        decode_with(s, SignedResponseV::from_raw_fn())
    }

    /// The encoding is the encodings of the fields one after the other.
    pub proof fn lemma_encode_split(self)
        ensures
            self.encode() == encode_fields(self.piece_payload()) + encode_fields(self.piece_signature()),
    {
        lemma_encode_fields_concat(self.piece_payload(), self.piece_signature());
    }

    /// Reading the raw fields of a message gives the message back.
    pub proof fn lemma_from_to_raw(self)
        requires
            self.wf(),
            self.encode().len() <= u64::MAX,
        ensures
            SignedResponseV::from_raw(self.to_raw()) == Some(self),
            fields_ok(self.to_raw()),
        decreases self.encode().len(),
    {
        let fs = self.to_raw();
        self.lemma_encode_split();
        assert(sel(fs, 1) =~= vals_bytes(self.payload));
        lemma_bytes_round_trip(self.payload);
        lemma_piece_ok(1, vals_bytes(self.payload));
        assert(sel(fs, 2) =~= vals_opt_msg(match self.signature { Some(m) => Some(m.encode()), None => None }));
        match self.signature {
            Some(m) => {
                lemma_piece_payload_bound(2, vals_opt_msg(match self.signature { Some(m) => Some(m.encode()), None => None }), 0);
                m.lemma_from_to_raw();
                lemma_opt_msg_round_trip(Some(m), m.encode(), m.to_raw(), SignatureV::from_raw_fn());
            },
            None => {
                lemma_opt_msg_round_trip(None::<SignatureV>, Seq::empty(), Seq::empty(), SignatureV::from_raw_fn());
            },
        }
        lemma_piece_ok(2, vals_opt_msg(match self.signature { Some(m) => Some(m.encode()), None => None }));
        lemma_fields_ok_concat(self.piece_payload(), self.piece_signature());
    }

    pub open spec fn to_raw_fn() -> spec_fn(SignedResponseV) -> Seq<(u32, RawV)> {
        |m: SignedResponseV| m.to_raw()
    }
}

/// Decoding the encoding of a signed response gives it back.
pub proof fn lemma_signed_response_round_trip(m: SignedResponseV)
    requires
        m.wf(),
        m.encode().len() <= u64::MAX,
    ensures
        SignedResponseV::decode(m.encode()) == Some(m),
{
    m.lemma_from_to_raw();
    lemma_parse_encode_fields(m.to_raw());
}

/// Empty bytes decode to the default signed response.
pub proof fn lemma_signed_response_decode_empty()
    ensures
        SignedResponseV::decode(Seq::empty()) == Some(SignedResponseV::default_value()),
{
    let e = Seq::<(u32, RawV)>::empty();
    assert(sel(e, 1) == Seq::<RawV>::empty());
    assert(sel(e, 2) == Seq::<RawV>::empty());
}

impl SignedResponse {
    /// Appends the protobuf encoding of the message.
    pub fn encode_raw(&self, buf: &mut Vec<u8>)
        ensures
            final(buf)@ == old(buf)@ + self@.encode(),
    {
        let ghost m = self@;
        put_bytes_field(buf, 1, self.payload.as_slice());
        let enc = match &self.signature {
            Some(sub) => Some(sub.encode_to_vec()),
            None => None,
        };
        put_opt_msg_field(buf, 2, enc);
        proof {
            assert(buf@ =~= old(buf)@ + (encode_fields(m.piece_payload()) + encode_fields(m.piece_signature())));
        }
        proof {
            m.lemma_encode_split();
        }
    }

    /// The protobuf encoding of the message.
    pub fn encode_to_vec(&self) -> (r: Vec<u8>)
        ensures
            r@ == self@.encode(),
    {
        let mut buf = Vec::new();
        self.encode_raw(&mut buf);
        proof {
            assert(buf@ =~= self@.encode());
        }
        buf
    }

    /// Reads the message from its raw fields.
    pub fn from_fields(fields: &Vec<RawField>) -> (res: Result<SignedResponse, WireError>)
        ensures
            match SignedResponseV::from_raw(fields_view(fields@)) {
                Some(m) => res matches Ok(x) && x@ == m,
                None => res is Err,
            },
    {
        let ghost fs = fields_view(fields@);
        let mut payload: Vec<u8> = Vec::new();
        let mut signature_fields: Vec<RawField> = Vec::new();
        let mut signature_present = false;
        let mut i: usize = 0;
        proof {
            assert(fs.take(0) =~= Seq::<(u32, RawV)>::empty());
            assert(fields_view(Seq::<RawField>::empty()) =~= Seq::<(u32, RawV)>::empty());
        }
        while i < fields.len()
            invariant
                fs == fields_view(fields@),
                i <= fields@.len(),
                last_of(sel(fs.take(i as int), 1), conv_bytes(), Seq::<u8>::empty()) == Some(payload@),
                concat_of(sel(fs.take(i as int), 2), conv_fields()) == Some(fields_view(signature_fields@)),
                signature_present == (sel(fs.take(i as int), 2).len() > 0),
            decreases fields@.len() - i,
        {
            let f = &fields[i];
            proof {
                lemma_sel_take_step(fs, i as int);
            }
            if f.tag == 1 {
                step_bytes(&mut payload, &f.value, Ghost(fs), Ghost(i as int))?;
            } else if f.tag == 2 {
                step_msg_fields(&mut signature_fields, &mut signature_present, &f.value, Ghost(fs), Ghost(i as int))?;
            }
            i = i + 1;
        }
        proof {
            assert(fs.take(i as int) =~= fs);
        }
        let signature = if signature_present {
            Some(Signature::from_fields(&signature_fields)?)
        } else {
            None
        };
        Ok(SignedResponse { payload, signature })
    }

    /// Reads the message from its protobuf encoding.
    pub fn decode(bytes: &[u8]) -> (res: Result<SignedResponse, WireError>)
        ensures
            match SignedResponseV::decode(bytes@) {
                Some(m) => res matches Ok(x) && x@ == m,
                None => res is Err,
            },
    {
        let fields = parse_fields_exec(bytes)?;
        SignedResponse::from_fields(&fields)
    }

}

impl Default for SignedResponse {
    fn default() -> (r: SignedResponse)
        ensures
            r@ == SignedResponseV::default_value(),
    {
        let r = SignedResponse {
            payload: Vec::new(),
            signature: None,
        };
        proof {
            assert(r@.payload =~= SignedResponseV::default_value().payload);
            assert(r@ =~= SignedResponseV::default_value());
        }
        r
    }
}

impl ProtoMessage for SignedResponse {
    open spec fn encoded(m: SignedResponseV) -> Seq<u8> {
        m.encode()
    }

    open spec fn decoded(bytes: Seq<u8>) -> Option<SignedResponseV> {
        SignedResponseV::decode(bytes)
    }

    fn encode_bytes(&self) -> (r: Vec<u8>) {
        self.encode_to_vec()
    }

    fn decode_bytes(bytes: &[u8]) -> (r: Result<SignedResponse, WireError>) {
        SignedResponse::decode(bytes)
    }
}

} // verus!
