//! Messages of the activity trees: usage counters and tree nodes.
use vstd::prelude::*;
use crate::codec::{
    concat_of, conv_bool, conv_bytes, conv_fields, conv_i32, conv_msgs, conv_opt_bytes,
    conv_packed_u64, conv_rep_string, conv_string, conv_u32, conv_u64, conv_entry, decode_with,
    entry_raw, last_of, lemma_bool_round_trip, lemma_bytes_round_trip, lemma_concat_of_at,
    lemma_encode_empty_piece, lemma_entry_payload_bound, lemma_i32_round_trip,
    lemma_map_round_trip, lemma_opt_bytes_round_trip, lemma_opt_msg_round_trip,
    lemma_packed_round_trip, lemma_piece_ok, lemma_piece_payload_bound,
    lemma_rep_msg_round_trip, lemma_rep_string_round_trip, lemma_sel_concat, lemma_sel_piece,
    lemma_sel_take_step, lemma_string_round_trip, lemma_u32_round_trip, lemma_u64_round_trip,
    lemma_val_msg_round_trip, map_of, opt_bytes_view, opt_msg, piece, put_bool_field,
    put_bytes_field, put_delimited, put_i32_field, put_map_u32, put_opt_bytes_field,
    put_opt_msg_field, put_packed_u64_field, put_rep_string_field, put_string_field,
    put_u32_field, put_u64_field, raw_fields, sel, step_bool, step_bytes, step_i32,
    step_map_u32, step_msg_fields, step_opt_bytes, step_packed_u64, step_rep_string,
    step_string, step_u32, step_u64, strings_view, val_msg, val_u32, vals_bool, vals_bytes,
    vals_i32, vals_map, vals_ok, vals_opt_bytes, vals_opt_msg, vals_packed_u64,
    vals_rep_msg, vals_rep_string, vals_string, vals_u32, vals_u64, venc_msg, venc_u32,
};
use crate::message::ProtoMessage;
use crate::string_map::{keys_sorted, view_entries, StringMap};
use crate::varint::MAX_TAG;
use crate::wire::{
    encode_fields, fields_ok, fields_view, lemma_encode_fields_concat, lemma_fields_ok_concat,
    lemma_parse_encode_fields, parse_fields_exec, RawField, RawV, RawValue, WireError,
};

verus! {

broadcast use {lemma_sel_concat, lemma_sel_piece};


/// Usage counters of a node, bucket or cluster.
#[derive(Debug, Clone, Copy, PartialEq, Eq, Structural)]
pub struct ActivityNode {
    pub stored: u64,
    pub transferred: u64,
    pub put_count: u64,
    pub get_count: u64,
    pub cpu_units: u64,
    pub gpu_units: u64,
    pub ram_units: u64,
    pub compute_count: u64,
}

/// The value of a [`ActivityNode`].
pub struct ActivityNodeV {
    pub stored: u64,
    pub transferred: u64,
    pub put_count: u64,
    pub get_count: u64,
    pub cpu_units: u64,
    pub gpu_units: u64,
    pub ram_units: u64,
    pub compute_count: u64,
}

impl View for ActivityNode {
    type V = ActivityNodeV;

    open spec fn view(&self) -> ActivityNodeV {
        ActivityNodeV {
            stored: self.stored,
            transferred: self.transferred,
            put_count: self.put_count,
            get_count: self.get_count,
            cpu_units: self.cpu_units,
            gpu_units: self.gpu_units,
            ram_units: self.ram_units,
            compute_count: self.compute_count,
        }
    }
}

impl ActivityNodeV {
    /// The message with every field at its default.
    pub open spec fn default_value() -> ActivityNodeV {
        ActivityNodeV {
            stored: 0,
            transferred: 0,
            put_count: 0,
            get_count: 0,
            cpu_units: 0,
            gpu_units: 0,
            ram_units: 0,
            compute_count: 0,
        }
    }

    /// Map fields hold their keys in order, each once, here and in nested messages.
    pub open spec fn wf(self) -> bool {
        true
    }

    pub open spec fn piece_stored(self) -> Seq<(u32, RawV)> {
        piece(1, vals_u64(self.stored))
    }

    pub open spec fn piece_transferred(self) -> Seq<(u32, RawV)> {
        piece(2, vals_u64(self.transferred))
    }

    pub open spec fn piece_put_count(self) -> Seq<(u32, RawV)> {
        piece(3, vals_u64(self.put_count))
    }

    pub open spec fn piece_get_count(self) -> Seq<(u32, RawV)> {
        piece(4, vals_u64(self.get_count))
    }

    pub open spec fn piece_cpu_units(self) -> Seq<(u32, RawV)> {
        piece(5, vals_u64(self.cpu_units))
    }

    pub open spec fn piece_gpu_units(self) -> Seq<(u32, RawV)> {
        piece(6, vals_u64(self.gpu_units))
    }

    pub open spec fn piece_ram_units(self) -> Seq<(u32, RawV)> {
        piece(7, vals_u64(self.ram_units))
    }

    pub open spec fn piece_compute_count(self) -> Seq<(u32, RawV)> {
        piece(8, vals_u64(self.compute_count))
    }

    /// The raw fields the message is written as, in field order.
    pub open spec fn to_raw(self) -> Seq<(u32, RawV)> {
        self.piece_stored() + self.piece_transferred() + self.piece_put_count() + self.piece_get_count() + self.piece_cpu_units() + self.piece_gpu_units() + self.piece_ram_units() + self.piece_compute_count()
    }

    /// The message read from raw fields, as prost reads it.
    pub open spec fn from_raw(fs: Seq<(u32, RawV)>) -> Option<ActivityNodeV> {
        let stored = last_of(sel(fs, 1), conv_u64(), 0);
        let transferred = last_of(sel(fs, 2), conv_u64(), 0);
        let put_count = last_of(sel(fs, 3), conv_u64(), 0);
        let get_count = last_of(sel(fs, 4), conv_u64(), 0);
        let cpu_units = last_of(sel(fs, 5), conv_u64(), 0);
        let gpu_units = last_of(sel(fs, 6), conv_u64(), 0);
        let ram_units = last_of(sel(fs, 7), conv_u64(), 0);
        let compute_count = last_of(sel(fs, 8), conv_u64(), 0);
        if stored is Some && transferred is Some && put_count is Some && get_count is Some && cpu_units is Some && gpu_units is Some && ram_units is Some && compute_count is Some {
            Some(ActivityNodeV {
                stored: stored.unwrap(),
                transferred: transferred.unwrap(),
                put_count: put_count.unwrap(),
                get_count: get_count.unwrap(),
                cpu_units: cpu_units.unwrap(),
                gpu_units: gpu_units.unwrap(),
                ram_units: ram_units.unwrap(),
                compute_count: compute_count.unwrap(),
            })
        } else {
            None
        }
    }

    pub open spec fn from_raw_fn() -> spec_fn(Seq<(u32, RawV)>) -> Option<ActivityNodeV> {
        |fs: Seq<(u32, RawV)>| ActivityNodeV::from_raw(fs)
    }

    /// The protobuf encoding of the message.
    pub open spec fn encode(self) -> Seq<u8> {
        encode_fields(self.to_raw())
    }

    pub open spec fn encode_fn() -> spec_fn(ActivityNodeV) -> Seq<u8> {
        |m: ActivityNodeV| m.encode()
    }

    /// The message read from bytes, if they hold one.
    pub open spec fn decode(s: Seq<u8>) -> Option<ActivityNodeV> {
        decode_with(s, ActivityNodeV::from_raw_fn())
    }

    /// The encoding is the encodings of the fields one after the other.
    pub proof fn lemma_encode_split(self)
        ensures
            self.encode() == encode_fields(self.piece_stored()) + encode_fields(self.piece_transferred()) + encode_fields(self.piece_put_count()) + encode_fields(self.piece_get_count()) + encode_fields(self.piece_cpu_units()) + encode_fields(self.piece_gpu_units()) + encode_fields(self.piece_ram_units()) + encode_fields(self.piece_compute_count()),
    {
        lemma_encode_fields_concat(self.piece_stored(), self.piece_transferred());
        lemma_encode_fields_concat(self.piece_stored() + self.piece_transferred(), self.piece_put_count());
        lemma_encode_fields_concat(self.piece_stored() + self.piece_transferred() + self.piece_put_count(), self.piece_get_count());
        lemma_encode_fields_concat(self.piece_stored() + self.piece_transferred() + self.piece_put_count() + self.piece_get_count(), self.piece_cpu_units());
        lemma_encode_fields_concat(self.piece_stored() + self.piece_transferred() + self.piece_put_count() + self.piece_get_count() + self.piece_cpu_units(), self.piece_gpu_units());
        lemma_encode_fields_concat(self.piece_stored() + self.piece_transferred() + self.piece_put_count() + self.piece_get_count() + self.piece_cpu_units() + self.piece_gpu_units(), self.piece_ram_units());
        lemma_encode_fields_concat(self.piece_stored() + self.piece_transferred() + self.piece_put_count() + self.piece_get_count() + self.piece_cpu_units() + self.piece_gpu_units() + self.piece_ram_units(), self.piece_compute_count());
    }

    /// Reading the raw fields of a message gives the message back.
    #[verifier::spinoff_prover]
    #[verifier::rlimit(60)]
    pub proof fn lemma_from_to_raw(self)
        requires
            self.wf(),
            self.encode().len() <= u64::MAX,
        ensures
            ActivityNodeV::from_raw(self.to_raw()) == Some(self),
            fields_ok(self.to_raw()),
        decreases self.encode().len(),
    {
        let fs = self.to_raw();
        self.lemma_encode_split();
        assert(sel(fs, 1) =~= vals_u64(self.stored));
        lemma_u64_round_trip(self.stored);
        lemma_piece_ok(1, vals_u64(self.stored));
        assert(sel(fs, 2) =~= vals_u64(self.transferred));
        lemma_u64_round_trip(self.transferred);
        lemma_piece_ok(2, vals_u64(self.transferred));
        lemma_fields_ok_concat(self.piece_stored(), self.piece_transferred());
        assert(sel(fs, 3) =~= vals_u64(self.put_count));
        lemma_u64_round_trip(self.put_count);
        lemma_piece_ok(3, vals_u64(self.put_count));
        lemma_fields_ok_concat(self.piece_stored() + self.piece_transferred(), self.piece_put_count());
        assert(sel(fs, 4) =~= vals_u64(self.get_count));
        lemma_u64_round_trip(self.get_count);
        lemma_piece_ok(4, vals_u64(self.get_count));
        lemma_fields_ok_concat(self.piece_stored() + self.piece_transferred() + self.piece_put_count(), self.piece_get_count());
        assert(sel(fs, 5) =~= vals_u64(self.cpu_units));
        lemma_u64_round_trip(self.cpu_units);
        lemma_piece_ok(5, vals_u64(self.cpu_units));
        lemma_fields_ok_concat(self.piece_stored() + self.piece_transferred() + self.piece_put_count() + self.piece_get_count(), self.piece_cpu_units());
        assert(sel(fs, 6) =~= vals_u64(self.gpu_units));
        lemma_u64_round_trip(self.gpu_units);
        lemma_piece_ok(6, vals_u64(self.gpu_units));
        lemma_fields_ok_concat(self.piece_stored() + self.piece_transferred() + self.piece_put_count() + self.piece_get_count() + self.piece_cpu_units(), self.piece_gpu_units());
        assert(sel(fs, 7) =~= vals_u64(self.ram_units));
        lemma_u64_round_trip(self.ram_units);
        lemma_piece_ok(7, vals_u64(self.ram_units));
        lemma_fields_ok_concat(self.piece_stored() + self.piece_transferred() + self.piece_put_count() + self.piece_get_count() + self.piece_cpu_units() + self.piece_gpu_units(), self.piece_ram_units());
        assert(sel(fs, 8) =~= vals_u64(self.compute_count));
        lemma_u64_round_trip(self.compute_count);
        lemma_piece_ok(8, vals_u64(self.compute_count));
        lemma_fields_ok_concat(self.piece_stored() + self.piece_transferred() + self.piece_put_count() + self.piece_get_count() + self.piece_cpu_units() + self.piece_gpu_units() + self.piece_ram_units(), self.piece_compute_count());
    }

    pub open spec fn to_raw_fn() -> spec_fn(ActivityNodeV) -> Seq<(u32, RawV)> {
        |m: ActivityNodeV| m.to_raw()
    }
}

/// Decoding the encoding of a activity node gives it back.
pub proof fn lemma_activity_node_round_trip(m: ActivityNodeV)
    requires
        m.wf(),
        m.encode().len() <= u64::MAX,
    ensures
        ActivityNodeV::decode(m.encode()) == Some(m),
{
    m.lemma_from_to_raw();
    lemma_parse_encode_fields(m.to_raw());
}

/// Empty bytes decode to the default activity node.
pub proof fn lemma_activity_node_decode_empty()
    ensures
        ActivityNodeV::decode(Seq::empty()) == Some(ActivityNodeV::default_value()),
{
    let e = Seq::<(u32, RawV)>::empty();
    assert(sel(e, 1) == Seq::<RawV>::empty());
    assert(sel(e, 2) == Seq::<RawV>::empty());
    assert(sel(e, 3) == Seq::<RawV>::empty());
    assert(sel(e, 4) == Seq::<RawV>::empty());
    assert(sel(e, 5) == Seq::<RawV>::empty());
    assert(sel(e, 6) == Seq::<RawV>::empty());
    assert(sel(e, 7) == Seq::<RawV>::empty());
    assert(sel(e, 8) == Seq::<RawV>::empty());
}

impl ActivityNode {
    /// Appends the protobuf encoding of the message.
    #[verifier::spinoff_prover]
    #[verifier::rlimit(60)]
    pub fn encode_raw(&self, buf: &mut Vec<u8>)
        ensures
            final(buf)@ == old(buf)@ + self@.encode(),
    {
        let ghost m = self@;
        put_u64_field(buf, 1, self.stored);
        put_u64_field(buf, 2, self.transferred);
        proof {
            assert(buf@ =~= old(buf)@ + (encode_fields(m.piece_stored()) + encode_fields(m.piece_transferred())));
        }
        put_u64_field(buf, 3, self.put_count);
        proof {
            assert(buf@ =~= old(buf)@ + (encode_fields(m.piece_stored()) + encode_fields(m.piece_transferred()) + encode_fields(m.piece_put_count())));
        }
        put_u64_field(buf, 4, self.get_count);
        proof {
            assert(buf@ =~= old(buf)@ + (encode_fields(m.piece_stored()) + encode_fields(m.piece_transferred()) + encode_fields(m.piece_put_count()) + encode_fields(m.piece_get_count())));
        }
        put_u64_field(buf, 5, self.cpu_units);
        proof {
            assert(buf@ =~= old(buf)@ + (encode_fields(m.piece_stored()) + encode_fields(m.piece_transferred()) + encode_fields(m.piece_put_count()) + encode_fields(m.piece_get_count()) + encode_fields(m.piece_cpu_units())));
        }
        put_u64_field(buf, 6, self.gpu_units);
        proof {
            assert(buf@ =~= old(buf)@ + (encode_fields(m.piece_stored()) + encode_fields(m.piece_transferred()) + encode_fields(m.piece_put_count()) + encode_fields(m.piece_get_count()) + encode_fields(m.piece_cpu_units()) + encode_fields(m.piece_gpu_units())));
        }
        put_u64_field(buf, 7, self.ram_units);
        proof {
            assert(buf@ =~= old(buf)@ + (encode_fields(m.piece_stored()) + encode_fields(m.piece_transferred()) + encode_fields(m.piece_put_count()) + encode_fields(m.piece_get_count()) + encode_fields(m.piece_cpu_units()) + encode_fields(m.piece_gpu_units()) + encode_fields(m.piece_ram_units())));
        }
        put_u64_field(buf, 8, self.compute_count);
        proof {
            assert(buf@ =~= old(buf)@ + (encode_fields(m.piece_stored()) + encode_fields(m.piece_transferred()) + encode_fields(m.piece_put_count()) + encode_fields(m.piece_get_count()) + encode_fields(m.piece_cpu_units()) + encode_fields(m.piece_gpu_units()) + encode_fields(m.piece_ram_units()) + encode_fields(m.piece_compute_count())));
        }
        proof {
            m.lemma_encode_split();
        }
    }

    /// The protobuf encoding of the message.
    pub fn encode_to_vec(&self) -> (r: Vec<u8>)
        ensures
            r@ == self@.encode(),
    {
        let mut buf = Vec::new();
        self.encode_raw(&mut buf);
        proof {
            assert(buf@ =~= self@.encode());
        }
        buf
    }

    /// Reads the message from its raw fields.
    #[verifier::spinoff_prover]
    #[verifier::rlimit(60)]
    pub fn from_fields(fields: &Vec<RawField>) -> (res: Result<ActivityNode, WireError>)
        ensures
            match ActivityNodeV::from_raw(fields_view(fields@)) {
                Some(m) => res matches Ok(x) && x@ == m,
                None => res is Err,
            },
    {
        let ghost fs = fields_view(fields@);
        let mut stored: u64 = 0;
        let mut transferred: u64 = 0;
        let mut put_count: u64 = 0;
        let mut get_count: u64 = 0;
        let mut cpu_units: u64 = 0;
        let mut gpu_units: u64 = 0;
        let mut ram_units: u64 = 0;
        let mut compute_count: u64 = 0;
        let mut i: usize = 0;
        proof {
            assert(fs.take(0) =~= Seq::<(u32, RawV)>::empty());
            assert(fields_view(Seq::<RawField>::empty()) =~= Seq::<(u32, RawV)>::empty());
        }
        while i < fields.len()
            invariant
                fs == fields_view(fields@),
                i <= fields@.len(),
                last_of(sel(fs.take(i as int), 1), conv_u64(), 0) == Some(stored),
                last_of(sel(fs.take(i as int), 2), conv_u64(), 0) == Some(transferred),
                last_of(sel(fs.take(i as int), 3), conv_u64(), 0) == Some(put_count),
                last_of(sel(fs.take(i as int), 4), conv_u64(), 0) == Some(get_count),
                last_of(sel(fs.take(i as int), 5), conv_u64(), 0) == Some(cpu_units),
                last_of(sel(fs.take(i as int), 6), conv_u64(), 0) == Some(gpu_units),
                last_of(sel(fs.take(i as int), 7), conv_u64(), 0) == Some(ram_units),
                last_of(sel(fs.take(i as int), 8), conv_u64(), 0) == Some(compute_count),
            decreases fields@.len() - i,
        {
            let f = &fields[i];
            proof {
                lemma_sel_take_step(fs, i as int);
            }
            if f.tag == 1 {
                step_u64(&mut stored, &f.value, Ghost(fs), Ghost(i as int))?;
            } else if f.tag == 2 {
                step_u64(&mut transferred, &f.value, Ghost(fs), Ghost(i as int))?;
            } else if f.tag == 3 {
                step_u64(&mut put_count, &f.value, Ghost(fs), Ghost(i as int))?;
            } else if f.tag == 4 {
                step_u64(&mut get_count, &f.value, Ghost(fs), Ghost(i as int))?;
            } else if f.tag == 5 {
                step_u64(&mut cpu_units, &f.value, Ghost(fs), Ghost(i as int))?;
            } else if f.tag == 6 {
                step_u64(&mut gpu_units, &f.value, Ghost(fs), Ghost(i as int))?;
            } else if f.tag == 7 {
                step_u64(&mut ram_units, &f.value, Ghost(fs), Ghost(i as int))?;
            } else if f.tag == 8 {
                step_u64(&mut compute_count, &f.value, Ghost(fs), Ghost(i as int))?;
            }
            i = i + 1;
        }
        proof {
            assert(fs.take(i as int) =~= fs);
        }
        Ok(ActivityNode { stored, transferred, put_count, get_count, cpu_units, gpu_units, ram_units, compute_count })
    }

    /// Reads the message from its protobuf encoding.
    pub fn decode(bytes: &[u8]) -> (res: Result<ActivityNode, WireError>)
        ensures
            match ActivityNodeV::decode(bytes@) {
                Some(m) => res matches Ok(x) && x@ == m,
                None => res is Err,
            },
    {
        let fields = parse_fields_exec(bytes)?;
        ActivityNode::from_fields(&fields)
    }

}

impl Default for ActivityNode {
    fn default() -> (r: ActivityNode)
        ensures
            r@ == ActivityNodeV::default_value(),
    {
        let r = ActivityNode {
            stored: 0,
            transferred: 0,
            put_count: 0,
            get_count: 0,
            cpu_units: 0,
            gpu_units: 0,
            ram_units: 0,
            compute_count: 0,
        };
        proof {
            assert(r@ =~= ActivityNodeV::default_value());
        }
        r
    }
}

impl ProtoMessage for ActivityNode {
    open spec fn encoded(m: ActivityNodeV) -> Seq<u8> {
        m.encode()
    }

    open spec fn decoded(bytes: Seq<u8>) -> Option<ActivityNodeV> {
        ActivityNodeV::decode(bytes)
    }

    fn encode_bytes(&self) -> (r: Vec<u8>) {
        self.encode_to_vec()
    }

    fn decode_bytes(bytes: &[u8]) -> (r: Result<ActivityNode, WireError>) {
        ActivityNode::decode(bytes)
    }
}

/// A provider's usage within an era historical document node.
#[derive(Debug)]
pub struct EhdTreeNodeProviderAggregate {
    pub provided_usage: Option<ActivityNode>,
}

/// The value of a [`EhdTreeNodeProviderAggregate`].
pub struct EhdTreeNodeProviderAggregateV {
    pub provided_usage: Option<ActivityNodeV>,
}

impl View for EhdTreeNodeProviderAggregate {
    type V = EhdTreeNodeProviderAggregateV;

    open spec fn view(&self) -> EhdTreeNodeProviderAggregateV {
        EhdTreeNodeProviderAggregateV {
            provided_usage: match &self.provided_usage { Some(m) => Some(m@), None => None },
        }
    }
}

impl EhdTreeNodeProviderAggregateV {
    /// The message with every field at its default.
    pub open spec fn default_value() -> EhdTreeNodeProviderAggregateV {
        EhdTreeNodeProviderAggregateV {
            provided_usage: None,
        }
    }

    /// Map fields hold their keys in order, each once, here and in nested messages.
    pub open spec fn wf(self) -> bool {
        &&& (self.provided_usage matches Some(m) ==> m.wf())
    }

    pub open spec fn piece_provided_usage(self) -> Seq<(u32, RawV)> {
        piece(1, vals_opt_msg(match self.provided_usage { Some(m) => Some(m.encode()), None => None }))
    }

    /// The raw fields the message is written as, in field order.
    pub open spec fn to_raw(self) -> Seq<(u32, RawV)> {
        self.piece_provided_usage()
    }

    /// The message read from raw fields, as prost reads it.
    pub open spec fn from_raw(fs: Seq<(u32, RawV)>) -> Option<EhdTreeNodeProviderAggregateV> {
        let provided_usage = opt_msg(sel(fs, 1), ActivityNodeV::from_raw_fn());
        if provided_usage is Some {
            Some(EhdTreeNodeProviderAggregateV {
                provided_usage: provided_usage.unwrap(),
            })
        } else {
            None
        }
    }

    pub open spec fn from_raw_fn() -> spec_fn(Seq<(u32, RawV)>) -> Option<EhdTreeNodeProviderAggregateV> {
        |fs: Seq<(u32, RawV)>| EhdTreeNodeProviderAggregateV::from_raw(fs)
    }

    /// The protobuf encoding of the message.
    pub open spec fn encode(self) -> Seq<u8> {
        encode_fields(self.to_raw())
    }

    pub open spec fn encode_fn() -> spec_fn(EhdTreeNodeProviderAggregateV) -> Seq<u8> {
        |m: EhdTreeNodeProviderAggregateV| m.encode()
    }

    /// The message read from bytes, if they hold one.
    pub open spec fn decode(s: Seq<u8>) -> Option<EhdTreeNodeProviderAggregateV> {
        decode_with(s, EhdTreeNodeProviderAggregateV::from_raw_fn())
    }

    /// The encoding is the encodings of the fields one after the other.
    pub proof fn lemma_encode_split(self)
        ensures
            self.encode() == encode_fields(self.piece_provided_usage()),
    {
    }

    /// Reading the raw fields of a message gives the message back.
    pub proof fn lemma_from_to_raw(self)
        requires
            self.wf(),
            self.encode().len() <= u64::MAX,
        ensures
            EhdTreeNodeProviderAggregateV::from_raw(self.to_raw()) == Some(self),
            fields_ok(self.to_raw()),
        decreases self.encode().len(),
    {
        let fs = self.to_raw();
        self.lemma_encode_split();
        assert(sel(fs, 1) =~= vals_opt_msg(match self.provided_usage { Some(m) => Some(m.encode()), None => None }));
        match self.provided_usage {
            Some(m) => {
                lemma_piece_payload_bound(1, vals_opt_msg(match self.provided_usage { Some(m) => Some(m.encode()), None => None }), 0);
                m.lemma_from_to_raw();
                lemma_opt_msg_round_trip(Some(m), m.encode(), m.to_raw(), ActivityNodeV::from_raw_fn());
            },
            None => {
                lemma_opt_msg_round_trip(None::<ActivityNodeV>, Seq::empty(), Seq::empty(), ActivityNodeV::from_raw_fn());
            },
        }
        lemma_piece_ok(1, vals_opt_msg(match self.provided_usage { Some(m) => Some(m.encode()), None => None }));
    }

    pub open spec fn to_raw_fn() -> spec_fn(EhdTreeNodeProviderAggregateV) -> Seq<(u32, RawV)> {
        |m: EhdTreeNodeProviderAggregateV| m.to_raw()
    }
}

/// Decoding the encoding of a ehd tree node provider aggregate gives it back.
pub proof fn lemma_ehd_tree_node_provider_aggregate_round_trip(m: EhdTreeNodeProviderAggregateV)
    requires
        m.wf(),
        m.encode().len() <= u64::MAX,
    ensures
        EhdTreeNodeProviderAggregateV::decode(m.encode()) == Some(m),
{
    m.lemma_from_to_raw();
    lemma_parse_encode_fields(m.to_raw());
}

/// Empty bytes decode to the default ehd tree node provider aggregate.
pub proof fn lemma_ehd_tree_node_provider_aggregate_decode_empty()
    ensures
        EhdTreeNodeProviderAggregateV::decode(Seq::empty()) == Some(EhdTreeNodeProviderAggregateV::default_value()),
{
    let e = Seq::<(u32, RawV)>::empty();
    assert(sel(e, 1) == Seq::<RawV>::empty());
}

impl EhdTreeNodeProviderAggregate {
    /// Appends the protobuf encoding of the message.
    pub fn encode_raw(&self, buf: &mut Vec<u8>)
        ensures
            final(buf)@ == old(buf)@ + self@.encode(),
    {
        let ghost m = self@;
        let enc = match &self.provided_usage {
            Some(sub) => Some(sub.encode_to_vec()),
            None => None,
        };
        put_opt_msg_field(buf, 1, enc);
        proof {
            m.lemma_encode_split();
        }
    }

    /// The protobuf encoding of the message.
    pub fn encode_to_vec(&self) -> (r: Vec<u8>)
        ensures
            r@ == self@.encode(),
    {
        let mut buf = Vec::new();
        self.encode_raw(&mut buf);
        proof {
            assert(buf@ =~= self@.encode());
        }
        buf
    }

    /// Reads the message from its raw fields.
    pub fn from_fields(fields: &Vec<RawField>) -> (res: Result<EhdTreeNodeProviderAggregate, WireError>)
        ensures
            match EhdTreeNodeProviderAggregateV::from_raw(fields_view(fields@)) {
                Some(m) => res matches Ok(x) && x@ == m,
                None => res is Err,
            },
    {
        let ghost fs = fields_view(fields@);
        let mut provided_usage_fields: Vec<RawField> = Vec::new();
        let mut provided_usage_present = false;
        let mut i: usize = 0;
        proof {
            assert(fs.take(0) =~= Seq::<(u32, RawV)>::empty());
            assert(fields_view(Seq::<RawField>::empty()) =~= Seq::<(u32, RawV)>::empty());
        }
        while i < fields.len()
            invariant
                fs == fields_view(fields@),
                i <= fields@.len(),
                concat_of(sel(fs.take(i as int), 1), conv_fields()) == Some(fields_view(provided_usage_fields@)),
                provided_usage_present == (sel(fs.take(i as int), 1).len() > 0),
            decreases fields@.len() - i,
        {
            let f = &fields[i];
            proof {
                lemma_sel_take_step(fs, i as int);
            }
            if f.tag == 1 {
                step_msg_fields(&mut provided_usage_fields, &mut provided_usage_present, &f.value, Ghost(fs), Ghost(i as int))?;
            }
            i = i + 1;
        }
        proof {
            assert(fs.take(i as int) =~= fs);
        }
        let provided_usage = if provided_usage_present {
            Some(ActivityNode::from_fields(&provided_usage_fields)?)
        } else {
            None
        };
        Ok(EhdTreeNodeProviderAggregate { provided_usage })
    }

    /// Reads the message from its protobuf encoding.
    pub fn decode(bytes: &[u8]) -> (res: Result<EhdTreeNodeProviderAggregate, WireError>)
        ensures
            match EhdTreeNodeProviderAggregateV::decode(bytes@) {
                Some(m) => res matches Ok(x) && x@ == m,
                None => res is Err,
            },
    {
        let fields = parse_fields_exec(bytes)?;
        EhdTreeNodeProviderAggregate::from_fields(&fields)
    }

    /// The values of a sequence of messages.
    pub open spec fn views(v: Seq<EhdTreeNodeProviderAggregate>) -> Seq<EhdTreeNodeProviderAggregateV> {
        Seq::new(v.len(), |i: int| v[i]@)
    }

    /// Appends a repeated field of these messages.
    pub fn put_repeated(buf: &mut Vec<u8>, t: u32, v: &Vec<EhdTreeNodeProviderAggregate>)
        requires
            1 <= t <= MAX_TAG,
        ensures
            final(buf)@ == old(buf)@ + encode_fields(piece(t, vals_rep_msg(EhdTreeNodeProviderAggregate::views(v@), EhdTreeNodeProviderAggregateV::encode_fn()))),
    {
        let mut i: usize = 0;
        proof {
            assert(vals_rep_msg(EhdTreeNodeProviderAggregate::views(v@.take(0)), EhdTreeNodeProviderAggregateV::encode_fn()) =~= Seq::<RawV>::empty());
            lemma_encode_empty_piece(t);
            assert(buf@ =~= old(buf)@ + Seq::<u8>::empty());
        }
        while i < v.len()
            invariant
                1 <= t <= MAX_TAG,
                i <= v@.len(),
                buf@ == old(buf)@ + encode_fields(piece(t, vals_rep_msg(EhdTreeNodeProviderAggregate::views(v@.take(i as int)), EhdTreeNodeProviderAggregateV::encode_fn()))),
            decreases v@.len() - i,
        {
            let b = v[i].encode_to_vec();
            put_delimited(buf, t, b.as_slice());
            proof {
                let p0 = piece(t, vals_rep_msg(EhdTreeNodeProviderAggregate::views(v@.take(i as int)), EhdTreeNodeProviderAggregateV::encode_fn()));
                let q = piece(t, seq![RawV::Bytes(b@)]);
                assert(piece(t, vals_rep_msg(EhdTreeNodeProviderAggregate::views(v@.take(i + 1)), EhdTreeNodeProviderAggregateV::encode_fn())) =~= p0 + q);
                lemma_encode_fields_concat(p0, q);
            }
            i = i + 1;
        }
        proof {
            assert(v@.take(i as int) =~= v@);
        }
    }

    /// One more occurrence of a repeated field of these messages.
    pub fn step_repeated(cur: &mut Vec<EhdTreeNodeProviderAggregate>, r: &RawValue, Ghost(fs): Ghost<Seq<(u32, RawV)>>, Ghost(i): Ghost<int>) -> (res: Result<(), WireError>)
        requires
            0 <= i < fs.len(),
            fs[i].1 == r@,
            concat_of(sel(fs.take(i), fs[i].0), conv_msgs(EhdTreeNodeProviderAggregateV::from_raw_fn())) == Some(EhdTreeNodeProviderAggregate::views(old(cur)@)),
        ensures
            res is Ok ==> concat_of(sel(fs.take(i + 1), fs[i].0), conv_msgs(EhdTreeNodeProviderAggregateV::from_raw_fn())) == Some(EhdTreeNodeProviderAggregate::views(final(cur)@)),
            res is Err ==> concat_of(sel(fs, fs[i].0), conv_msgs(EhdTreeNodeProviderAggregateV::from_raw_fn())) is None,
    {
        proof {
            lemma_concat_of_at(fs, i, conv_msgs(EhdTreeNodeProviderAggregateV::from_raw_fn()));
        }
        let ef = raw_fields(r)?;
        let m = EhdTreeNodeProviderAggregate::from_fields(&ef)?;
        let ghost mv = m@;
        cur.push(m);
        proof {
            assert(EhdTreeNodeProviderAggregate::views(final(cur)@) =~= EhdTreeNodeProviderAggregate::views(old(cur)@) + seq![mv]);
        }
        Ok(())
    }

}

impl Default for EhdTreeNodeProviderAggregate {
    fn default() -> (r: EhdTreeNodeProviderAggregate)
        ensures
            r@ == EhdTreeNodeProviderAggregateV::default_value(),
    {
        let r = EhdTreeNodeProviderAggregate {
            provided_usage: None,
        };
        proof {
            assert(r@ =~= EhdTreeNodeProviderAggregateV::default_value());
        }
        r
    }
}

impl ProtoMessage for EhdTreeNodeProviderAggregate {
    open spec fn encoded(m: EhdTreeNodeProviderAggregateV) -> Seq<u8> {
        m.encode()
    }

    open spec fn decoded(bytes: Seq<u8>) -> Option<EhdTreeNodeProviderAggregateV> {
        EhdTreeNodeProviderAggregateV::decode(bytes)
    }

    fn encode_bytes(&self) -> (r: Vec<u8>) {
        self.encode_to_vec()
    }

    fn decode_bytes(bytes: &[u8]) -> (r: Result<EhdTreeNodeProviderAggregate, WireError>) {
        EhdTreeNodeProviderAggregate::decode(bytes)
    }
}

/// A node of the era historical document tree.
#[derive(Debug)]
pub struct EhdTreeTraversedNode {
    pub phd_ids: Vec<String>,
    pub providers: Vec<EhdTreeNodeProviderAggregate>,
}

/// The value of a [`EhdTreeTraversedNode`].
pub struct EhdTreeTraversedNodeV {
    pub phd_ids: Seq<Seq<char>>,
    pub providers: Seq<EhdTreeNodeProviderAggregateV>,
}

impl View for EhdTreeTraversedNode {
    type V = EhdTreeTraversedNodeV;

    open spec fn view(&self) -> EhdTreeTraversedNodeV {
        EhdTreeTraversedNodeV {
            phd_ids: strings_view(self.phd_ids@),
            providers: EhdTreeNodeProviderAggregate::views(self.providers@),
        }
    }
}

impl EhdTreeTraversedNodeV {
    /// The message with every field at its default.
    pub open spec fn default_value() -> EhdTreeTraversedNodeV {
        EhdTreeTraversedNodeV {
            phd_ids: Seq::<Seq<char>>::empty(),
            providers: Seq::<EhdTreeNodeProviderAggregateV>::empty(),
        }
    }

    /// Map fields hold their keys in order, each once, here and in nested messages.
    pub open spec fn wf(self) -> bool {
        &&& (forall|i: int| 0 <= i < self.providers.len() ==> (#[trigger] self.providers[i]).wf())
    }

    pub open spec fn piece_phd_ids(self) -> Seq<(u32, RawV)> {
        piece(1, vals_rep_string(self.phd_ids))
    }

    pub open spec fn piece_providers(self) -> Seq<(u32, RawV)> {
        piece(2, vals_rep_msg(self.providers, EhdTreeNodeProviderAggregateV::encode_fn()))
    }

    /// The raw fields the message is written as, in field order.
    pub open spec fn to_raw(self) -> Seq<(u32, RawV)> {
        self.piece_phd_ids() + self.piece_providers()
    }

    /// The message read from raw fields, as prost reads it.
    pub open spec fn from_raw(fs: Seq<(u32, RawV)>) -> Option<EhdTreeTraversedNodeV> {
        let phd_ids = concat_of(sel(fs, 1), conv_rep_string());
        let providers = concat_of(sel(fs, 2), conv_msgs(EhdTreeNodeProviderAggregateV::from_raw_fn()));
        if phd_ids is Some && providers is Some {
            Some(EhdTreeTraversedNodeV {
                phd_ids: phd_ids.unwrap(),
                providers: providers.unwrap(),
            })
        } else {
            None
        }
    }

    pub open spec fn from_raw_fn() -> spec_fn(Seq<(u32, RawV)>) -> Option<EhdTreeTraversedNodeV> {
        |fs: Seq<(u32, RawV)>| EhdTreeTraversedNodeV::from_raw(fs)
    }

    /// The protobuf encoding of the message.
    pub open spec fn encode(self) -> Seq<u8> {
        encode_fields(self.to_raw())
    }

    pub open spec fn encode_fn() -> spec_fn(EhdTreeTraversedNodeV) -> Seq<u8> {
        |m: EhdTreeTraversedNodeV| m.encode()
    }

    /// The message read from bytes, if they hold one.
    pub open spec fn decode(s: Seq<u8>) -> Option<EhdTreeTraversedNodeV> {
        decode_with(s, EhdTreeTraversedNodeV::from_raw_fn())
    }

    /// The encoding is the encodings of the fields one after the other.
    pub proof fn lemma_encode_split(self)
        ensures
            self.encode() == encode_fields(self.piece_phd_ids()) + encode_fields(self.piece_providers()),
    {
        lemma_encode_fields_concat(self.piece_phd_ids(), self.piece_providers());
    }

    /// Reading the raw fields of a message gives the message back.
    pub proof fn lemma_from_to_raw(self)
        requires
            self.wf(),
            self.encode().len() <= u64::MAX,
        ensures
            EhdTreeTraversedNodeV::from_raw(self.to_raw()) == Some(self),
            fields_ok(self.to_raw()),
        decreases self.encode().len(),
    {
        let fs = self.to_raw();
        self.lemma_encode_split();
        assert(sel(fs, 1) =~= vals_rep_string(self.phd_ids));
        lemma_rep_string_round_trip(self.phd_ids);
        lemma_piece_ok(1, vals_rep_string(self.phd_ids));
        assert(sel(fs, 2) =~= vals_rep_msg(self.providers, EhdTreeNodeProviderAggregateV::encode_fn()));
        assert forall|i: int| 0 <= i < self.providers.len() implies {
            &&& (EhdTreeNodeProviderAggregateV::encode_fn())(#[trigger] self.providers[i]) == encode_fields((EhdTreeNodeProviderAggregateV::to_raw_fn())(self.providers[i]))
            &&& fields_ok((EhdTreeNodeProviderAggregateV::to_raw_fn())(self.providers[i]))
            &&& (EhdTreeNodeProviderAggregateV::encode_fn())(self.providers[i]).len() <= u64::MAX
            &&& (EhdTreeNodeProviderAggregateV::from_raw_fn())((EhdTreeNodeProviderAggregateV::to_raw_fn())(self.providers[i])) == Some(self.providers[i])
        } by {
            lemma_piece_payload_bound(2, vals_rep_msg(self.providers, EhdTreeNodeProviderAggregateV::encode_fn()), i);
            self.providers[i].lemma_from_to_raw();
        }
        lemma_rep_msg_round_trip(self.providers, EhdTreeNodeProviderAggregateV::encode_fn(), EhdTreeNodeProviderAggregateV::to_raw_fn(), EhdTreeNodeProviderAggregateV::from_raw_fn());
        lemma_piece_ok(2, vals_rep_msg(self.providers, EhdTreeNodeProviderAggregateV::encode_fn()));
        lemma_fields_ok_concat(self.piece_phd_ids(), self.piece_providers());
    }

    pub open spec fn to_raw_fn() -> spec_fn(EhdTreeTraversedNodeV) -> Seq<(u32, RawV)> {
        |m: EhdTreeTraversedNodeV| m.to_raw()
    }
}

/// Decoding the encoding of a ehd tree traversed node gives it back.
pub proof fn lemma_ehd_tree_traversed_node_round_trip(m: EhdTreeTraversedNodeV)
    requires
        m.wf(),
        m.encode().len() <= u64::MAX,
    ensures
        EhdTreeTraversedNodeV::decode(m.encode()) == Some(m),
{
    m.lemma_from_to_raw();
    lemma_parse_encode_fields(m.to_raw());
}

/// Empty bytes decode to the default ehd tree traversed node.
pub proof fn lemma_ehd_tree_traversed_node_decode_empty()
    ensures
        EhdTreeTraversedNodeV::decode(Seq::empty()) == Some(EhdTreeTraversedNodeV::default_value()),
{
    let e = Seq::<(u32, RawV)>::empty();
    assert(sel(e, 1) == Seq::<RawV>::empty());
    assert(sel(e, 2) == Seq::<RawV>::empty());
}

impl EhdTreeTraversedNode {
    /// Appends the protobuf encoding of the message.
    pub fn encode_raw(&self, buf: &mut Vec<u8>)
        ensures
            final(buf)@ == old(buf)@ + self@.encode(),
    {
        let ghost m = self@;
        put_rep_string_field(buf, 1, &self.phd_ids);
        EhdTreeNodeProviderAggregate::put_repeated(buf, 2, &self.providers);
        proof {
            assert(buf@ =~= old(buf)@ + (encode_fields(m.piece_phd_ids()) + encode_fields(m.piece_providers())));
        }
        proof {
            m.lemma_encode_split();
        }
    }

    /// The protobuf encoding of the message.
    pub fn encode_to_vec(&self) -> (r: Vec<u8>)
        ensures
            r@ == self@.encode(),
    {
        let mut buf = Vec::new();
        self.encode_raw(&mut buf);
        proof {
            assert(buf@ =~= self@.encode());
        }
        buf
    }

    /// Reads the message from its raw fields.
    pub fn from_fields(fields: &Vec<RawField>) -> (res: Result<EhdTreeTraversedNode, WireError>)
        ensures
            match EhdTreeTraversedNodeV::from_raw(fields_view(fields@)) {
                Some(m) => res matches Ok(x) && x@ == m,
                None => res is Err,
            },
    {
        let ghost fs = fields_view(fields@);
        let mut phd_ids: Vec<String> = Vec::new();
        let mut providers: Vec<EhdTreeNodeProviderAggregate> = Vec::new();
        let mut i: usize = 0;
        proof {
            assert(fs.take(0) =~= Seq::<(u32, RawV)>::empty());
            assert(fields_view(Seq::<RawField>::empty()) =~= Seq::<(u32, RawV)>::empty());
        }
        while i < fields.len()
            invariant
                fs == fields_view(fields@),
                i <= fields@.len(),
                concat_of(sel(fs.take(i as int), 1), conv_rep_string()) == Some(strings_view(phd_ids@)),
                concat_of(sel(fs.take(i as int), 2), conv_msgs(EhdTreeNodeProviderAggregateV::from_raw_fn())) == Some(EhdTreeNodeProviderAggregate::views(providers@)),
            decreases fields@.len() - i,
        {
            let f = &fields[i];
            proof {
                lemma_sel_take_step(fs, i as int);
            }
            if f.tag == 1 {
                step_rep_string(&mut phd_ids, &f.value, Ghost(fs), Ghost(i as int))?;
            } else if f.tag == 2 {
                EhdTreeNodeProviderAggregate::step_repeated(&mut providers, &f.value, Ghost(fs), Ghost(i as int))?;
            }
            i = i + 1;
        }
        proof {
            assert(fs.take(i as int) =~= fs);
        }
        Ok(EhdTreeTraversedNode { phd_ids, providers })
    }

    /// Reads the message from its protobuf encoding.
    pub fn decode(bytes: &[u8]) -> (res: Result<EhdTreeTraversedNode, WireError>)
        ensures
            match EhdTreeTraversedNodeV::decode(bytes@) {
                Some(m) => res matches Ok(x) && x@ == m,
                None => res is Err,
            },
    {
        let fields = parse_fields_exec(bytes)?;
        EhdTreeTraversedNode::from_fields(&fields)
    }

    /// The values of a sequence of messages.
    pub open spec fn views(v: Seq<EhdTreeTraversedNode>) -> Seq<EhdTreeTraversedNodeV> {
        Seq::new(v.len(), |i: int| v[i]@)
    }

    /// Appends a repeated field of these messages.
    pub fn put_repeated(buf: &mut Vec<u8>, t: u32, v: &Vec<EhdTreeTraversedNode>)
        requires
            1 <= t <= MAX_TAG,
        ensures
            final(buf)@ == old(buf)@ + encode_fields(piece(t, vals_rep_msg(EhdTreeTraversedNode::views(v@), EhdTreeTraversedNodeV::encode_fn()))),
    {
        let mut i: usize = 0;
        proof {
            assert(vals_rep_msg(EhdTreeTraversedNode::views(v@.take(0)), EhdTreeTraversedNodeV::encode_fn()) =~= Seq::<RawV>::empty());
            lemma_encode_empty_piece(t);
            assert(buf@ =~= old(buf)@ + Seq::<u8>::empty());
        }
        while i < v.len()
            invariant
                1 <= t <= MAX_TAG,
                i <= v@.len(),
                buf@ == old(buf)@ + encode_fields(piece(t, vals_rep_msg(EhdTreeTraversedNode::views(v@.take(i as int)), EhdTreeTraversedNodeV::encode_fn()))),
            decreases v@.len() - i,
        {
            let b = v[i].encode_to_vec();
            put_delimited(buf, t, b.as_slice());
            proof {
                let p0 = piece(t, vals_rep_msg(EhdTreeTraversedNode::views(v@.take(i as int)), EhdTreeTraversedNodeV::encode_fn()));
                let q = piece(t, seq![RawV::Bytes(b@)]);
                assert(piece(t, vals_rep_msg(EhdTreeTraversedNode::views(v@.take(i + 1)), EhdTreeTraversedNodeV::encode_fn())) =~= p0 + q);
                lemma_encode_fields_concat(p0, q);
            }
            i = i + 1;
        }
        proof {
            assert(v@.take(i as int) =~= v@);
        }
    }

    /// One more occurrence of a repeated field of these messages.
    pub fn step_repeated(cur: &mut Vec<EhdTreeTraversedNode>, r: &RawValue, Ghost(fs): Ghost<Seq<(u32, RawV)>>, Ghost(i): Ghost<int>) -> (res: Result<(), WireError>)
        requires
            0 <= i < fs.len(),
            fs[i].1 == r@,
            concat_of(sel(fs.take(i), fs[i].0), conv_msgs(EhdTreeTraversedNodeV::from_raw_fn())) == Some(EhdTreeTraversedNode::views(old(cur)@)),
        ensures
            res is Ok ==> concat_of(sel(fs.take(i + 1), fs[i].0), conv_msgs(EhdTreeTraversedNodeV::from_raw_fn())) == Some(EhdTreeTraversedNode::views(final(cur)@)),
            res is Err ==> concat_of(sel(fs, fs[i].0), conv_msgs(EhdTreeTraversedNodeV::from_raw_fn())) is None,
    {
        proof {
            lemma_concat_of_at(fs, i, conv_msgs(EhdTreeTraversedNodeV::from_raw_fn()));
        }
        let ef = raw_fields(r)?;
        let m = EhdTreeTraversedNode::from_fields(&ef)?;
        let ghost mv = m@;
        cur.push(m);
        proof {
            assert(EhdTreeTraversedNode::views(final(cur)@) =~= EhdTreeTraversedNode::views(old(cur)@) + seq![mv]);
        }
        Ok(())
    }

}

impl Default for EhdTreeTraversedNode {
    fn default() -> (r: EhdTreeTraversedNode)
        ensures
            r@ == EhdTreeTraversedNodeV::default_value(),
    {
        let r = EhdTreeTraversedNode {
            phd_ids: Vec::new(),
            providers: Vec::new(),
        };
        proof {
            assert(r@.phd_ids =~= EhdTreeTraversedNodeV::default_value().phd_ids);
            assert(r@.providers =~= EhdTreeTraversedNodeV::default_value().providers);
            assert(r@ =~= EhdTreeTraversedNodeV::default_value());
        }
        r
    }
}

impl ProtoMessage for EhdTreeTraversedNode {
    open spec fn encoded(m: EhdTreeTraversedNodeV) -> Seq<u8> {
        m.encode()
    }

    open spec fn decoded(bytes: Seq<u8>) -> Option<EhdTreeTraversedNodeV> {
        EhdTreeTraversedNodeV::decode(bytes)
    }

    fn encode_bytes(&self) -> (r: Vec<u8>) {
        self.encode_to_vec()
    }

    fn decode_bytes(bytes: &[u8]) -> (r: Result<EhdTreeTraversedNode, WireError>) {
        EhdTreeTraversedNode::decode(bytes)
    }
}

/// A node of a partial historical document tree.
#[derive(Debug)]
pub struct PhdTreeTraversedNode {
    pub collector_id: Vec<u8>,
}

/// The value of a [`PhdTreeTraversedNode`].
pub struct PhdTreeTraversedNodeV {
    pub collector_id: Seq<u8>,
}

impl View for PhdTreeTraversedNode {
    type V = PhdTreeTraversedNodeV;

    open spec fn view(&self) -> PhdTreeTraversedNodeV {
        PhdTreeTraversedNodeV {
            collector_id: self.collector_id@,
        }
    }
}

impl PhdTreeTraversedNodeV {
    /// The message with every field at its default.
    pub open spec fn default_value() -> PhdTreeTraversedNodeV {
        PhdTreeTraversedNodeV {
            collector_id: Seq::<u8>::empty(),
        }
    }

    /// Map fields hold their keys in order, each once, here and in nested messages.
    pub open spec fn wf(self) -> bool {
        true
    }

    pub open spec fn piece_collector_id(self) -> Seq<(u32, RawV)> {
        piece(1, vals_bytes(self.collector_id))
    }

    /// The raw fields the message is written as, in field order.
    pub open spec fn to_raw(self) -> Seq<(u32, RawV)> {
        self.piece_collector_id()
    }

    /// The message read from raw fields, as prost reads it.
    pub open spec fn from_raw(fs: Seq<(u32, RawV)>) -> Option<PhdTreeTraversedNodeV> {
        let collector_id = last_of(sel(fs, 1), conv_bytes(), Seq::<u8>::empty());
        if collector_id is Some {
            Some(PhdTreeTraversedNodeV {
                collector_id: collector_id.unwrap(),
            })
        } else {
            None
        }
    }

    pub open spec fn from_raw_fn() -> spec_fn(Seq<(u32, RawV)>) -> Option<PhdTreeTraversedNodeV> {
        |fs: Seq<(u32, RawV)>| PhdTreeTraversedNodeV::from_raw(fs)
    }

    /// The protobuf encoding of the message.
    pub open spec fn encode(self) -> Seq<u8> {
        encode_fields(self.to_raw())
    }

    pub open spec fn encode_fn() -> spec_fn(PhdTreeTraversedNodeV) -> Seq<u8> {
        |m: PhdTreeTraversedNodeV| m.encode()
    }

    /// The message read from bytes, if they hold one.
    pub open spec fn decode(s: Seq<u8>) -> Option<PhdTreeTraversedNodeV> {
        decode_with(s, PhdTreeTraversedNodeV::from_raw_fn())
    }

    /// The encoding is the encodings of the fields one after the other.
    pub proof fn lemma_encode_split(self)
        ensures
            self.encode() == encode_fields(self.piece_collector_id()),
    {
    }

    /// Reading the raw fields of a message gives the message back.
    pub proof fn lemma_from_to_raw(self)
        requires
            self.wf(),
            self.encode().len() <= u64::MAX,
        ensures
            PhdTreeTraversedNodeV::from_raw(self.to_raw()) == Some(self),
            fields_ok(self.to_raw()),
        decreases self.encode().len(),
    {
        let fs = self.to_raw();
        self.lemma_encode_split();
        assert(sel(fs, 1) =~= vals_bytes(self.collector_id));
        lemma_bytes_round_trip(self.collector_id);
        lemma_piece_ok(1, vals_bytes(self.collector_id));
    }

    pub open spec fn to_raw_fn() -> spec_fn(PhdTreeTraversedNodeV) -> Seq<(u32, RawV)> {
        |m: PhdTreeTraversedNodeV| m.to_raw()
    }
}

/// Decoding the encoding of a phd tree traversed node gives it back.
pub proof fn lemma_phd_tree_traversed_node_round_trip(m: PhdTreeTraversedNodeV)
    requires
        m.wf(),
        m.encode().len() <= u64::MAX,
    ensures
        PhdTreeTraversedNodeV::decode(m.encode()) == Some(m),
{
    m.lemma_from_to_raw();
    lemma_parse_encode_fields(m.to_raw());
}

/// Empty bytes decode to the default phd tree traversed node.
pub proof fn lemma_phd_tree_traversed_node_decode_empty()
    ensures
        PhdTreeTraversedNodeV::decode(Seq::empty()) == Some(PhdTreeTraversedNodeV::default_value()),
{
    let e = Seq::<(u32, RawV)>::empty();
    assert(sel(e, 1) == Seq::<RawV>::empty());
}

impl PhdTreeTraversedNode {
    /// Appends the protobuf encoding of the message.
    pub fn encode_raw(&self, buf: &mut Vec<u8>)
        ensures
            final(buf)@ == old(buf)@ + self@.encode(),
    {
        let ghost m = self@;
        put_bytes_field(buf, 1, self.collector_id.as_slice());
        proof {
            m.lemma_encode_split();
        }
    }

    /// The protobuf encoding of the message.
    pub fn encode_to_vec(&self) -> (r: Vec<u8>)
        ensures
            r@ == self@.encode(),
    {
        let mut buf = Vec::new();
        self.encode_raw(&mut buf);
        proof {
            assert(buf@ =~= self@.encode());
        }
        buf
    }

    /// Reads the message from its raw fields.
    pub fn from_fields(fields: &Vec<RawField>) -> (res: Result<PhdTreeTraversedNode, WireError>)
        ensures
            match PhdTreeTraversedNodeV::from_raw(fields_view(fields@)) {
                Some(m) => res matches Ok(x) && x@ == m,
                None => res is Err,
            },
    {
        let ghost fs = fields_view(fields@);
        let mut collector_id: Vec<u8> = Vec::new();
        let mut i: usize = 0;
        proof {
            assert(fs.take(0) =~= Seq::<(u32, RawV)>::empty());
            assert(fields_view(Seq::<RawField>::empty()) =~= Seq::<(u32, RawV)>::empty());
        }
        while i < fields.len()
            invariant
                fs == fields_view(fields@),
                i <= fields@.len(),
                last_of(sel(fs.take(i as int), 1), conv_bytes(), Seq::<u8>::empty()) == Some(collector_id@),
            decreases fields@.len() - i,
        {
            let f = &fields[i];
            proof {
                lemma_sel_take_step(fs, i as int);
            }
            if f.tag == 1 {
                step_bytes(&mut collector_id, &f.value, Ghost(fs), Ghost(i as int))?;
            }
            i = i + 1;
        }
        proof {
            assert(fs.take(i as int) =~= fs);
        }
        Ok(PhdTreeTraversedNode { collector_id })
    }

    /// Reads the message from its protobuf encoding.
    pub fn decode(bytes: &[u8]) -> (res: Result<PhdTreeTraversedNode, WireError>)
        ensures
            match PhdTreeTraversedNodeV::decode(bytes@) {
                Some(m) => res matches Ok(x) && x@ == m,
                None => res is Err,
            },
    {
        let fields = parse_fields_exec(bytes)?;
        PhdTreeTraversedNode::from_fields(&fields)
    }

    /// The values of a sequence of messages.
    pub open spec fn views(v: Seq<PhdTreeTraversedNode>) -> Seq<PhdTreeTraversedNodeV> {
        Seq::new(v.len(), |i: int| v[i]@)
    }

    /// Appends a repeated field of these messages.
    pub fn put_repeated(buf: &mut Vec<u8>, t: u32, v: &Vec<PhdTreeTraversedNode>)
        requires
            1 <= t <= MAX_TAG,
        ensures
            final(buf)@ == old(buf)@ + encode_fields(piece(t, vals_rep_msg(PhdTreeTraversedNode::views(v@), PhdTreeTraversedNodeV::encode_fn()))),
    {
        let mut i: usize = 0;
        proof {
            assert(vals_rep_msg(PhdTreeTraversedNode::views(v@.take(0)), PhdTreeTraversedNodeV::encode_fn()) =~= Seq::<RawV>::empty());
            lemma_encode_empty_piece(t);
            assert(buf@ =~= old(buf)@ + Seq::<u8>::empty());
        }
        while i < v.len()
            invariant
                1 <= t <= MAX_TAG,
                i <= v@.len(),
                buf@ == old(buf)@ + encode_fields(piece(t, vals_rep_msg(PhdTreeTraversedNode::views(v@.take(i as int)), PhdTreeTraversedNodeV::encode_fn()))),
            decreases v@.len() - i,
        {
            let b = v[i].encode_to_vec();
            put_delimited(buf, t, b.as_slice());
            proof {
                let p0 = piece(t, vals_rep_msg(PhdTreeTraversedNode::views(v@.take(i as int)), PhdTreeTraversedNodeV::encode_fn()));
                let q = piece(t, seq![RawV::Bytes(b@)]);
                assert(piece(t, vals_rep_msg(PhdTreeTraversedNode::views(v@.take(i + 1)), PhdTreeTraversedNodeV::encode_fn())) =~= p0 + q);
                lemma_encode_fields_concat(p0, q);
            }
            i = i + 1;
        }
        proof {
            assert(v@.take(i as int) =~= v@);
        }
    }

    /// One more occurrence of a repeated field of these messages.
    pub fn step_repeated(cur: &mut Vec<PhdTreeTraversedNode>, r: &RawValue, Ghost(fs): Ghost<Seq<(u32, RawV)>>, Ghost(i): Ghost<int>) -> (res: Result<(), WireError>)
        requires
            0 <= i < fs.len(),
            fs[i].1 == r@,
            concat_of(sel(fs.take(i), fs[i].0), conv_msgs(PhdTreeTraversedNodeV::from_raw_fn())) == Some(PhdTreeTraversedNode::views(old(cur)@)),
        ensures
            res is Ok ==> concat_of(sel(fs.take(i + 1), fs[i].0), conv_msgs(PhdTreeTraversedNodeV::from_raw_fn())) == Some(PhdTreeTraversedNode::views(final(cur)@)),
            res is Err ==> concat_of(sel(fs, fs[i].0), conv_msgs(PhdTreeTraversedNodeV::from_raw_fn())) is None,
    {
        proof {
            lemma_concat_of_at(fs, i, conv_msgs(PhdTreeTraversedNodeV::from_raw_fn()));
        }
        let ef = raw_fields(r)?;
        let m = PhdTreeTraversedNode::from_fields(&ef)?;
        let ghost mv = m@;
        cur.push(m);
        proof {
            assert(PhdTreeTraversedNode::views(final(cur)@) =~= PhdTreeTraversedNode::views(old(cur)@) + seq![mv]);
        }
        Ok(())
    }

}

impl Default for PhdTreeTraversedNode {
    fn default() -> (r: PhdTreeTraversedNode)
        ensures
            r@ == PhdTreeTraversedNodeV::default_value(),
    {
        let r = PhdTreeTraversedNode {
            collector_id: Vec::new(),
        };
        proof {
            assert(r@.collector_id =~= PhdTreeTraversedNodeV::default_value().collector_id);
            assert(r@ =~= PhdTreeTraversedNodeV::default_value());
        }
        r
    }
}

impl ProtoMessage for PhdTreeTraversedNode {
    open spec fn encoded(m: PhdTreeTraversedNodeV) -> Seq<u8> {
        m.encode()
    }

    open spec fn decoded(bytes: Seq<u8>) -> Option<PhdTreeTraversedNodeV> {
        PhdTreeTraversedNodeV::decode(bytes)
    }

    fn encode_bytes(&self) -> (r: Vec<u8>) {
        self.encode_to_vec()
    }

    fn decode_bytes(bytes: &[u8]) -> (r: Result<PhdTreeTraversedNode, WireError>) {
        PhdTreeTraversedNode::decode(bytes)
    }
}

/// A node's aggregates within a partial historical document.
#[derive(Debug)]
pub struct PhdNodeAggregateGroup {
    pub node_key: Vec<u8>,
}

/// The value of a [`PhdNodeAggregateGroup`].
pub struct PhdNodeAggregateGroupV {
    pub node_key: Seq<u8>,
}

impl View for PhdNodeAggregateGroup {
    type V = PhdNodeAggregateGroupV;

    open spec fn view(&self) -> PhdNodeAggregateGroupV {
        PhdNodeAggregateGroupV {
            node_key: self.node_key@,
        }
    }
}

impl PhdNodeAggregateGroupV {
    /// The message with every field at its default.
    pub open spec fn default_value() -> PhdNodeAggregateGroupV {
        PhdNodeAggregateGroupV {
            node_key: Seq::<u8>::empty(),
        }
    }

    /// Map fields hold their keys in order, each once, here and in nested messages.
    pub open spec fn wf(self) -> bool {
        true
    }

    pub open spec fn piece_node_key(self) -> Seq<(u32, RawV)> {
        piece(1, vals_bytes(self.node_key))
    }

    /// The raw fields the message is written as, in field order.
    pub open spec fn to_raw(self) -> Seq<(u32, RawV)> {
        self.piece_node_key()
    }

    /// The message read from raw fields, as prost reads it.
    pub open spec fn from_raw(fs: Seq<(u32, RawV)>) -> Option<PhdNodeAggregateGroupV> {
        let node_key = last_of(sel(fs, 1), conv_bytes(), Seq::<u8>::empty());
        if node_key is Some {
            Some(PhdNodeAggregateGroupV {
                node_key: node_key.unwrap(),
            })
        } else {
            None
        }
    }

    pub open spec fn from_raw_fn() -> spec_fn(Seq<(u32, RawV)>) -> Option<PhdNodeAggregateGroupV> {
        |fs: Seq<(u32, RawV)>| PhdNodeAggregateGroupV::from_raw(fs)
    }

    /// The protobuf encoding of the message.
    pub open spec fn encode(self) -> Seq<u8> {
        encode_fields(self.to_raw())
    }

    pub open spec fn encode_fn() -> spec_fn(PhdNodeAggregateGroupV) -> Seq<u8> {
        |m: PhdNodeAggregateGroupV| m.encode()
    }

    /// The message read from bytes, if they hold one.
    pub open spec fn decode(s: Seq<u8>) -> Option<PhdNodeAggregateGroupV> {
        decode_with(s, PhdNodeAggregateGroupV::from_raw_fn())
    }

    /// The encoding is the encodings of the fields one after the other.
    pub proof fn lemma_encode_split(self)
        ensures
            self.encode() == encode_fields(self.piece_node_key()),
    {
    }

    /// Reading the raw fields of a message gives the message back.
    pub proof fn lemma_from_to_raw(self)
        requires
            self.wf(),
            self.encode().len() <= u64::MAX,
        ensures
            PhdNodeAggregateGroupV::from_raw(self.to_raw()) == Some(self),
            fields_ok(self.to_raw()),
        decreases self.encode().len(),
    {
        let fs = self.to_raw();
        self.lemma_encode_split();
        assert(sel(fs, 1) =~= vals_bytes(self.node_key));
        lemma_bytes_round_trip(self.node_key);
        lemma_piece_ok(1, vals_bytes(self.node_key));
    }

    pub open spec fn to_raw_fn() -> spec_fn(PhdNodeAggregateGroupV) -> Seq<(u32, RawV)> {
        |m: PhdNodeAggregateGroupV| m.to_raw()
    }
}

/// Decoding the encoding of a phd node aggregate group gives it back.
pub proof fn lemma_phd_node_aggregate_group_round_trip(m: PhdNodeAggregateGroupV)
    requires
        m.wf(),
        m.encode().len() <= u64::MAX,
    ensures
        PhdNodeAggregateGroupV::decode(m.encode()) == Some(m),
{
    m.lemma_from_to_raw();
    lemma_parse_encode_fields(m.to_raw());
}

/// Empty bytes decode to the default phd node aggregate group.
pub proof fn lemma_phd_node_aggregate_group_decode_empty()
    ensures
        PhdNodeAggregateGroupV::decode(Seq::empty()) == Some(PhdNodeAggregateGroupV::default_value()),
{
    let e = Seq::<(u32, RawV)>::empty();
    assert(sel(e, 1) == Seq::<RawV>::empty());
}

impl PhdNodeAggregateGroup {
    /// Appends the protobuf encoding of the message.
    pub fn encode_raw(&self, buf: &mut Vec<u8>)
        ensures
            final(buf)@ == old(buf)@ + self@.encode(),
    {
        let ghost m = self@;
        put_bytes_field(buf, 1, self.node_key.as_slice());
        proof {
            m.lemma_encode_split();
        }
    }

    /// The protobuf encoding of the message.
    pub fn encode_to_vec(&self) -> (r: Vec<u8>)
        ensures
            r@ == self@.encode(),
    {
        let mut buf = Vec::new();
        self.encode_raw(&mut buf);
        proof {
            assert(buf@ =~= self@.encode());
        }
        buf
    }

    /// Reads the message from its raw fields.
    pub fn from_fields(fields: &Vec<RawField>) -> (res: Result<PhdNodeAggregateGroup, WireError>)
        ensures
            match PhdNodeAggregateGroupV::from_raw(fields_view(fields@)) {
                Some(m) => res matches Ok(x) && x@ == m,
                None => res is Err,
            },
    {
        let ghost fs = fields_view(fields@);
        let mut node_key: Vec<u8> = Vec::new();
        let mut i: usize = 0;
        proof {
            assert(fs.take(0) =~= Seq::<(u32, RawV)>::empty());
            assert(fields_view(Seq::<RawField>::empty()) =~= Seq::<(u32, RawV)>::empty());
        }
        while i < fields.len()
            invariant
                fs == fields_view(fields@),
                i <= fields@.len(),
                last_of(sel(fs.take(i as int), 1), conv_bytes(), Seq::<u8>::empty()) == Some(node_key@),
            decreases fields@.len() - i,
        {
            let f = &fields[i];
            proof {
                lemma_sel_take_step(fs, i as int);
            }
            if f.tag == 1 {
                step_bytes(&mut node_key, &f.value, Ghost(fs), Ghost(i as int))?;
            }
            i = i + 1;
        }
        proof {
            assert(fs.take(i as int) =~= fs);
        }
        Ok(PhdNodeAggregateGroup { node_key })
    }

    /// Reads the message from its protobuf encoding.
    pub fn decode(bytes: &[u8]) -> (res: Result<PhdNodeAggregateGroup, WireError>)
        ensures
            match PhdNodeAggregateGroupV::decode(bytes@) {
                Some(m) => res matches Ok(x) && x@ == m,
                None => res is Err,
            },
    {
        let fields = parse_fields_exec(bytes)?;
        PhdNodeAggregateGroup::from_fields(&fields)
    }

}

impl Default for PhdNodeAggregateGroup {
    fn default() -> (r: PhdNodeAggregateGroup)
        ensures
            r@ == PhdNodeAggregateGroupV::default_value(),
    {
        let r = PhdNodeAggregateGroup {
            node_key: Vec::new(),
        };
        proof {
            assert(r@.node_key =~= PhdNodeAggregateGroupV::default_value().node_key);
            assert(r@ =~= PhdNodeAggregateGroupV::default_value());
        }
        r
    }
}

impl ProtoMessage for PhdNodeAggregateGroup {
    open spec fn encoded(m: PhdNodeAggregateGroupV) -> Seq<u8> {
        m.encode()
    }

    open spec fn decoded(bytes: Seq<u8>) -> Option<PhdNodeAggregateGroupV> {
        PhdNodeAggregateGroupV::decode(bytes)
    }

    fn encode_bytes(&self) -> (r: Vec<u8>) {
        self.encode_to_vec()
    }

    fn decode_bytes(bytes: &[u8]) -> (r: Result<PhdNodeAggregateGroup, WireError>) {
        PhdNodeAggregateGroup::decode(bytes)
    }
}

/// A bucket's usage as served by one node.
#[derive(Debug)]
pub struct BucketSubAggregate {
    pub node_key: Vec<u8>,
}

/// The value of a [`BucketSubAggregate`].
pub struct BucketSubAggregateV {
    pub node_key: Seq<u8>,
}

impl View for BucketSubAggregate {
    type V = BucketSubAggregateV;

    open spec fn view(&self) -> BucketSubAggregateV {
        BucketSubAggregateV {
            node_key: self.node_key@,
        }
    }
}

impl BucketSubAggregateV {
    /// The message with every field at its default.
    pub open spec fn default_value() -> BucketSubAggregateV {
        BucketSubAggregateV {
            node_key: Seq::<u8>::empty(),
        }
    }

    /// Map fields hold their keys in order, each once, here and in nested messages.
    pub open spec fn wf(self) -> bool {
        true
    }

    pub open spec fn piece_node_key(self) -> Seq<(u32, RawV)> {
        piece(1, vals_bytes(self.node_key))
    }

    /// The raw fields the message is written as, in field order.
    pub open spec fn to_raw(self) -> Seq<(u32, RawV)> {
        self.piece_node_key()
    }

    /// The message read from raw fields, as prost reads it.
    pub open spec fn from_raw(fs: Seq<(u32, RawV)>) -> Option<BucketSubAggregateV> {
        let node_key = last_of(sel(fs, 1), conv_bytes(), Seq::<u8>::empty());
        if node_key is Some {
            Some(BucketSubAggregateV {
                node_key: node_key.unwrap(),
            })
        } else {
            None
        }
    }

    pub open spec fn from_raw_fn() -> spec_fn(Seq<(u32, RawV)>) -> Option<BucketSubAggregateV> {
        |fs: Seq<(u32, RawV)>| BucketSubAggregateV::from_raw(fs)
    }

    /// The protobuf encoding of the message.
    pub open spec fn encode(self) -> Seq<u8> {
        encode_fields(self.to_raw())
    }

    pub open spec fn encode_fn() -> spec_fn(BucketSubAggregateV) -> Seq<u8> {
        |m: BucketSubAggregateV| m.encode()
    }

    /// The message read from bytes, if they hold one.
    pub open spec fn decode(s: Seq<u8>) -> Option<BucketSubAggregateV> {
        decode_with(s, BucketSubAggregateV::from_raw_fn())
    }

    /// The encoding is the encodings of the fields one after the other.
    pub proof fn lemma_encode_split(self)
        ensures
            self.encode() == encode_fields(self.piece_node_key()),
    {
    }

    /// Reading the raw fields of a message gives the message back.
    pub proof fn lemma_from_to_raw(self)
        requires
            self.wf(),
            self.encode().len() <= u64::MAX,
        ensures
            BucketSubAggregateV::from_raw(self.to_raw()) == Some(self),
            fields_ok(self.to_raw()),
        decreases self.encode().len(),
    {
        let fs = self.to_raw();
        self.lemma_encode_split();
        assert(sel(fs, 1) =~= vals_bytes(self.node_key));
        lemma_bytes_round_trip(self.node_key);
        lemma_piece_ok(1, vals_bytes(self.node_key));
    }

    pub open spec fn to_raw_fn() -> spec_fn(BucketSubAggregateV) -> Seq<(u32, RawV)> {
        |m: BucketSubAggregateV| m.to_raw()
    }
}

/// Decoding the encoding of a bucket sub aggregate gives it back.
pub proof fn lemma_bucket_sub_aggregate_round_trip(m: BucketSubAggregateV)
    requires
        m.wf(),
        m.encode().len() <= u64::MAX,
    ensures
        BucketSubAggregateV::decode(m.encode()) == Some(m),
{
    m.lemma_from_to_raw();
    lemma_parse_encode_fields(m.to_raw());
}

/// Empty bytes decode to the default bucket sub aggregate.
pub proof fn lemma_bucket_sub_aggregate_decode_empty()
    ensures
        BucketSubAggregateV::decode(Seq::empty()) == Some(BucketSubAggregateV::default_value()),
{
    let e = Seq::<(u32, RawV)>::empty();
    assert(sel(e, 1) == Seq::<RawV>::empty());
}

impl BucketSubAggregate {
    /// Appends the protobuf encoding of the message.
    pub fn encode_raw(&self, buf: &mut Vec<u8>)
        ensures
            final(buf)@ == old(buf)@ + self@.encode(),
    {
        let ghost m = self@;
        put_bytes_field(buf, 1, self.node_key.as_slice());
        proof {
            m.lemma_encode_split();
        }
    }

    /// The protobuf encoding of the message.
    pub fn encode_to_vec(&self) -> (r: Vec<u8>)
        ensures
            r@ == self@.encode(),
    {
        let mut buf = Vec::new();
        self.encode_raw(&mut buf);
        proof {
            assert(buf@ =~= self@.encode());
        }
        buf
    }

    /// Reads the message from its raw fields.
    pub fn from_fields(fields: &Vec<RawField>) -> (res: Result<BucketSubAggregate, WireError>)
        ensures
            match BucketSubAggregateV::from_raw(fields_view(fields@)) {
                Some(m) => res matches Ok(x) && x@ == m,
                None => res is Err,
            },
    {
        let ghost fs = fields_view(fields@);
        let mut node_key: Vec<u8> = Vec::new();
        let mut i: usize = 0;
        proof {
            assert(fs.take(0) =~= Seq::<(u32, RawV)>::empty());
            assert(fields_view(Seq::<RawField>::empty()) =~= Seq::<(u32, RawV)>::empty());
        }
        while i < fields.len()
            invariant
                fs == fields_view(fields@),
                i <= fields@.len(),
                last_of(sel(fs.take(i as int), 1), conv_bytes(), Seq::<u8>::empty()) == Some(node_key@),
            decreases fields@.len() - i,
        {
            let f = &fields[i];
            proof {
                lemma_sel_take_step(fs, i as int);
            }
            if f.tag == 1 {
                step_bytes(&mut node_key, &f.value, Ghost(fs), Ghost(i as int))?;
            }
            i = i + 1;
        }
        proof {
            assert(fs.take(i as int) =~= fs);
        }
        Ok(BucketSubAggregate { node_key })
    }

    /// Reads the message from its protobuf encoding.
    pub fn decode(bytes: &[u8]) -> (res: Result<BucketSubAggregate, WireError>)
        ensures
            match BucketSubAggregateV::decode(bytes@) {
                Some(m) => res matches Ok(x) && x@ == m,
                None => res is Err,
            },
    {
        let fields = parse_fields_exec(bytes)?;
        BucketSubAggregate::from_fields(&fields)
    }

}

impl Default for BucketSubAggregate {
    fn default() -> (r: BucketSubAggregate)
        ensures
            r@ == BucketSubAggregateV::default_value(),
    {
        let r = BucketSubAggregate {
            node_key: Vec::new(),
        };
        proof {
            assert(r@.node_key =~= BucketSubAggregateV::default_value().node_key);
            assert(r@ =~= BucketSubAggregateV::default_value());
        }
        r
    }
}

impl ProtoMessage for BucketSubAggregate {
    open spec fn encoded(m: BucketSubAggregateV) -> Seq<u8> {
        m.encode()
    }

    open spec fn decoded(bytes: Seq<u8>) -> Option<BucketSubAggregateV> {
        BucketSubAggregateV::decode(bytes)
    }

    fn encode_bytes(&self) -> (r: Vec<u8>) {
        self.encode_to_vec()
    }

    fn decode_bytes(bytes: &[u8]) -> (r: Result<BucketSubAggregate, WireError>) {
        BucketSubAggregate::decode(bytes)
    }
}

/// A node of an activity merkle tree.
#[derive(Debug)]
pub struct ActivityTreeTraversedNode {
    pub activity: Option<ActivityNode>,
}

/// The value of a [`ActivityTreeTraversedNode`].
pub struct ActivityTreeTraversedNodeV {
    pub activity: Option<ActivityNodeV>,
}

impl View for ActivityTreeTraversedNode {
    type V = ActivityTreeTraversedNodeV;

    open spec fn view(&self) -> ActivityTreeTraversedNodeV {
        ActivityTreeTraversedNodeV {
            activity: match &self.activity { Some(m) => Some(m@), None => None },
        }
    }
}

impl ActivityTreeTraversedNodeV {
    /// The message with every field at its default.
    pub open spec fn default_value() -> ActivityTreeTraversedNodeV {
        ActivityTreeTraversedNodeV {
            activity: None,
        }
    }

    /// Map fields hold their keys in order, each once, here and in nested messages.
    pub open spec fn wf(self) -> bool {
        &&& (self.activity matches Some(m) ==> m.wf())
    }

    pub open spec fn piece_activity(self) -> Seq<(u32, RawV)> {
        piece(1, vals_opt_msg(match self.activity { Some(m) => Some(m.encode()), None => None }))
    }

    /// The raw fields the message is written as, in field order.
    pub open spec fn to_raw(self) -> Seq<(u32, RawV)> {
        self.piece_activity()
    }

    /// The message read from raw fields, as prost reads it.
    pub open spec fn from_raw(fs: Seq<(u32, RawV)>) -> Option<ActivityTreeTraversedNodeV> {
        let activity = opt_msg(sel(fs, 1), ActivityNodeV::from_raw_fn());
        if activity is Some {
            Some(ActivityTreeTraversedNodeV {
                activity: activity.unwrap(),
            })
        } else {
            None
        }
    }

    pub open spec fn from_raw_fn() -> spec_fn(Seq<(u32, RawV)>) -> Option<ActivityTreeTraversedNodeV> {
        |fs: Seq<(u32, RawV)>| ActivityTreeTraversedNodeV::from_raw(fs)
    }

    /// The protobuf encoding of the message.
    pub open spec fn encode(self) -> Seq<u8> {
        encode_fields(self.to_raw())
    }

    pub open spec fn encode_fn() -> spec_fn(ActivityTreeTraversedNodeV) -> Seq<u8> {
        |m: ActivityTreeTraversedNodeV| m.encode()
    }

    /// The message read from bytes, if they hold one.
    pub open spec fn decode(s: Seq<u8>) -> Option<ActivityTreeTraversedNodeV> {
        decode_with(s, ActivityTreeTraversedNodeV::from_raw_fn())
    }

    /// The encoding is the encodings of the fields one after the other.
    pub proof fn lemma_encode_split(self)
        ensures
            self.encode() == encode_fields(self.piece_activity()),
    {
    }

    /// Reading the raw fields of a message gives the message back.
    pub proof fn lemma_from_to_raw(self)
        requires
            self.wf(),
            self.encode().len() <= u64::MAX,
        ensures
            ActivityTreeTraversedNodeV::from_raw(self.to_raw()) == Some(self),
            fields_ok(self.to_raw()),
        decreases self.encode().len(),
    {
        let fs = self.to_raw();
        self.lemma_encode_split();
        assert(sel(fs, 1) =~= vals_opt_msg(match self.activity { Some(m) => Some(m.encode()), None => None }));
        match self.activity {
            Some(m) => {
                lemma_piece_payload_bound(1, vals_opt_msg(match self.activity { Some(m) => Some(m.encode()), None => None }), 0);
                m.lemma_from_to_raw();
                lemma_opt_msg_round_trip(Some(m), m.encode(), m.to_raw(), ActivityNodeV::from_raw_fn());
            },
            None => {
                lemma_opt_msg_round_trip(None::<ActivityNodeV>, Seq::empty(), Seq::empty(), ActivityNodeV::from_raw_fn());
            },
        }
        lemma_piece_ok(1, vals_opt_msg(match self.activity { Some(m) => Some(m.encode()), None => None }));
    }

    pub open spec fn to_raw_fn() -> spec_fn(ActivityTreeTraversedNodeV) -> Seq<(u32, RawV)> {
        |m: ActivityTreeTraversedNodeV| m.to_raw()
    }
}

/// Decoding the encoding of a activity tree traversed node gives it back.
pub proof fn lemma_activity_tree_traversed_node_round_trip(m: ActivityTreeTraversedNodeV)
    requires
        m.wf(),
        m.encode().len() <= u64::MAX,
    ensures
        ActivityTreeTraversedNodeV::decode(m.encode()) == Some(m),
{
    m.lemma_from_to_raw();
    lemma_parse_encode_fields(m.to_raw());
}

/// Empty bytes decode to the default activity tree traversed node.
pub proof fn lemma_activity_tree_traversed_node_decode_empty()
    ensures
        ActivityTreeTraversedNodeV::decode(Seq::empty()) == Some(ActivityTreeTraversedNodeV::default_value()),
{
    let e = Seq::<(u32, RawV)>::empty();
    assert(sel(e, 1) == Seq::<RawV>::empty());
}

impl ActivityTreeTraversedNode {
    /// Appends the protobuf encoding of the message.
    pub fn encode_raw(&self, buf: &mut Vec<u8>)
        ensures
            final(buf)@ == old(buf)@ + self@.encode(),
    {
        let ghost m = self@;
        let enc = match &self.activity {
            Some(sub) => Some(sub.encode_to_vec()),
            None => None,
        };
        put_opt_msg_field(buf, 1, enc);
        proof {
            m.lemma_encode_split();
        }
    }

    /// The protobuf encoding of the message.
    pub fn encode_to_vec(&self) -> (r: Vec<u8>)
        ensures
            r@ == self@.encode(),
    {
        let mut buf = Vec::new();
        self.encode_raw(&mut buf);
        proof {
            assert(buf@ =~= self@.encode());
        }
        buf
    }

    /// Reads the message from its raw fields.
    pub fn from_fields(fields: &Vec<RawField>) -> (res: Result<ActivityTreeTraversedNode, WireError>)
        ensures
            match ActivityTreeTraversedNodeV::from_raw(fields_view(fields@)) {
                Some(m) => res matches Ok(x) && x@ == m,
                None => res is Err,
            },
    {
        let ghost fs = fields_view(fields@);
        let mut activity_fields: Vec<RawField> = Vec::new();
        let mut activity_present = false;
        let mut i: usize = 0;
        proof {
            assert(fs.take(0) =~= Seq::<(u32, RawV)>::empty());
            assert(fields_view(Seq::<RawField>::empty()) =~= Seq::<(u32, RawV)>::empty());
        }
        while i < fields.len()
            invariant
                fs == fields_view(fields@),
                i <= fields@.len(),
                concat_of(sel(fs.take(i as int), 1), conv_fields()) == Some(fields_view(activity_fields@)),
                activity_present == (sel(fs.take(i as int), 1).len() > 0),
            decreases fields@.len() - i,
        {
            let f = &fields[i];
            proof {
                lemma_sel_take_step(fs, i as int);
            }
            if f.tag == 1 {
                step_msg_fields(&mut activity_fields, &mut activity_present, &f.value, Ghost(fs), Ghost(i as int))?;
            }
            i = i + 1;
        }
        proof {
            assert(fs.take(i as int) =~= fs);
        }
        let activity = if activity_present {
            Some(ActivityNode::from_fields(&activity_fields)?)
        } else {
            None
        };
        Ok(ActivityTreeTraversedNode { activity })
    }

    /// Reads the message from its protobuf encoding.
    pub fn decode(bytes: &[u8]) -> (res: Result<ActivityTreeTraversedNode, WireError>)
        ensures
            match ActivityTreeTraversedNodeV::decode(bytes@) {
                Some(m) => res matches Ok(x) && x@ == m,
                None => res is Err,
            },
    {
        let fields = parse_fields_exec(bytes)?;
        ActivityTreeTraversedNode::from_fields(&fields)
    }

    /// The values of a sequence of messages.
    pub open spec fn views(v: Seq<ActivityTreeTraversedNode>) -> Seq<ActivityTreeTraversedNodeV> {
        Seq::new(v.len(), |i: int| v[i]@)
    }

    /// Appends a repeated field of these messages.
    pub fn put_repeated(buf: &mut Vec<u8>, t: u32, v: &Vec<ActivityTreeTraversedNode>)
        requires
            1 <= t <= MAX_TAG,
        ensures
            final(buf)@ == old(buf)@ + encode_fields(piece(t, vals_rep_msg(ActivityTreeTraversedNode::views(v@), ActivityTreeTraversedNodeV::encode_fn()))),
    {
        let mut i: usize = 0;
        proof {
            assert(vals_rep_msg(ActivityTreeTraversedNode::views(v@.take(0)), ActivityTreeTraversedNodeV::encode_fn()) =~= Seq::<RawV>::empty());
            lemma_encode_empty_piece(t);
            assert(buf@ =~= old(buf)@ + Seq::<u8>::empty());
        }
        while i < v.len()
            invariant
                1 <= t <= MAX_TAG,
                i <= v@.len(),
                buf@ == old(buf)@ + encode_fields(piece(t, vals_rep_msg(ActivityTreeTraversedNode::views(v@.take(i as int)), ActivityTreeTraversedNodeV::encode_fn()))),
            decreases v@.len() - i,
        {
            let b = v[i].encode_to_vec();
            put_delimited(buf, t, b.as_slice());
            proof {
                let p0 = piece(t, vals_rep_msg(ActivityTreeTraversedNode::views(v@.take(i as int)), ActivityTreeTraversedNodeV::encode_fn()));
                let q = piece(t, seq![RawV::Bytes(b@)]);
                assert(piece(t, vals_rep_msg(ActivityTreeTraversedNode::views(v@.take(i + 1)), ActivityTreeTraversedNodeV::encode_fn())) =~= p0 + q);
                lemma_encode_fields_concat(p0, q);
            }
            i = i + 1;
        }
        proof {
            assert(v@.take(i as int) =~= v@);
        }
    }

    /// One more occurrence of a repeated field of these messages.
    pub fn step_repeated(cur: &mut Vec<ActivityTreeTraversedNode>, r: &RawValue, Ghost(fs): Ghost<Seq<(u32, RawV)>>, Ghost(i): Ghost<int>) -> (res: Result<(), WireError>)
        requires
            0 <= i < fs.len(),
            fs[i].1 == r@,
            concat_of(sel(fs.take(i), fs[i].0), conv_msgs(ActivityTreeTraversedNodeV::from_raw_fn())) == Some(ActivityTreeTraversedNode::views(old(cur)@)),
        ensures
            res is Ok ==> concat_of(sel(fs.take(i + 1), fs[i].0), conv_msgs(ActivityTreeTraversedNodeV::from_raw_fn())) == Some(ActivityTreeTraversedNode::views(final(cur)@)),
            res is Err ==> concat_of(sel(fs, fs[i].0), conv_msgs(ActivityTreeTraversedNodeV::from_raw_fn())) is None,
    {
        proof {
            lemma_concat_of_at(fs, i, conv_msgs(ActivityTreeTraversedNodeV::from_raw_fn()));
        }
        let ef = raw_fields(r)?;
        let m = ActivityTreeTraversedNode::from_fields(&ef)?;
        let ghost mv = m@;
        cur.push(m);
        proof {
            assert(ActivityTreeTraversedNode::views(final(cur)@) =~= ActivityTreeTraversedNode::views(old(cur)@) + seq![mv]);
        }
        Ok(())
    }

}

impl Default for ActivityTreeTraversedNode {
    fn default() -> (r: ActivityTreeTraversedNode)
        ensures
            r@ == ActivityTreeTraversedNodeV::default_value(),
    {
        let r = ActivityTreeTraversedNode {
            activity: None,
        };
        proof {
            assert(r@ =~= ActivityTreeTraversedNodeV::default_value());
        }
        r
    }
}

impl ProtoMessage for ActivityTreeTraversedNode {
    open spec fn encoded(m: ActivityTreeTraversedNodeV) -> Seq<u8> {
        m.encode()
    }

    open spec fn decoded(bytes: Seq<u8>) -> Option<ActivityTreeTraversedNodeV> {
        ActivityTreeTraversedNodeV::decode(bytes)
    }

    fn encode_bytes(&self) -> (r: Vec<u8>) {
        self.encode_to_vec()
    }

    fn decode_bytes(bytes: &[u8]) -> (r: Result<ActivityTreeTraversedNode, WireError>) {
        ActivityTreeTraversedNode::decode(bytes)
    }
}

/// A bucket's entry in an era's aggregates, named by its id; the fields this library does not read are skipped.
#[derive(Debug, Clone, Copy, PartialEq, Eq, Structural)]
pub struct BucketAggregate {
    pub bucket_id: u64,
}

/// The value of a [`BucketAggregate`].
pub struct BucketAggregateV {
    pub bucket_id: u64,
}

impl View for BucketAggregate {
    type V = BucketAggregateV;

    open spec fn view(&self) -> BucketAggregateV {
        BucketAggregateV {
            bucket_id: self.bucket_id,
        }
    }
}

impl BucketAggregateV {
    /// The message with every field at its default.
    pub open spec fn default_value() -> BucketAggregateV {
        BucketAggregateV {
            bucket_id: 0,
        }
    }

    /// Map fields hold their keys in order, each once, here and in nested messages.
    pub open spec fn wf(self) -> bool {
        true
    }

    pub open spec fn piece_bucket_id(self) -> Seq<(u32, RawV)> {
        piece(1, vals_u64(self.bucket_id))
    }

    /// The raw fields the message is written as, in field order.
    pub open spec fn to_raw(self) -> Seq<(u32, RawV)> {
        self.piece_bucket_id()
    }

    /// The message read from raw fields, as prost reads it.
    pub open spec fn from_raw(fs: Seq<(u32, RawV)>) -> Option<BucketAggregateV> {
        let bucket_id = last_of(sel(fs, 1), conv_u64(), 0);
        if bucket_id is Some {
            Some(BucketAggregateV {
                bucket_id: bucket_id.unwrap(),
            })
        } else {
            None
        }
    }

    pub open spec fn from_raw_fn() -> spec_fn(Seq<(u32, RawV)>) -> Option<BucketAggregateV> {
        |fs: Seq<(u32, RawV)>| BucketAggregateV::from_raw(fs)
    }

    /// The protobuf encoding of the message.
    pub open spec fn encode(self) -> Seq<u8> {
        encode_fields(self.to_raw())
    }

    pub open spec fn encode_fn() -> spec_fn(BucketAggregateV) -> Seq<u8> {
        |m: BucketAggregateV| m.encode()
    }

    /// The message read from bytes, if they hold one.
    pub open spec fn decode(s: Seq<u8>) -> Option<BucketAggregateV> {
        decode_with(s, BucketAggregateV::from_raw_fn())
    }

    /// The encoding is the encodings of the fields one after the other.
    pub proof fn lemma_encode_split(self)
        ensures
            self.encode() == encode_fields(self.piece_bucket_id()),
    {
    }

    /// Reading the raw fields of a message gives the message back.
    pub proof fn lemma_from_to_raw(self)
        requires
            self.wf(),
            self.encode().len() <= u64::MAX,
        ensures
            BucketAggregateV::from_raw(self.to_raw()) == Some(self),
            fields_ok(self.to_raw()),
        decreases self.encode().len(),
    {
        let fs = self.to_raw();
        self.lemma_encode_split();
        assert(sel(fs, 1) =~= vals_u64(self.bucket_id));
        lemma_u64_round_trip(self.bucket_id);
        lemma_piece_ok(1, vals_u64(self.bucket_id));
    }

    pub open spec fn to_raw_fn() -> spec_fn(BucketAggregateV) -> Seq<(u32, RawV)> {
        |m: BucketAggregateV| m.to_raw()
    }
}

/// Decoding the encoding of a bucket aggregate gives it back.
pub proof fn lemma_bucket_aggregate_round_trip(m: BucketAggregateV)
    requires
        m.wf(),
        m.encode().len() <= u64::MAX,
    ensures
        BucketAggregateV::decode(m.encode()) == Some(m),
{
    m.lemma_from_to_raw();
    lemma_parse_encode_fields(m.to_raw());
}

/// Empty bytes decode to the default bucket aggregate.
pub proof fn lemma_bucket_aggregate_decode_empty()
    ensures
        BucketAggregateV::decode(Seq::empty()) == Some(BucketAggregateV::default_value()),
{
    let e = Seq::<(u32, RawV)>::empty();
    assert(sel(e, 1) == Seq::<RawV>::empty());
}

impl BucketAggregate {
    /// Appends the protobuf encoding of the message.
    pub fn encode_raw(&self, buf: &mut Vec<u8>)
        ensures
            final(buf)@ == old(buf)@ + self@.encode(),
    {
        let ghost m = self@;
        put_u64_field(buf, 1, self.bucket_id);
        proof {
            m.lemma_encode_split();
        }
    }

    /// The protobuf encoding of the message.
    pub fn encode_to_vec(&self) -> (r: Vec<u8>)
        ensures
            r@ == self@.encode(),
    {
        let mut buf = Vec::new();
        self.encode_raw(&mut buf);
        proof {
            assert(buf@ =~= self@.encode());
        }
        buf
    }

    /// Reads the message from its raw fields.
    pub fn from_fields(fields: &Vec<RawField>) -> (res: Result<BucketAggregate, WireError>)
        ensures
            match BucketAggregateV::from_raw(fields_view(fields@)) {
                Some(m) => res matches Ok(x) && x@ == m,
                None => res is Err,
            },
    {
        let ghost fs = fields_view(fields@);
        let mut bucket_id: u64 = 0;
        let mut i: usize = 0;
        proof {
            assert(fs.take(0) =~= Seq::<(u32, RawV)>::empty());
            assert(fields_view(Seq::<RawField>::empty()) =~= Seq::<(u32, RawV)>::empty());
        }
        while i < fields.len()
            invariant
                fs == fields_view(fields@),
                i <= fields@.len(),
                last_of(sel(fs.take(i as int), 1), conv_u64(), 0) == Some(bucket_id),
            decreases fields@.len() - i,
        {
            let f = &fields[i];
            proof {
                lemma_sel_take_step(fs, i as int);
            }
            if f.tag == 1 {
                step_u64(&mut bucket_id, &f.value, Ghost(fs), Ghost(i as int))?;
            }
            i = i + 1;
        }
        proof {
            assert(fs.take(i as int) =~= fs);
        }
        Ok(BucketAggregate { bucket_id })
    }

    /// Reads the message from its protobuf encoding.
    pub fn decode(bytes: &[u8]) -> (res: Result<BucketAggregate, WireError>)
        ensures
            match BucketAggregateV::decode(bytes@) {
                Some(m) => res matches Ok(x) && x@ == m,
                None => res is Err,
            },
    {
        let fields = parse_fields_exec(bytes)?;
        BucketAggregate::from_fields(&fields)
    }

    /// The values of a sequence of messages.
    pub open spec fn views(v: Seq<BucketAggregate>) -> Seq<BucketAggregateV> {
        Seq::new(v.len(), |i: int| v[i]@)
    }

    /// Appends a repeated field of these messages.
    pub fn put_repeated(buf: &mut Vec<u8>, t: u32, v: &Vec<BucketAggregate>)
        requires
            1 <= t <= MAX_TAG,
        ensures
            final(buf)@ == old(buf)@ + encode_fields(piece(t, vals_rep_msg(BucketAggregate::views(v@), BucketAggregateV::encode_fn()))),
    {
        let mut i: usize = 0;
        proof {
            assert(vals_rep_msg(BucketAggregate::views(v@.take(0)), BucketAggregateV::encode_fn()) =~= Seq::<RawV>::empty());
            lemma_encode_empty_piece(t);
            assert(buf@ =~= old(buf)@ + Seq::<u8>::empty());
        }
        while i < v.len()
            invariant
                1 <= t <= MAX_TAG,
                i <= v@.len(),
                buf@ == old(buf)@ + encode_fields(piece(t, vals_rep_msg(BucketAggregate::views(v@.take(i as int)), BucketAggregateV::encode_fn()))),
            decreases v@.len() - i,
        {
            let b = v[i].encode_to_vec();
            put_delimited(buf, t, b.as_slice());
            proof {
                let p0 = piece(t, vals_rep_msg(BucketAggregate::views(v@.take(i as int)), BucketAggregateV::encode_fn()));
                let q = piece(t, seq![RawV::Bytes(b@)]);
                assert(piece(t, vals_rep_msg(BucketAggregate::views(v@.take(i + 1)), BucketAggregateV::encode_fn())) =~= p0 + q);
                lemma_encode_fields_concat(p0, q);
            }
            i = i + 1;
        }
        proof {
            assert(v@.take(i as int) =~= v@);
        }
    }

    /// One more occurrence of a repeated field of these messages.
    pub fn step_repeated(cur: &mut Vec<BucketAggregate>, r: &RawValue, Ghost(fs): Ghost<Seq<(u32, RawV)>>, Ghost(i): Ghost<int>) -> (res: Result<(), WireError>)
        requires
            0 <= i < fs.len(),
            fs[i].1 == r@,
            concat_of(sel(fs.take(i), fs[i].0), conv_msgs(BucketAggregateV::from_raw_fn())) == Some(BucketAggregate::views(old(cur)@)),
        ensures
            res is Ok ==> concat_of(sel(fs.take(i + 1), fs[i].0), conv_msgs(BucketAggregateV::from_raw_fn())) == Some(BucketAggregate::views(final(cur)@)),
            res is Err ==> concat_of(sel(fs, fs[i].0), conv_msgs(BucketAggregateV::from_raw_fn())) is None,
    {
        proof {
            lemma_concat_of_at(fs, i, conv_msgs(BucketAggregateV::from_raw_fn()));
        }
        let ef = raw_fields(r)?;
        let m = BucketAggregate::from_fields(&ef)?;
        let ghost mv = m@;
        cur.push(m);
        proof {
            assert(BucketAggregate::views(final(cur)@) =~= BucketAggregate::views(old(cur)@) + seq![mv]);
        }
        Ok(())
    }

}

impl Default for BucketAggregate {
    fn default() -> (r: BucketAggregate)
        ensures
            r@ == BucketAggregateV::default_value(),
    {
        let r = BucketAggregate {
            bucket_id: 0,
        };
        proof {
            assert(r@ =~= BucketAggregateV::default_value());
        }
        r
    }
}

impl ProtoMessage for BucketAggregate {
    open spec fn encoded(m: BucketAggregateV) -> Seq<u8> {
        m.encode()
    }

    open spec fn decoded(bytes: Seq<u8>) -> Option<BucketAggregateV> {
        BucketAggregateV::decode(bytes)
    }

    fn encode_bytes(&self) -> (r: Vec<u8>) {
        self.encode_to_vec()
    }

    fn decode_bytes(bytes: &[u8]) -> (r: Result<BucketAggregate, WireError>) {
        BucketAggregate::decode(bytes)
    }
}

/// A page of bucket aggregates.
#[derive(Debug)]
pub struct BucketAggregatesResponse {
    pub buckets: Vec<BucketAggregate>,
}

/// The value of a [`BucketAggregatesResponse`].
pub struct BucketAggregatesResponseV {
    pub buckets: Seq<BucketAggregateV>,
}

impl View for BucketAggregatesResponse {
    type V = BucketAggregatesResponseV;

    open spec fn view(&self) -> BucketAggregatesResponseV {
        BucketAggregatesResponseV {
            buckets: BucketAggregate::views(self.buckets@),
        }
    }
}

impl BucketAggregatesResponseV {
    /// The message with every field at its default.
    pub open spec fn default_value() -> BucketAggregatesResponseV {
        BucketAggregatesResponseV {
            buckets: Seq::<BucketAggregateV>::empty(),
        }
    }

    /// Map fields hold their keys in order, each once, here and in nested messages.
    pub open spec fn wf(self) -> bool {
        &&& (forall|i: int| 0 <= i < self.buckets.len() ==> (#[trigger] self.buckets[i]).wf())
    }

    pub open spec fn piece_buckets(self) -> Seq<(u32, RawV)> {
        piece(1, vals_rep_msg(self.buckets, BucketAggregateV::encode_fn()))
    }

    /// The raw fields the message is written as, in field order.
    pub open spec fn to_raw(self) -> Seq<(u32, RawV)> {
        self.piece_buckets()
    }

    /// The message read from raw fields, as prost reads it.
    pub open spec fn from_raw(fs: Seq<(u32, RawV)>) -> Option<BucketAggregatesResponseV> {
        let buckets = concat_of(sel(fs, 1), conv_msgs(BucketAggregateV::from_raw_fn()));
        if buckets is Some {
            Some(BucketAggregatesResponseV {
                buckets: buckets.unwrap(),
            })
        } else {
            None
        }
    }

    pub open spec fn from_raw_fn() -> spec_fn(Seq<(u32, RawV)>) -> Option<BucketAggregatesResponseV> {
        |fs: Seq<(u32, RawV)>| BucketAggregatesResponseV::from_raw(fs)
    }

    /// The protobuf encoding of the message.
    pub open spec fn encode(self) -> Seq<u8> {
        encode_fields(self.to_raw())
    }

    pub open spec fn encode_fn() -> spec_fn(BucketAggregatesResponseV) -> Seq<u8> {
        |m: BucketAggregatesResponseV| m.encode()
    }

    /// The message read from bytes, if they hold one.
    pub open spec fn decode(s: Seq<u8>) -> Option<BucketAggregatesResponseV> {
        decode_with(s, BucketAggregatesResponseV::from_raw_fn())
    }

    /// The encoding is the encodings of the fields one after the other.
    pub proof fn lemma_encode_split(self)
        ensures
            self.encode() == encode_fields(self.piece_buckets()),
    {
    }

    /// Reading the raw fields of a message gives the message back.
    pub proof fn lemma_from_to_raw(self)
        requires
            self.wf(),
            self.encode().len() <= u64::MAX,
        ensures
            BucketAggregatesResponseV::from_raw(self.to_raw()) == Some(self),
            fields_ok(self.to_raw()),
        decreases self.encode().len(),
    {
        let fs = self.to_raw();
        self.lemma_encode_split();
        assert(sel(fs, 1) =~= vals_rep_msg(self.buckets, BucketAggregateV::encode_fn()));
        assert forall|i: int| 0 <= i < self.buckets.len() implies {
            &&& (BucketAggregateV::encode_fn())(#[trigger] self.buckets[i]) == encode_fields((BucketAggregateV::to_raw_fn())(self.buckets[i]))
            &&& fields_ok((BucketAggregateV::to_raw_fn())(self.buckets[i]))
            &&& (BucketAggregateV::encode_fn())(self.buckets[i]).len() <= u64::MAX
            &&& (BucketAggregateV::from_raw_fn())((BucketAggregateV::to_raw_fn())(self.buckets[i])) == Some(self.buckets[i])
        } by {
            lemma_piece_payload_bound(1, vals_rep_msg(self.buckets, BucketAggregateV::encode_fn()), i);
            self.buckets[i].lemma_from_to_raw();
        }
        lemma_rep_msg_round_trip(self.buckets, BucketAggregateV::encode_fn(), BucketAggregateV::to_raw_fn(), BucketAggregateV::from_raw_fn());
        lemma_piece_ok(1, vals_rep_msg(self.buckets, BucketAggregateV::encode_fn()));
    }

    pub open spec fn to_raw_fn() -> spec_fn(BucketAggregatesResponseV) -> Seq<(u32, RawV)> {
        |m: BucketAggregatesResponseV| m.to_raw()
    }
}

/// Decoding the encoding of a bucket aggregates response gives it back.
pub proof fn lemma_bucket_aggregates_response_round_trip(m: BucketAggregatesResponseV)
    requires
        m.wf(),
        m.encode().len() <= u64::MAX,
    ensures
        BucketAggregatesResponseV::decode(m.encode()) == Some(m),
{
    m.lemma_from_to_raw();
    lemma_parse_encode_fields(m.to_raw());
}

/// Empty bytes decode to the default bucket aggregates response.
pub proof fn lemma_bucket_aggregates_response_decode_empty()
    ensures
        BucketAggregatesResponseV::decode(Seq::empty()) == Some(BucketAggregatesResponseV::default_value()),
{
    let e = Seq::<(u32, RawV)>::empty();
    assert(sel(e, 1) == Seq::<RawV>::empty());
}

impl BucketAggregatesResponse {
    /// Appends the protobuf encoding of the message.
    pub fn encode_raw(&self, buf: &mut Vec<u8>)
        ensures
            final(buf)@ == old(buf)@ + self@.encode(),
    {
        let ghost m = self@;
        BucketAggregate::put_repeated(buf, 1, &self.buckets);
        proof {
            m.lemma_encode_split();
        }
    }

    /// The protobuf encoding of the message.
    pub fn encode_to_vec(&self) -> (r: Vec<u8>)
        ensures
            r@ == self@.encode(),
    {
        let mut buf = Vec::new();
        self.encode_raw(&mut buf);
        proof {
            assert(buf@ =~= self@.encode());
        }
        buf
    }

    /// Reads the message from its raw fields.
    pub fn from_fields(fields: &Vec<RawField>) -> (res: Result<BucketAggregatesResponse, WireError>)
        ensures
            match BucketAggregatesResponseV::from_raw(fields_view(fields@)) {
                Some(m) => res matches Ok(x) && x@ == m,
                None => res is Err,
            },
    {
        let ghost fs = fields_view(fields@);
        let mut buckets: Vec<BucketAggregate> = Vec::new();
        let mut i: usize = 0;
        proof {
            assert(fs.take(0) =~= Seq::<(u32, RawV)>::empty());
            assert(fields_view(Seq::<RawField>::empty()) =~= Seq::<(u32, RawV)>::empty());
        }
        while i < fields.len()
            invariant
                fs == fields_view(fields@),
                i <= fields@.len(),
                concat_of(sel(fs.take(i as int), 1), conv_msgs(BucketAggregateV::from_raw_fn())) == Some(BucketAggregate::views(buckets@)),
            decreases fields@.len() - i,
        {
            let f = &fields[i];
            proof {
                lemma_sel_take_step(fs, i as int);
            }
            if f.tag == 1 {
                BucketAggregate::step_repeated(&mut buckets, &f.value, Ghost(fs), Ghost(i as int))?;
            }
            i = i + 1;
        }
        proof {
            assert(fs.take(i as int) =~= fs);
        }
        Ok(BucketAggregatesResponse { buckets })
    }

    /// Reads the message from its protobuf encoding.
    pub fn decode(bytes: &[u8]) -> (res: Result<BucketAggregatesResponse, WireError>)
        ensures
            match BucketAggregatesResponseV::decode(bytes@) {
                Some(m) => res matches Ok(x) && x@ == m,
                None => res is Err,
            },
    {
        let fields = parse_fields_exec(bytes)?;
        BucketAggregatesResponse::from_fields(&fields)
    }

}

impl Default for BucketAggregatesResponse {
    fn default() -> (r: BucketAggregatesResponse)
        ensures
            r@ == BucketAggregatesResponseV::default_value(),
    {
        let r = BucketAggregatesResponse {
            buckets: Vec::new(),
        };
        proof {
            assert(r@.buckets =~= BucketAggregatesResponseV::default_value().buckets);
            assert(r@ =~= BucketAggregatesResponseV::default_value());
        }
        r
    }
}

impl ProtoMessage for BucketAggregatesResponse {
    open spec fn encoded(m: BucketAggregatesResponseV) -> Seq<u8> {
        m.encode()
    }

    open spec fn decoded(bytes: Seq<u8>) -> Option<BucketAggregatesResponseV> {
        BucketAggregatesResponseV::decode(bytes)
    }

    fn encode_bytes(&self) -> (r: Vec<u8>) {
        self.encode_to_vec()
    }

    fn decode_bytes(bytes: &[u8]) -> (r: Result<BucketAggregatesResponse, WireError>) {
        BucketAggregatesResponse::decode(bytes)
    }
}

/// A node's entry in an era's aggregates, named by its key; the fields this library does not read are skipped.
#[derive(Debug)]
pub struct NodeAggregate {
    pub node_key: Vec<u8>,
}

/// The value of a [`NodeAggregate`].
pub struct NodeAggregateV {
    pub node_key: Seq<u8>,
}

impl View for NodeAggregate {
    type V = NodeAggregateV;

    open spec fn view(&self) -> NodeAggregateV {
        NodeAggregateV {
            node_key: self.node_key@,
        }
    }
}

impl NodeAggregateV {
    /// The message with every field at its default.
    pub open spec fn default_value() -> NodeAggregateV {
        NodeAggregateV {
            node_key: Seq::<u8>::empty(),
        }
    }

    /// Map fields hold their keys in order, each once, here and in nested messages.
    pub open spec fn wf(self) -> bool {
        true
    }

    pub open spec fn piece_node_key(self) -> Seq<(u32, RawV)> {
        piece(1, vals_bytes(self.node_key))
    }

    /// The raw fields the message is written as, in field order.
    pub open spec fn to_raw(self) -> Seq<(u32, RawV)> {
        self.piece_node_key()
    }

    /// The message read from raw fields, as prost reads it.
    pub open spec fn from_raw(fs: Seq<(u32, RawV)>) -> Option<NodeAggregateV> {
        let node_key = last_of(sel(fs, 1), conv_bytes(), Seq::<u8>::empty());
        if node_key is Some {
            Some(NodeAggregateV {
                node_key: node_key.unwrap(),
            })
        } else {
            None
        }
    }

    pub open spec fn from_raw_fn() -> spec_fn(Seq<(u32, RawV)>) -> Option<NodeAggregateV> {
        |fs: Seq<(u32, RawV)>| NodeAggregateV::from_raw(fs)
    }

    /// The protobuf encoding of the message.
    pub open spec fn encode(self) -> Seq<u8> {
        encode_fields(self.to_raw())
    }

    pub open spec fn encode_fn() -> spec_fn(NodeAggregateV) -> Seq<u8> {
        |m: NodeAggregateV| m.encode()
    }

    /// The message read from bytes, if they hold one.
    pub open spec fn decode(s: Seq<u8>) -> Option<NodeAggregateV> {
        decode_with(s, NodeAggregateV::from_raw_fn())
    }

    /// The encoding is the encodings of the fields one after the other.
    pub proof fn lemma_encode_split(self)
        ensures
            self.encode() == encode_fields(self.piece_node_key()),
    {
    }

    /// Reading the raw fields of a message gives the message back.
    pub proof fn lemma_from_to_raw(self)
        requires
            self.wf(),
            self.encode().len() <= u64::MAX,
        ensures
            NodeAggregateV::from_raw(self.to_raw()) == Some(self),
            fields_ok(self.to_raw()),
        decreases self.encode().len(),
    {
        let fs = self.to_raw();
        self.lemma_encode_split();
        assert(sel(fs, 1) =~= vals_bytes(self.node_key));
        lemma_bytes_round_trip(self.node_key);
        lemma_piece_ok(1, vals_bytes(self.node_key));
    }

    pub open spec fn to_raw_fn() -> spec_fn(NodeAggregateV) -> Seq<(u32, RawV)> {
        |m: NodeAggregateV| m.to_raw()
    }
}

/// Decoding the encoding of a node aggregate gives it back.
pub proof fn lemma_node_aggregate_round_trip(m: NodeAggregateV)
    requires
        m.wf(),
        m.encode().len() <= u64::MAX,
    ensures
        NodeAggregateV::decode(m.encode()) == Some(m),
{
    m.lemma_from_to_raw();
    lemma_parse_encode_fields(m.to_raw());
}

/// Empty bytes decode to the default node aggregate.
pub proof fn lemma_node_aggregate_decode_empty()
    ensures
        NodeAggregateV::decode(Seq::empty()) == Some(NodeAggregateV::default_value()),
{
    let e = Seq::<(u32, RawV)>::empty();
    assert(sel(e, 1) == Seq::<RawV>::empty());
}

impl NodeAggregate {
    /// Appends the protobuf encoding of the message.
    pub fn encode_raw(&self, buf: &mut Vec<u8>)
        ensures
            final(buf)@ == old(buf)@ + self@.encode(),
    {
        let ghost m = self@;
        put_bytes_field(buf, 1, self.node_key.as_slice());
        proof {
            m.lemma_encode_split();
        }
    }

    /// The protobuf encoding of the message.
    pub fn encode_to_vec(&self) -> (r: Vec<u8>)
        ensures
            r@ == self@.encode(),
    {
        let mut buf = Vec::new();
        self.encode_raw(&mut buf);
        proof {
            assert(buf@ =~= self@.encode());
        }
        buf
    }

    /// Reads the message from its raw fields.
    pub fn from_fields(fields: &Vec<RawField>) -> (res: Result<NodeAggregate, WireError>)
        ensures
            match NodeAggregateV::from_raw(fields_view(fields@)) {
                Some(m) => res matches Ok(x) && x@ == m,
                None => res is Err,
            },
    {
        let ghost fs = fields_view(fields@);
        let mut node_key: Vec<u8> = Vec::new();
        let mut i: usize = 0;
        proof {
            assert(fs.take(0) =~= Seq::<(u32, RawV)>::empty());
            assert(fields_view(Seq::<RawField>::empty()) =~= Seq::<(u32, RawV)>::empty());
        }
        while i < fields.len()
            invariant
                fs == fields_view(fields@),
                i <= fields@.len(),
                last_of(sel(fs.take(i as int), 1), conv_bytes(), Seq::<u8>::empty()) == Some(node_key@),
            decreases fields@.len() - i,
        {
            let f = &fields[i];
            proof {
                lemma_sel_take_step(fs, i as int);
            }
            if f.tag == 1 {
                step_bytes(&mut node_key, &f.value, Ghost(fs), Ghost(i as int))?;
            }
            i = i + 1;
        }
        proof {
            assert(fs.take(i as int) =~= fs);
        }
        Ok(NodeAggregate { node_key })
    }

    /// Reads the message from its protobuf encoding.
    pub fn decode(bytes: &[u8]) -> (res: Result<NodeAggregate, WireError>)
        ensures
            match NodeAggregateV::decode(bytes@) {
                Some(m) => res matches Ok(x) && x@ == m,
                None => res is Err,
            },
    {
        let fields = parse_fields_exec(bytes)?;
        NodeAggregate::from_fields(&fields)
    }

    /// The values of a sequence of messages.
    pub open spec fn views(v: Seq<NodeAggregate>) -> Seq<NodeAggregateV> {
        Seq::new(v.len(), |i: int| v[i]@)
    }

    /// Appends a repeated field of these messages.
    pub fn put_repeated(buf: &mut Vec<u8>, t: u32, v: &Vec<NodeAggregate>)
        requires
            1 <= t <= MAX_TAG,
        ensures
            final(buf)@ == old(buf)@ + encode_fields(piece(t, vals_rep_msg(NodeAggregate::views(v@), NodeAggregateV::encode_fn()))),
    {
        let mut i: usize = 0;
        proof {
            assert(vals_rep_msg(NodeAggregate::views(v@.take(0)), NodeAggregateV::encode_fn()) =~= Seq::<RawV>::empty());
            lemma_encode_empty_piece(t);
            assert(buf@ =~= old(buf)@ + Seq::<u8>::empty());
        }
        while i < v.len()
            invariant
                1 <= t <= MAX_TAG,
                i <= v@.len(),
                buf@ == old(buf)@ + encode_fields(piece(t, vals_rep_msg(NodeAggregate::views(v@.take(i as int)), NodeAggregateV::encode_fn()))),
            decreases v@.len() - i,
        {
            let b = v[i].encode_to_vec();
            put_delimited(buf, t, b.as_slice());
            proof {
                let p0 = piece(t, vals_rep_msg(NodeAggregate::views(v@.take(i as int)), NodeAggregateV::encode_fn()));
                let q = piece(t, seq![RawV::Bytes(b@)]);
                assert(piece(t, vals_rep_msg(NodeAggregate::views(v@.take(i + 1)), NodeAggregateV::encode_fn())) =~= p0 + q);
                lemma_encode_fields_concat(p0, q);
            }
            i = i + 1;
        }
        proof {
            assert(v@.take(i as int) =~= v@);
        }
    }

    /// One more occurrence of a repeated field of these messages.
    pub fn step_repeated(cur: &mut Vec<NodeAggregate>, r: &RawValue, Ghost(fs): Ghost<Seq<(u32, RawV)>>, Ghost(i): Ghost<int>) -> (res: Result<(), WireError>)
        requires
            0 <= i < fs.len(),
            fs[i].1 == r@,
            concat_of(sel(fs.take(i), fs[i].0), conv_msgs(NodeAggregateV::from_raw_fn())) == Some(NodeAggregate::views(old(cur)@)),
        ensures
            res is Ok ==> concat_of(sel(fs.take(i + 1), fs[i].0), conv_msgs(NodeAggregateV::from_raw_fn())) == Some(NodeAggregate::views(final(cur)@)),
            res is Err ==> concat_of(sel(fs, fs[i].0), conv_msgs(NodeAggregateV::from_raw_fn())) is None,
    {
        proof {
            lemma_concat_of_at(fs, i, conv_msgs(NodeAggregateV::from_raw_fn()));
        }
        let ef = raw_fields(r)?;
        let m = NodeAggregate::from_fields(&ef)?;
        let ghost mv = m@;
        cur.push(m);
        proof {
            assert(NodeAggregate::views(final(cur)@) =~= NodeAggregate::views(old(cur)@) + seq![mv]);
        }
        Ok(())
    }

}

impl Default for NodeAggregate {
    fn default() -> (r: NodeAggregate)
        ensures
            r@ == NodeAggregateV::default_value(),
    {
        let r = NodeAggregate {
            node_key: Vec::new(),
        };
        proof {
            assert(r@.node_key =~= NodeAggregateV::default_value().node_key);
            assert(r@ =~= NodeAggregateV::default_value());
        }
        r
    }
}

impl ProtoMessage for NodeAggregate {
    open spec fn encoded(m: NodeAggregateV) -> Seq<u8> {
        m.encode()
    }

    open spec fn decoded(bytes: Seq<u8>) -> Option<NodeAggregateV> {
        NodeAggregateV::decode(bytes)
    }

    fn encode_bytes(&self) -> (r: Vec<u8>) {
        self.encode_to_vec()
    }

    fn decode_bytes(bytes: &[u8]) -> (r: Result<NodeAggregate, WireError>) {
        NodeAggregate::decode(bytes)
    }
}

/// Node aggregates of an era.
#[derive(Debug)]
pub struct NodeAggregatesResponse {
    pub nodes: Vec<NodeAggregate>,
}

/// The value of a [`NodeAggregatesResponse`].
pub struct NodeAggregatesResponseV {
    pub nodes: Seq<NodeAggregateV>,
}

impl View for NodeAggregatesResponse {
    type V = NodeAggregatesResponseV;

    open spec fn view(&self) -> NodeAggregatesResponseV {
        NodeAggregatesResponseV {
            nodes: NodeAggregate::views(self.nodes@),
        }
    }
}

impl NodeAggregatesResponseV {
    /// The message with every field at its default.
    pub open spec fn default_value() -> NodeAggregatesResponseV {
        NodeAggregatesResponseV {
            nodes: Seq::<NodeAggregateV>::empty(),
        }
    }

    /// Map fields hold their keys in order, each once, here and in nested messages.
    pub open spec fn wf(self) -> bool {
        &&& (forall|i: int| 0 <= i < self.nodes.len() ==> (#[trigger] self.nodes[i]).wf())
    }

    pub open spec fn piece_nodes(self) -> Seq<(u32, RawV)> {
        piece(1, vals_rep_msg(self.nodes, NodeAggregateV::encode_fn()))
    }

    /// The raw fields the message is written as, in field order.
    pub open spec fn to_raw(self) -> Seq<(u32, RawV)> {
        self.piece_nodes()
    }

    /// The message read from raw fields, as prost reads it.
    pub open spec fn from_raw(fs: Seq<(u32, RawV)>) -> Option<NodeAggregatesResponseV> {
        let nodes = concat_of(sel(fs, 1), conv_msgs(NodeAggregateV::from_raw_fn()));
        if nodes is Some {
            Some(NodeAggregatesResponseV {
                nodes: nodes.unwrap(),
            })
        } else {
            None
        }
    }

    pub open spec fn from_raw_fn() -> spec_fn(Seq<(u32, RawV)>) -> Option<NodeAggregatesResponseV> {
        |fs: Seq<(u32, RawV)>| NodeAggregatesResponseV::from_raw(fs)
    }

    /// The protobuf encoding of the message.
    pub open spec fn encode(self) -> Seq<u8> {
        encode_fields(self.to_raw())
    }

    pub open spec fn encode_fn() -> spec_fn(NodeAggregatesResponseV) -> Seq<u8> {
        |m: NodeAggregatesResponseV| m.encode()
    }

    /// The message read from bytes, if they hold one.
    pub open spec fn decode(s: Seq<u8>) -> Option<NodeAggregatesResponseV> {
        decode_with(s, NodeAggregatesResponseV::from_raw_fn())
    }

    /// The encoding is the encodings of the fields one after the other.
    pub proof fn lemma_encode_split(self)
        ensures
            self.encode() == encode_fields(self.piece_nodes()),
    {
    }

    /// Reading the raw fields of a message gives the message back.
    pub proof fn lemma_from_to_raw(self)
        requires
            self.wf(),
            self.encode().len() <= u64::MAX,
        ensures
            NodeAggregatesResponseV::from_raw(self.to_raw()) == Some(self),
            fields_ok(self.to_raw()),
        decreases self.encode().len(),
    {
        let fs = self.to_raw();
        self.lemma_encode_split();
        assert(sel(fs, 1) =~= vals_rep_msg(self.nodes, NodeAggregateV::encode_fn()));
        assert forall|i: int| 0 <= i < self.nodes.len() implies {
            &&& (NodeAggregateV::encode_fn())(#[trigger] self.nodes[i]) == encode_fields((NodeAggregateV::to_raw_fn())(self.nodes[i]))
            &&& fields_ok((NodeAggregateV::to_raw_fn())(self.nodes[i]))
            &&& (NodeAggregateV::encode_fn())(self.nodes[i]).len() <= u64::MAX
            &&& (NodeAggregateV::from_raw_fn())((NodeAggregateV::to_raw_fn())(self.nodes[i])) == Some(self.nodes[i])
        } by {
            lemma_piece_payload_bound(1, vals_rep_msg(self.nodes, NodeAggregateV::encode_fn()), i);
            self.nodes[i].lemma_from_to_raw();
        }
        lemma_rep_msg_round_trip(self.nodes, NodeAggregateV::encode_fn(), NodeAggregateV::to_raw_fn(), NodeAggregateV::from_raw_fn());
        lemma_piece_ok(1, vals_rep_msg(self.nodes, NodeAggregateV::encode_fn()));
    }

    pub open spec fn to_raw_fn() -> spec_fn(NodeAggregatesResponseV) -> Seq<(u32, RawV)> {
        |m: NodeAggregatesResponseV| m.to_raw()
    }
}

/// Decoding the encoding of a node aggregates response gives it back.
pub proof fn lemma_node_aggregates_response_round_trip(m: NodeAggregatesResponseV)
    requires
        m.wf(),
        m.encode().len() <= u64::MAX,
    ensures
        NodeAggregatesResponseV::decode(m.encode()) == Some(m),
{
    m.lemma_from_to_raw();
    lemma_parse_encode_fields(m.to_raw());
}

/// Empty bytes decode to the default node aggregates response.
pub proof fn lemma_node_aggregates_response_decode_empty()
    ensures
        NodeAggregatesResponseV::decode(Seq::empty()) == Some(NodeAggregatesResponseV::default_value()),
{
    let e = Seq::<(u32, RawV)>::empty();
    assert(sel(e, 1) == Seq::<RawV>::empty());
}

impl NodeAggregatesResponse {
    /// Appends the protobuf encoding of the message.
    pub fn encode_raw(&self, buf: &mut Vec<u8>)
        ensures
            final(buf)@ == old(buf)@ + self@.encode(),
    {
        let ghost m = self@;
        NodeAggregate::put_repeated(buf, 1, &self.nodes);
        proof {
            m.lemma_encode_split();
        }
    }

    /// The protobuf encoding of the message.
    pub fn encode_to_vec(&self) -> (r: Vec<u8>)
        ensures
            r@ == self@.encode(),
    {
        let mut buf = Vec::new();
        self.encode_raw(&mut buf);
        proof {
            assert(buf@ =~= self@.encode());
        }
        buf
    }

    /// Reads the message from its raw fields.
    pub fn from_fields(fields: &Vec<RawField>) -> (res: Result<NodeAggregatesResponse, WireError>)
        ensures
            match NodeAggregatesResponseV::from_raw(fields_view(fields@)) {
                Some(m) => res matches Ok(x) && x@ == m,
                None => res is Err,
            },
    {
        let ghost fs = fields_view(fields@);
        let mut nodes: Vec<NodeAggregate> = Vec::new();
        let mut i: usize = 0;
        proof {
            assert(fs.take(0) =~= Seq::<(u32, RawV)>::empty());
            assert(fields_view(Seq::<RawField>::empty()) =~= Seq::<(u32, RawV)>::empty());
        }
        while i < fields.len()
            invariant
                fs == fields_view(fields@),
                i <= fields@.len(),
                concat_of(sel(fs.take(i as int), 1), conv_msgs(NodeAggregateV::from_raw_fn())) == Some(NodeAggregate::views(nodes@)),
            decreases fields@.len() - i,
        {
            let f = &fields[i];
            proof {
                lemma_sel_take_step(fs, i as int);
            }
            if f.tag == 1 {
                NodeAggregate::step_repeated(&mut nodes, &f.value, Ghost(fs), Ghost(i as int))?;
            }
            i = i + 1;
        }
        proof {
            assert(fs.take(i as int) =~= fs);
        }
        Ok(NodeAggregatesResponse { nodes })
    }

    /// Reads the message from its protobuf encoding.
    pub fn decode(bytes: &[u8]) -> (res: Result<NodeAggregatesResponse, WireError>)
        ensures
            match NodeAggregatesResponseV::decode(bytes@) {
                Some(m) => res matches Ok(x) && x@ == m,
                None => res is Err,
            },
    {
        let fields = parse_fields_exec(bytes)?;
        NodeAggregatesResponse::from_fields(&fields)
    }

}

impl Default for NodeAggregatesResponse {
    fn default() -> (r: NodeAggregatesResponse)
        ensures
            r@ == NodeAggregatesResponseV::default_value(),
    {
        let r = NodeAggregatesResponse {
            nodes: Vec::new(),
        };
        proof {
            assert(r@.nodes =~= NodeAggregatesResponseV::default_value().nodes);
            assert(r@ =~= NodeAggregatesResponseV::default_value());
        }
        r
    }
}

impl ProtoMessage for NodeAggregatesResponse {
    open spec fn encoded(m: NodeAggregatesResponseV) -> Seq<u8> {
        m.encode()
    }

    open spec fn decoded(bytes: Seq<u8>) -> Option<NodeAggregatesResponseV> {
        NodeAggregatesResponseV::decode(bytes)
    }

    fn encode_bytes(&self) -> (r: Vec<u8>) {
        self.encode_to_vec()
    }

    fn decode_bytes(bytes: &[u8]) -> (r: Result<NodeAggregatesResponse, WireError>) {
        NodeAggregatesResponse::decode(bytes)
    }
}

/// Nodes of an era historical document tree.
#[derive(Debug)]
pub struct EhdTreeTraversalResponse {
    pub nodes: Vec<EhdTreeTraversedNode>,
}

/// The value of a [`EhdTreeTraversalResponse`].
pub struct EhdTreeTraversalResponseV {
    pub nodes: Seq<EhdTreeTraversedNodeV>,
}

impl View for EhdTreeTraversalResponse {
    type V = EhdTreeTraversalResponseV;

    open spec fn view(&self) -> EhdTreeTraversalResponseV {
        EhdTreeTraversalResponseV {
            nodes: EhdTreeTraversedNode::views(self.nodes@),
        }
    }
}

impl EhdTreeTraversalResponseV {
    /// The message with every field at its default.
    pub open spec fn default_value() -> EhdTreeTraversalResponseV {
        EhdTreeTraversalResponseV {
            nodes: Seq::<EhdTreeTraversedNodeV>::empty(),
        }
    }

    /// Map fields hold their keys in order, each once, here and in nested messages.
    pub open spec fn wf(self) -> bool {
        &&& (forall|i: int| 0 <= i < self.nodes.len() ==> (#[trigger] self.nodes[i]).wf())
    }

    pub open spec fn piece_nodes(self) -> Seq<(u32, RawV)> {
        piece(1, vals_rep_msg(self.nodes, EhdTreeTraversedNodeV::encode_fn()))
    }

    /// The raw fields the message is written as, in field order.
    pub open spec fn to_raw(self) -> Seq<(u32, RawV)> {
        self.piece_nodes()
    }

    /// The message read from raw fields, as prost reads it.
    pub open spec fn from_raw(fs: Seq<(u32, RawV)>) -> Option<EhdTreeTraversalResponseV> {
        let nodes = concat_of(sel(fs, 1), conv_msgs(EhdTreeTraversedNodeV::from_raw_fn()));
        if nodes is Some {
            Some(EhdTreeTraversalResponseV {
                nodes: nodes.unwrap(),
            })
        } else {
            None
        }
    }

    pub open spec fn from_raw_fn() -> spec_fn(Seq<(u32, RawV)>) -> Option<EhdTreeTraversalResponseV> {
        |fs: Seq<(u32, RawV)>| EhdTreeTraversalResponseV::from_raw(fs)
    }

    /// The protobuf encoding of the message.
    pub open spec fn encode(self) -> Seq<u8> {
        encode_fields(self.to_raw())
    }

    pub open spec fn encode_fn() -> spec_fn(EhdTreeTraversalResponseV) -> Seq<u8> {
        |m: EhdTreeTraversalResponseV| m.encode()
    }

    /// The message read from bytes, if they hold one.
    pub open spec fn decode(s: Seq<u8>) -> Option<EhdTreeTraversalResponseV> {
        decode_with(s, EhdTreeTraversalResponseV::from_raw_fn())
    }

    /// The encoding is the encodings of the fields one after the other.
    pub proof fn lemma_encode_split(self)
        ensures
            self.encode() == encode_fields(self.piece_nodes()),
    {
    }

    /// Reading the raw fields of a message gives the message back.
    pub proof fn lemma_from_to_raw(self)
        requires
            self.wf(),
            self.encode().len() <= u64::MAX,
        ensures
            EhdTreeTraversalResponseV::from_raw(self.to_raw()) == Some(self),
            fields_ok(self.to_raw()),
        decreases self.encode().len(),
    {
        let fs = self.to_raw();
        self.lemma_encode_split();
        assert(sel(fs, 1) =~= vals_rep_msg(self.nodes, EhdTreeTraversedNodeV::encode_fn()));
        assert forall|i: int| 0 <= i < self.nodes.len() implies {
            &&& (EhdTreeTraversedNodeV::encode_fn())(#[trigger] self.nodes[i]) == encode_fields((EhdTreeTraversedNodeV::to_raw_fn())(self.nodes[i]))
            &&& fields_ok((EhdTreeTraversedNodeV::to_raw_fn())(self.nodes[i]))
            &&& (EhdTreeTraversedNodeV::encode_fn())(self.nodes[i]).len() <= u64::MAX
            &&& (EhdTreeTraversedNodeV::from_raw_fn())((EhdTreeTraversedNodeV::to_raw_fn())(self.nodes[i])) == Some(self.nodes[i])
        } by {
            lemma_piece_payload_bound(1, vals_rep_msg(self.nodes, EhdTreeTraversedNodeV::encode_fn()), i);
            self.nodes[i].lemma_from_to_raw();
        }
        lemma_rep_msg_round_trip(self.nodes, EhdTreeTraversedNodeV::encode_fn(), EhdTreeTraversedNodeV::to_raw_fn(), EhdTreeTraversedNodeV::from_raw_fn());
        lemma_piece_ok(1, vals_rep_msg(self.nodes, EhdTreeTraversedNodeV::encode_fn()));
    }

    pub open spec fn to_raw_fn() -> spec_fn(EhdTreeTraversalResponseV) -> Seq<(u32, RawV)> {
        |m: EhdTreeTraversalResponseV| m.to_raw()
    }
}

/// Decoding the encoding of a ehd tree traversal response gives it back.
pub proof fn lemma_ehd_tree_traversal_response_round_trip(m: EhdTreeTraversalResponseV)
    requires
        m.wf(),
        m.encode().len() <= u64::MAX,
    ensures
        EhdTreeTraversalResponseV::decode(m.encode()) == Some(m),
{
    m.lemma_from_to_raw();
    lemma_parse_encode_fields(m.to_raw());
}

/// Empty bytes decode to the default ehd tree traversal response.
pub proof fn lemma_ehd_tree_traversal_response_decode_empty()
    ensures
        EhdTreeTraversalResponseV::decode(Seq::empty()) == Some(EhdTreeTraversalResponseV::default_value()),
{
    let e = Seq::<(u32, RawV)>::empty();
    assert(sel(e, 1) == Seq::<RawV>::empty());
}

impl EhdTreeTraversalResponse {
    /// Appends the protobuf encoding of the message.
    pub fn encode_raw(&self, buf: &mut Vec<u8>)
        ensures
            final(buf)@ == old(buf)@ + self@.encode(),
    {
        let ghost m = self@;
        EhdTreeTraversedNode::put_repeated(buf, 1, &self.nodes);
        proof {
            m.lemma_encode_split();
        }
    }

    /// The protobuf encoding of the message.
    pub fn encode_to_vec(&self) -> (r: Vec<u8>)
        ensures
            r@ == self@.encode(),
    {
        let mut buf = Vec::new();
        self.encode_raw(&mut buf);
        proof {
            assert(buf@ =~= self@.encode());
        }
        buf
    }

    /// Reads the message from its raw fields.
    pub fn from_fields(fields: &Vec<RawField>) -> (res: Result<EhdTreeTraversalResponse, WireError>)
        ensures
            match EhdTreeTraversalResponseV::from_raw(fields_view(fields@)) {
                Some(m) => res matches Ok(x) && x@ == m,
                None => res is Err,
            },
    {
        let ghost fs = fields_view(fields@);
        let mut nodes: Vec<EhdTreeTraversedNode> = Vec::new();
        let mut i: usize = 0;
        proof {
            assert(fs.take(0) =~= Seq::<(u32, RawV)>::empty());
            assert(fields_view(Seq::<RawField>::empty()) =~= Seq::<(u32, RawV)>::empty());
        }
        while i < fields.len()
            invariant
                fs == fields_view(fields@),
                i <= fields@.len(),
                concat_of(sel(fs.take(i as int), 1), conv_msgs(EhdTreeTraversedNodeV::from_raw_fn())) == Some(EhdTreeTraversedNode::views(nodes@)),
            decreases fields@.len() - i,
        {
            let f = &fields[i];
            proof {
                lemma_sel_take_step(fs, i as int);
            }
            if f.tag == 1 {
                EhdTreeTraversedNode::step_repeated(&mut nodes, &f.value, Ghost(fs), Ghost(i as int))?;
            }
            i = i + 1;
        }
        proof {
            assert(fs.take(i as int) =~= fs);
        }
        Ok(EhdTreeTraversalResponse { nodes })
    }

    /// Reads the message from its protobuf encoding.
    pub fn decode(bytes: &[u8]) -> (res: Result<EhdTreeTraversalResponse, WireError>)
        ensures
            match EhdTreeTraversalResponseV::decode(bytes@) {
                Some(m) => res matches Ok(x) && x@ == m,
                None => res is Err,
            },
    {
        let fields = parse_fields_exec(bytes)?;
        EhdTreeTraversalResponse::from_fields(&fields)
    }

}

impl Default for EhdTreeTraversalResponse {
    fn default() -> (r: EhdTreeTraversalResponse)
        ensures
            r@ == EhdTreeTraversalResponseV::default_value(),
    {
        let r = EhdTreeTraversalResponse {
            nodes: Vec::new(),
        };
        proof {
            assert(r@.nodes =~= EhdTreeTraversalResponseV::default_value().nodes);
            assert(r@ =~= EhdTreeTraversalResponseV::default_value());
        }
        r
    }
}

impl ProtoMessage for EhdTreeTraversalResponse {
    open spec fn encoded(m: EhdTreeTraversalResponseV) -> Seq<u8> {
        m.encode()
    }

    open spec fn decoded(bytes: Seq<u8>) -> Option<EhdTreeTraversalResponseV> {
        EhdTreeTraversalResponseV::decode(bytes)
    }

    fn encode_bytes(&self) -> (r: Vec<u8>) {
        self.encode_to_vec()
    }

    fn decode_bytes(bytes: &[u8]) -> (r: Result<EhdTreeTraversalResponse, WireError>) {
        EhdTreeTraversalResponse::decode(bytes)
    }
}

/// Nodes of a partial historical document tree.
#[derive(Debug)]
pub struct PhdTreeTraversalResponse {
    pub nodes: Vec<PhdTreeTraversedNode>,
}

/// The value of a [`PhdTreeTraversalResponse`].
pub struct PhdTreeTraversalResponseV {
    pub nodes: Seq<PhdTreeTraversedNodeV>,
}

impl View for PhdTreeTraversalResponse {
    type V = PhdTreeTraversalResponseV;

    open spec fn view(&self) -> PhdTreeTraversalResponseV {
        PhdTreeTraversalResponseV {
            nodes: PhdTreeTraversedNode::views(self.nodes@),
        }
    }
}

impl PhdTreeTraversalResponseV {
    /// The message with every field at its default.
    pub open spec fn default_value() -> PhdTreeTraversalResponseV {
        PhdTreeTraversalResponseV {
            nodes: Seq::<PhdTreeTraversedNodeV>::empty(),
        }
    }

    /// Map fields hold their keys in order, each once, here and in nested messages.
    pub open spec fn wf(self) -> bool {
        &&& (forall|i: int| 0 <= i < self.nodes.len() ==> (#[trigger] self.nodes[i]).wf())
    }

    pub open spec fn piece_nodes(self) -> Seq<(u32, RawV)> {
        piece(1, vals_rep_msg(self.nodes, PhdTreeTraversedNodeV::encode_fn()))
    }

    /// The raw fields the message is written as, in field order.
    pub open spec fn to_raw(self) -> Seq<(u32, RawV)> {
        self.piece_nodes()
    }

    /// The message read from raw fields, as prost reads it.
    pub open spec fn from_raw(fs: Seq<(u32, RawV)>) -> Option<PhdTreeTraversalResponseV> {
        let nodes = concat_of(sel(fs, 1), conv_msgs(PhdTreeTraversedNodeV::from_raw_fn()));
        if nodes is Some {
            Some(PhdTreeTraversalResponseV {
                nodes: nodes.unwrap(),
            })
        } else {
            None
        }
    }

    pub open spec fn from_raw_fn() -> spec_fn(Seq<(u32, RawV)>) -> Option<PhdTreeTraversalResponseV> {
        |fs: Seq<(u32, RawV)>| PhdTreeTraversalResponseV::from_raw(fs)
    }

    /// The protobuf encoding of the message.
    pub open spec fn encode(self) -> Seq<u8> {
        encode_fields(self.to_raw())
    }

    pub open spec fn encode_fn() -> spec_fn(PhdTreeTraversalResponseV) -> Seq<u8> {
        |m: PhdTreeTraversalResponseV| m.encode()
    }

    /// The message read from bytes, if they hold one.
    pub open spec fn decode(s: Seq<u8>) -> Option<PhdTreeTraversalResponseV> {
        decode_with(s, PhdTreeTraversalResponseV::from_raw_fn())
    }

    /// The encoding is the encodings of the fields one after the other.
    pub proof fn lemma_encode_split(self)
        ensures
            self.encode() == encode_fields(self.piece_nodes()),
    {
    }

    /// Reading the raw fields of a message gives the message back.
    pub proof fn lemma_from_to_raw(self)
        requires
            self.wf(),
            self.encode().len() <= u64::MAX,
        ensures
            PhdTreeTraversalResponseV::from_raw(self.to_raw()) == Some(self),
            fields_ok(self.to_raw()),
        decreases self.encode().len(),
    {
        let fs = self.to_raw();
        self.lemma_encode_split();
        assert(sel(fs, 1) =~= vals_rep_msg(self.nodes, PhdTreeTraversedNodeV::encode_fn()));
        assert forall|i: int| 0 <= i < self.nodes.len() implies {
            &&& (PhdTreeTraversedNodeV::encode_fn())(#[trigger] self.nodes[i]) == encode_fields((PhdTreeTraversedNodeV::to_raw_fn())(self.nodes[i]))
            &&& fields_ok((PhdTreeTraversedNodeV::to_raw_fn())(self.nodes[i]))
            &&& (PhdTreeTraversedNodeV::encode_fn())(self.nodes[i]).len() <= u64::MAX
            &&& (PhdTreeTraversedNodeV::from_raw_fn())((PhdTreeTraversedNodeV::to_raw_fn())(self.nodes[i])) == Some(self.nodes[i])
        } by {
            lemma_piece_payload_bound(1, vals_rep_msg(self.nodes, PhdTreeTraversedNodeV::encode_fn()), i);
            self.nodes[i].lemma_from_to_raw();
        }
        lemma_rep_msg_round_trip(self.nodes, PhdTreeTraversedNodeV::encode_fn(), PhdTreeTraversedNodeV::to_raw_fn(), PhdTreeTraversedNodeV::from_raw_fn());
        lemma_piece_ok(1, vals_rep_msg(self.nodes, PhdTreeTraversedNodeV::encode_fn()));
    }

    pub open spec fn to_raw_fn() -> spec_fn(PhdTreeTraversalResponseV) -> Seq<(u32, RawV)> {
        |m: PhdTreeTraversalResponseV| m.to_raw()
    }
}

/// Decoding the encoding of a phd tree traversal response gives it back.
pub proof fn lemma_phd_tree_traversal_response_round_trip(m: PhdTreeTraversalResponseV)
    requires
        m.wf(),
        m.encode().len() <= u64::MAX,
    ensures
        PhdTreeTraversalResponseV::decode(m.encode()) == Some(m),
{
    m.lemma_from_to_raw();
    lemma_parse_encode_fields(m.to_raw());
}

/// Empty bytes decode to the default phd tree traversal response.
pub proof fn lemma_phd_tree_traversal_response_decode_empty()
    ensures
        PhdTreeTraversalResponseV::decode(Seq::empty()) == Some(PhdTreeTraversalResponseV::default_value()),
{
    let e = Seq::<(u32, RawV)>::empty();
    assert(sel(e, 1) == Seq::<RawV>::empty());
}

impl PhdTreeTraversalResponse {
    /// Appends the protobuf encoding of the message.
    pub fn encode_raw(&self, buf: &mut Vec<u8>)
        ensures
            final(buf)@ == old(buf)@ + self@.encode(),
    {
        let ghost m = self@;
        PhdTreeTraversedNode::put_repeated(buf, 1, &self.nodes);
        proof {
            m.lemma_encode_split();
        }
    }

    /// The protobuf encoding of the message.
    pub fn encode_to_vec(&self) -> (r: Vec<u8>)
        ensures
            r@ == self@.encode(),
    {
        let mut buf = Vec::new();
        self.encode_raw(&mut buf);
        proof {
            assert(buf@ =~= self@.encode());
        }
        buf
    }

    /// Reads the message from its raw fields.
    pub fn from_fields(fields: &Vec<RawField>) -> (res: Result<PhdTreeTraversalResponse, WireError>)
        ensures
            match PhdTreeTraversalResponseV::from_raw(fields_view(fields@)) {
                Some(m) => res matches Ok(x) && x@ == m,
                None => res is Err,
            },
    {
        let ghost fs = fields_view(fields@);
        let mut nodes: Vec<PhdTreeTraversedNode> = Vec::new();
        let mut i: usize = 0;
        proof {
            assert(fs.take(0) =~= Seq::<(u32, RawV)>::empty());
            assert(fields_view(Seq::<RawField>::empty()) =~= Seq::<(u32, RawV)>::empty());
        }
        while i < fields.len()
            invariant
                fs == fields_view(fields@),
                i <= fields@.len(),
                concat_of(sel(fs.take(i as int), 1), conv_msgs(PhdTreeTraversedNodeV::from_raw_fn())) == Some(PhdTreeTraversedNode::views(nodes@)),
            decreases fields@.len() - i,
        {
            let f = &fields[i];
            proof {
                lemma_sel_take_step(fs, i as int);
            }
            if f.tag == 1 {
                PhdTreeTraversedNode::step_repeated(&mut nodes, &f.value, Ghost(fs), Ghost(i as int))?;
            }
            i = i + 1;
        }
        proof {
            assert(fs.take(i as int) =~= fs);
        }
        Ok(PhdTreeTraversalResponse { nodes })
    }

    /// Reads the message from its protobuf encoding.
    pub fn decode(bytes: &[u8]) -> (res: Result<PhdTreeTraversalResponse, WireError>)
        ensures
            match PhdTreeTraversalResponseV::decode(bytes@) {
                Some(m) => res matches Ok(x) && x@ == m,
                None => res is Err,
            },
    {
        let fields = parse_fields_exec(bytes)?;
        PhdTreeTraversalResponse::from_fields(&fields)
    }

}

impl Default for PhdTreeTraversalResponse {
    fn default() -> (r: PhdTreeTraversalResponse)
        ensures
            r@ == PhdTreeTraversalResponseV::default_value(),
    {
        let r = PhdTreeTraversalResponse {
            nodes: Vec::new(),
        };
        proof {
            assert(r@.nodes =~= PhdTreeTraversalResponseV::default_value().nodes);
            assert(r@ =~= PhdTreeTraversalResponseV::default_value());
        }
        r
    }
}

impl ProtoMessage for PhdTreeTraversalResponse {
    open spec fn encoded(m: PhdTreeTraversalResponseV) -> Seq<u8> {
        m.encode()
    }

    open spec fn decoded(bytes: Seq<u8>) -> Option<PhdTreeTraversalResponseV> {
        PhdTreeTraversalResponseV::decode(bytes)
    }

    fn encode_bytes(&self) -> (r: Vec<u8>) {
        self.encode_to_vec()
    }

    fn decode_bytes(bytes: &[u8]) -> (r: Result<PhdTreeTraversalResponse, WireError>) {
        PhdTreeTraversalResponse::decode(bytes)
    }
}

} // verus!
