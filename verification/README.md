# ddc_api

The client side of the DDC node API that the chain's off-chain workers use:
the protobuf messages exchanged with DDC nodes, the URLs of the endpoints,
when a request is tried again, how a signed answer is opened, and which
node of a cluster is asked.

`src/` is verified with Verus:

- `varint`, `wire`, `codec`: the protobuf wire format, with the field rules
  that prost applies, proved to read back what it writes;
- `proto`: the messages, each with its value, encoding, decoding and the
  round-trip law;
- `string_map`: the string-keyed maps of the inspection messages, kept in
  key order;
- `text`, `primitives`: decimal and hexadecimal text, node keys and the
  chain's node records;
- `tree`, `inspect`: usage totals, node keys of aggregates, path and result
  hashes;
- `client`: endpoint URLs, the retry rules and the opening of signed answers;
- `api`: choosing collectors, grouping collectors and sync nodes, paging,
  and the errors of each call.

`app/` holds what runs around it: HTTP over the runtime's off-chain
interface, the chain queries, signature checking, and the JSON and SCALE
forms of the types.
