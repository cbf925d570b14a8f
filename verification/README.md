# yaml_contract

The YAML content contract: every Stream must be well-formed YAML, and a
contract bound to a layout holds the first document of each Stream to the keys
and types the layout names.

- `src/value.rs`: YAML values as the library holds them, and the call into
  `yaml_rust2` that loads them from text.
- `src/layout.rs`: layouts, how they are read, and how a document is checked
  against one.
- `src/lib.rs`: the contract itself (`identify`, `validate`), the factory, and
  the media-type and first-line tests that identify YAML.
- `src/contract.rs`, `src/stream.rs`: the shared vocabulary of contracts and Streams.
- `src/text.rs`: trimming, splitting and searching over chars, with their specifications.
- `src/laws.rs`: properties proved across functions.
- `app/lib.rs`: reading a layout file from disk for the factory.
