# oxideav-heif

HEIF / HEIC / AVIF / MIAF image containers for the oxideav framework, with every
function of the library verified by Verus against a contract.

The library owns the container: the ISOBMFF box tree, the `meta` item model, the
typed item properties, the decoder configuration records, derived images (grid,
overlay, identity, tone map), auxiliary images, thumbnails, metadata, image
sequences and the MIAF checks. Coded pictures are handed to `oxideav-h265`,
`oxideav-av1` and `oxideav-h264`; what goes in, and what is made of the answer, is
decided and proved here.

## Layout

* `src/` — the library. A type of the public surface has a mathematical model (its
  view), a parser has a spec function from bytes to a model or an error kind, and a
  serializer has one from a model to bytes; contracts say that the code computes
  them. Proof functions named `law_*` state what holds across functions: what is
  written is read back, what is parsed can be written again, transforms compose,
  the predicted output is the decoded one, reading visits every sample once.
* `tests/` — the library on concrete values, with the real codecs linked.
* `app/` — the framework glue: demuxer, muxer, codec, encoder, registry, and the
  gain-map arithmetic in floating point.

Errors carry a message for people; contracts speak of their kind (invalid,
unsupported, exhausted).
