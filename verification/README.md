# oxideav_fbx

The Autodesk FBX container and object graph, proved against their
specifications by Verus: reading binary and ASCII files into a node
tree, writing the ASCII form back, and decoding and writing the object
graph (geometry layout, materials, skins and blend shapes, animation,
constraints, scene-wide settings). Turning that into an
`oxideav_mesh3d` scene, and the floating-point work it needs, is glue
in `app/`.

## Layout

- `src/` — the verified library.
  - `binary.rs`, `ascii.rs`, `decoder.rs`: the binary Node Record reader
    (with zlib-compressed arrays), the ASCII reader, and format sniffing.
  - `ascii_writer.rs`, `encoder.rs`, `round_trip.rs`, `written_utf8.rs`:
    the ASCII writer, the proof that reading what it writes gives the
    document back, and the proof that it writes UTF-8 for a document whose
    texts are UTF-8.
  - `model.rs`, `names.rs`, `objects.rs`, `bytes.rs`, `text.rs`,
    `decimal.rs`, `trunc.rs`, `base64.rs`, `inflate.rs`: the node tree and
    its view, element names, connection records, and byte, text and number
    helpers.
  - `header_info.rs`, `documents.rs`: the `FBXHeaderExtension` metadata
    and the `Documents` catalogue.
  - `globals.rs`: the `GlobalSettings` records — which are recognised and
    how each reads, the up / front axes with their coherence guard, and
    the unit scale factor.
  - `definitions.rs`, `inherit.rs`, `node_transform.rs`, `nurbs.rs`:
    class templates, inheritance modes, rotation orders and NURBS
    attributes.
  - `geometry.rs`, `kinds.rs`, `material.rs`, `deformer.rs`,
    `animation.rs`, `constraint.rs`, `opaque.rs`: what the object graph
    says — mesh layout and layers, geometry and attribute kinds, materials
    and textures, skins and blend shapes, animation curves, constraints,
    and elements of other classes.
  - `anim_layout.rs`, `anim_writer.rs`, `constraint_writer.rs`,
    `deformer_writer.rs`, `anim_round_trip.rs`, `deformer_round_trip.rs`:
    where the written animation graph puts each channel and which ids it
    draws, the object-graph writers, and the proofs that the animation,
    constraint and skin graphs read back what is written.
- `app/` — the glue to the `oxideav_mesh3d` scene model: floating-point
  conversions, transforms and resampling, and the `serde_json` extras.
- `tests/` — tests of the library.
