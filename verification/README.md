# oxideav_svg

The text-level core of an SVG reader and writer, verified with Verus.

`src/` is the verified library:

- `parser` — the XML reader (prolog, comments, CDATA, processing
  instructions, attributes, entities; elements nested deeper than
  `MAX_XML_DEPTH` = 128 are refused), text and attribute escaping,
  qualified-name and attribute lookup, UTF-8 decoding with BOM removal,
  and the `.svgz` gzip framing (through `flate2`; a payload inflating
  past `MAX_SVGZ_INFLATED` = 128 MiB is refused).
- `scene`, `document` — the document writer: a scene whose numbers are
  already text (groups, paths, soft masks, and the gradients, clip
  paths and masks they use) written with the preserved side channel
  (`PreservedExtras`): `<defs>` with the author's own definitions and
  ids where bound, `<a>` / `<use>` / `<switch>` / `<text>` restored by
  tree-path, per-node ids, references, rendering hints and inline
  animations, and the trailing fragments; `.svgz` is its gzip.
- `encoder` — verbatim serialisation of preserved elements (pretty,
  inline, `<script>` as CDATA), `<title>` / `<desc>` items, link and
  marker attribute lists.
- `def_ids` — one `<defs>` entry per distinct fingerprint, with ids
  `prefix1`, `prefix2`, … in order of first sight and source ids in
  their place where recorded.
- `round_trip`, `pretty_round_trip` — the reader reads back what the
  writers write: exactly for the inline, line, `<title>` / `<desc>` and
  `<script>` forms, up to whitespace for the pretty-printed form.
- `path_data`, `path_writer`, `transform`, `number` — the `d` and
  `transform` grammars, with numbers kept as their source text, and the
  `d` and `matrix()` writers, whose output reads back as what was
  written.
- `image` — `<image href>` data URIs (through `base64`) and external
  URLs, both directions, and the `<image>` attribute line.
- `filter`, `filter_graph`, `filter_eval` — filter-effect keywords, the
  primitive structure of a `<filter>` with its implicit `in` chaining
  (each primitive reads the one before it, by `result` name when it has
  one), the working colour space, and the `edgeMode` sampling policy.
- `keyframe`, `length`, `path_length`, `fragment`, `text`, `preserved`,
  `strings` — CSS animation list helpers (`animation-name` lists, the
  later-animation-wins merge of property overrides) and
  `<easing-function>` / iteration-count syntax, `<length>` splitting, the `pathLength`
  number text, URL fragment routing, `text-anchor` / `side` / text runs, preserved-content
  records, and the character helpers everything shares.

`app/` holds what needs floating point or global state: path
coordinates and lengths, transform matrices, length resolution, easing
curves, filter primitives and their pixel evaluation, fragment view
resolution, `<image>` geometry output, the text form of a vector frame
for the document writer (with the encoder adapter), and the
font-resolver hook.
