# engram

Verified pieces of engram's logic layer, proved with Verus.

- `src/laya.rs`, `src/state.rs`, `src/encoder.rs`, `src/batch.rs`: the
  Laya encoder's inputs. Questions and their rendered options, the state
  JSON the model was trained on, the prompt layout with one marker per
  option, the tokenized row, and the batch tensors.
- `src/shapes/`: the contradiction-shape planter of the evaluation harness.
  The shape catalogue, the planted note per shape, the context graph around
  each pair, and the sides and rows a judge reads under each arm. A
  related note's title is cut to 12 words as a whole: the library has no
  clause splitter, so it does not cut a title to its first clause first.
- `src/text.rs`: the string operations the above are specified with.
- `app/`: the model runtime (files, ONNX session, temperatures, softmax),
  the judges and the benchmark's scoring, none of which the library holds.

Each module states its laws as public proof functions (`law_*`).
