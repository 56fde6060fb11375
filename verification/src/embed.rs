//! What the embedders decide apart from their arithmetic: the dimension checks
//! of vector arithmetic, how a base vector is built, the settings of the
//! embedders, the prefixes put before texts, and which token a pooling reads.

use vstd::prelude::*;
use crate::error::VecGraphError;
use crate::node::Node;
use crate::text::{decimal, decimal_string};

verus! {

/// The first length that differs from `dim`, in order.
pub open spec fn first_dimension_mismatch(dim: usize, lens: Seq<usize>) -> Option<usize>
    decreases lens.len(),
{
    if lens.len() == 0 {
        None
    } else if lens[0] != dim {
        Some(lens[0])
    } else {
        first_dimension_mismatch(dim, lens.drop_first())
    }
}

/// The length that vector arithmetic rejects, if any: the base's, else the
/// first added vector's, else the first subtracted vector's that is not `dim` long.
pub open spec fn arithmetic_mismatch(dim: usize, base_len: usize, add_lens: Seq<usize>, sub_lens: Seq<usize>) -> Option<usize> {
    if base_len != dim {
        Some(base_len)
    } else {
        match first_dimension_mismatch(dim, add_lens) {
            Some(got) => Some(got),
            None => first_dimension_mismatch(dim, sub_lens),
        }
    }
}

proof fn lemma_first_mismatch_skip(dim: usize, lens: Seq<usize>, i: int)
    requires
        0 <= i <= lens.len(),
        forall|j: int| 0 <= j < i ==> lens[j] == dim,
    ensures
        first_dimension_mismatch(dim, lens) == first_dimension_mismatch(dim, lens.skip(i)),
    decreases i,
{
    if i > 0 {
        assert(lens.drop_first().skip(i - 1) =~= lens.skip(i));
        assert(lens[0] == dim);
        lemma_first_mismatch_skip(dim, lens.drop_first(), i - 1);
    } else {
        assert(lens.skip(0) =~= lens);
    }
}

/// The first mismatch of a list of lengths is absent exactly when every length
/// is `dim`; where present it differs from `dim` and is one of the lengths.
pub proof fn lemma_first_mismatch_is_a_wrong_length(dim: usize, lens: Seq<usize>)
    ensures
        first_dimension_mismatch(dim, lens) is None <==> forall|i: int| 0 <= i < lens.len() ==> #[trigger] lens[i] == dim,
        first_dimension_mismatch(dim, lens) matches Some(got) ==> got != dim && lens.contains(got),
    decreases lens.len(),
{
    if lens.len() > 0 {
        let rest = lens.drop_first();
        lemma_first_mismatch_is_a_wrong_length(dim, rest);
        if lens[0] == dim {
            assert forall|i: int| 0 <= i < lens.len() && (forall|k: int| 0 <= k < rest.len() ==> #[trigger] rest[k] == dim)
                implies #[trigger] lens[i] == dim by {
                if i > 0 {
                    assert(lens[i] == rest[i - 1]);
                }
            }
            if first_dimension_mismatch(dim, rest) is None {
                assert(forall|k: int| 0 <= k < rest.len() ==> #[trigger] rest[k] == dim);
            } else {
                let got = first_dimension_mismatch(dim, rest)->0;
                let k = choose|k: int| 0 <= k < rest.len() && rest[k] == got;
                assert(lens[k + 1] == got);
                assert(lens.contains(got));
            }
        } else {
            assert(lens.contains(lens[0]));
        }
    }
}

/// Vector arithmetic is refused exactly when the base or some added or subtracted
/// vector is not `dim` long, and the length it names is such a length.
pub proof fn lemma_arithmetic_mismatch_names_a_wrong_length(
    dim: usize,
    base_len: usize,
    add_lens: Seq<usize>,
    sub_lens: Seq<usize>,
)
    ensures
        arithmetic_mismatch(dim, base_len, add_lens, sub_lens) is None <==> {
            &&& base_len == dim
            &&& forall|i: int| 0 <= i < add_lens.len() ==> #[trigger] add_lens[i] == dim
            &&& forall|i: int| 0 <= i < sub_lens.len() ==> #[trigger] sub_lens[i] == dim
        },
        arithmetic_mismatch(dim, base_len, add_lens, sub_lens) matches Some(got) ==> {
            &&& got != dim
            &&& got == base_len || add_lens.contains(got) || sub_lens.contains(got)
        },
{
    lemma_first_mismatch_is_a_wrong_length(dim, add_lens);
    lemma_first_mismatch_is_a_wrong_length(dim, sub_lens);
}

fn find_dimension_mismatch(dim: usize, lens: &[usize]) -> (r: Option<usize>)
    ensures
        r == first_dimension_mismatch(dim, lens@),
{
    let mut i: usize = 0;
    while i < lens.len()
        invariant
            i <= lens@.len(),
            forall|j: int| 0 <= j < i ==> lens@[j] == dim,
        decreases lens@.len() - i,
    {
        if lens[i] != dim {
            proof {
                lemma_first_mismatch_skip(dim, lens@, i as int);
            }
            return Some(lens[i]);
        }
        i = i + 1;
    }
    proof {
        lemma_first_mismatch_skip(dim, lens@, i as int);
    }
    None
}

/// Checks the lengths of the vectors of `base + sum(add) - sum(sub)` against the
/// embedder's dimension `dim`: the first vector of another length is named in the error.
pub fn check_arithmetic_dimensions(dim: usize, base_len: usize, add_lens: &[usize], sub_lens: &[usize]) -> (r: Result<(), VecGraphError>)
    ensures
        match arithmetic_mismatch(dim, base_len, add_lens@, sub_lens@) {
            None => r is Ok,
            Some(got) => r == Err::<(), VecGraphError>(VecGraphError::DimensionMismatch { expected: dim, got }),
        },
        r is Ok <==> {
            &&& base_len == dim
            &&& forall|i: int| 0 <= i < add_lens@.len() ==> #[trigger] add_lens@[i] == dim
            &&& forall|i: int| 0 <= i < sub_lens@.len() ==> #[trigger] sub_lens@[i] == dim
        },
        r matches Err(e) ==> (e matches VecGraphError::DimensionMismatch { expected, got } && {
            &&& expected == dim
            &&& got != dim
            &&& got == base_len || add_lens@.contains(got) || sub_lens@.contains(got)
        }),
{
    proof {
        lemma_arithmetic_mismatch_names_a_wrong_length(dim, base_len, add_lens@, sub_lens@);
    }
    if base_len != dim {
        return Err(VecGraphError::DimensionMismatch { expected: dim, got: base_len });
    }
    match find_dimension_mismatch(dim, add_lens) {
        Some(got) => {
            return Err(VecGraphError::DimensionMismatch { expected: dim, got });
        },
        None => {},
    }
    match find_dimension_mismatch(dim, sub_lens) {
        Some(got) => Err(VecGraphError::DimensionMismatch { expected: dim, got }),
        None => Ok(()),
    }
}

/// How a base vector is built from named vectors and a free-text vector.
#[derive(Debug, Clone, Copy, PartialEq, Eq, Structural)]
pub enum BaseVectorMode {
    /// Only the free-text vector: it is the base, as it stands.
    TextOnly,
    /// Only named vectors: their normalized centroid.
    NamedOnly,
    /// Both: the normalized weighted blend of the centroid and the text vector.
    Blend,
}

/// How a base vector is built from `named_count` named vectors and, where
/// `has_text`, a free-text vector; a query with neither is empty.
pub fn base_vector_mode(named_count: usize, has_text: bool) -> (r: Result<BaseVectorMode, VecGraphError>)
    ensures
        named_count == 0 && !has_text ==> r == Err::<BaseVectorMode, VecGraphError>(VecGraphError::EmptyQuery),
        named_count == 0 && has_text ==> r == Ok::<BaseVectorMode, VecGraphError>(BaseVectorMode::TextOnly),
        named_count > 0 && !has_text ==> r == Ok::<BaseVectorMode, VecGraphError>(BaseVectorMode::NamedOnly),
        named_count > 0 && has_text ==> r == Ok::<BaseVectorMode, VecGraphError>(BaseVectorMode::Blend),
{
    if named_count == 0 && !has_text {
        Err(VecGraphError::EmptyQuery)
    } else if named_count == 0 {
        Ok(BaseVectorMode::TextOnly)
    } else if !has_text {
        Ok(BaseVectorMode::NamedOnly)
    } else {
        Ok(BaseVectorMode::Blend)
    }
}

/// The message of an embedder that returned `got` embeddings for `expected` inputs.
pub open spec fn batch_mismatch_text(got: usize, expected: usize) -> Seq<char> {
    "Batch size mismatch: got "@ + decimal(got as nat) + ", expected "@ + decimal(expected as nat)
}

/// Checks that an embedder returned one embedding per input.
pub fn check_batch_len(got: usize, expected: usize) -> (r: Result<(), VecGraphError>)
    ensures
        got == expected ==> r is Ok,
        got != expected ==> (r matches Err(VecGraphError::EmbedderError(msg)) && msg@ == batch_mismatch_text(got, expected)),
{
    if got != expected {
        let mut msg = String::from_str("Batch size mismatch: got ");
        let g = decimal_string(got);
        msg.append(g.as_str());
        msg.append(", expected ");
        let e = decimal_string(expected);
        msg.append(e.as_str());
        Err(VecGraphError::EmbedderError(msg))
    } else {
        Ok(())
    }
}

/// Settings of the Model2Vec embedder.
pub struct Model2VecEmbedderSettings {
    /// Path to the model directory or HuggingFace model ID.
    pub model_path: String,
    /// Whether to L2 normalize the output embeddings.
    pub normalize: bool,
    /// Max input token length; longer inputs are truncated. `None` uses the model's default.
    pub max_length: Option<usize>,
    /// How many inputs the model processes at once.
    pub batch_size: usize,
}

impl Default for Model2VecEmbedderSettings {
    fn default() -> (r: Self)
        ensures
            r.model_path@ == Seq::<char>::empty(),
            r.normalize,
            r.max_length.is_none(),
            r.batch_size == 1024,
    {
        Model2VecEmbedderSettings {
            model_path: String::new(),
            normalize: true,
            max_length: None,
            batch_size: 1024,
        }
    }
}

/// How token embeddings become one vector.
#[allow(non_camel_case_types)]
#[derive(Debug, Clone, Copy, PartialEq, Eq, Structural)]
pub enum PoolingStrategy {
    /// The first token's embedding.
    CLS,
    /// The mean of the attended tokens' embeddings.
    Mean,
    /// The last attended token's embedding.
    Last,
}

/// Which text is put before the input.
pub enum PrefixMode {
    /// No prefix.
    NoPrefix,
    /// Same prefix for all text.
    Symmetric(String),
    /// Different prefixes for ingest vs query.
    Asymmetric { document: String, query: String },
}

impl PrefixMode {
    /// A document as it is embedded.
    pub open spec fn document_text_spec(&self, text: Seq<char>) -> Seq<char> {
        match self {
            PrefixMode::NoPrefix => text,
            PrefixMode::Symmetric(prefix) => prefix@ + text,
            PrefixMode::Asymmetric { document, query } => document@ + text,
        }
    }

    /// A query as it is embedded.
    pub open spec fn query_text_spec(&self, text: Seq<char>) -> Seq<char> {
        match self {
            PrefixMode::NoPrefix => text,
            PrefixMode::Symmetric(prefix) => prefix@ + text,
            PrefixMode::Asymmetric { document, query } => query@ + text,
        }
    }

    /// The text of a document with its prefix.
    pub fn document_text(&self, text: &str) -> (r: String)
        ensures
            r@ == self.document_text_spec(text@),
    {
        match self {
            PrefixMode::NoPrefix => String::from_str(text),
            PrefixMode::Symmetric(prefix) => {
                let mut s = prefix.clone();
                s.append(text);
                s
            },
            PrefixMode::Asymmetric { document, .. } => {
                let mut s = document.clone();
                s.append(text);
                s
            },
        }
    }

    /// The text of a query with its prefix.
    pub fn query_text(&self, text: &str) -> (r: String)
        ensures
            r@ == self.query_text_spec(text@),
    {
        match self {
            PrefixMode::NoPrefix => String::from_str(text),
            PrefixMode::Symmetric(prefix) => {
                let mut s = prefix.clone();
                s.append(text);
                s
            },
            PrefixMode::Asymmetric { query, .. } => {
                let mut s = query.clone();
                s.append(text);
                s
            },
        }
    }
}

/// How a model's larger output is cut down.
#[derive(Debug, Clone, Copy, PartialEq, Eq, Structural)]
pub enum MatryoshkaMode {
    Off,
    Truncate { dim: usize },
    LayerNormThenTruncate { dim: usize },
}

impl MatryoshkaMode {
    /// The dimension of the embeddings: the configured one, or the cut-down one.
    pub fn output_dim(&self, embed_dim: usize) -> (r: usize)
        ensures
            r == match self {
                MatryoshkaMode::Off => embed_dim,
                MatryoshkaMode::Truncate { dim } => *dim,
                MatryoshkaMode::LayerNormThenTruncate { dim } => *dim,
            },
    {
        match self {
            MatryoshkaMode::Off => embed_dim,
            MatryoshkaMode::Truncate { dim } => *dim,
            MatryoshkaMode::LayerNormThenTruncate { dim } => *dim,
        }
    }
}

/// Names of the input tensors of an ONNX model.
#[derive(Debug)]
pub struct InputTensorNames {
    pub input_ids: String,
    pub attention_mask: String,
    pub token_type_ids: Option<String>,
}

impl Clone for InputTensorNames {
    fn clone(&self) -> (r: Self)
        ensures
            r == *self,
    {
        InputTensorNames {
            input_ids: self.input_ids.clone(),
            attention_mask: self.attention_mask.clone(),
            token_type_ids: self.token_type_ids.clone(),
        }
    }
}

impl Default for InputTensorNames {
    fn default() -> (r: Self)
        ensures
            r.input_ids@ == "input_ids"@,
            r.attention_mask@ == "attention_mask"@,
            r.token_type_ids.is_none(),
    {
        InputTensorNames {
            input_ids: String::from_str("input_ids"),
            attention_mask: String::from_str("attention_mask"),
            token_type_ids: None,
        }
    }
}

/// Settings of the ONNX embedder.
pub struct OnnxEmbedderSettings {
    /// Path to the ONNX model file.
    pub model_path: String,
    /// Path to the tokenizer file (tokenizer.json).
    pub tokenizer_path: String,
    /// Dimensionality of the output embeddings (after any matryoshka processing).
    pub embed_dim: usize,
    /// Pooling strategy to use when converting token embeddings to a single vector.
    pub pooling: PoolingStrategy,
    /// Optional prefixing strategy for input text.
    pub prefix: PrefixMode,
    /// Optional "matryoshka" mode for handling models that produce higher-dimensional outputs.
    pub matryoshka: MatryoshkaMode,
    /// Whether to L2-normalize the output embeddings.
    pub normalize: bool,
    /// Names of the input tensors expected by the ONNX model.
    pub input_names: InputTensorNames,
    /// Number of threads to use for ONNX inference.
    pub intra_threads: usize,
}

/// The token whose embedding the `Last` pooling reads: the last token with
/// attention mask 1, or the last token where none has it.
pub open spec fn last_attended_spec(mask: Seq<u32>, seq_len: nat) -> int
    decreases mask.len(),
{
    if mask.len() == 0 {
        seq_len - 1
    } else if mask.last() == 1 {
        mask.len() - 1
    } else {
        last_attended_spec(mask.drop_last(), seq_len)
    }
}

/// The `Last` pooling reads an attended token after which no token is attended;
/// where no token is attended, it reads the sequence's last token.
pub proof fn lemma_last_attended_is_the_last_attended_token(mask: Seq<u32>, seq_len: nat)
    ensures
        (exists|i: int| 0 <= i < mask.len() && #[trigger] mask[i] == 1) ==> {
            &&& 0 <= last_attended_spec(mask, seq_len) < mask.len()
            &&& mask[last_attended_spec(mask, seq_len)] == 1
            &&& forall|i: int| last_attended_spec(mask, seq_len) < i < mask.len() ==> #[trigger] mask[i] != 1
        },
        (forall|i: int| 0 <= i < mask.len() ==> #[trigger] mask[i] != 1) ==> last_attended_spec(mask, seq_len) == seq_len - 1,
    decreases mask.len(),
{
    if mask.len() > 0 {
        let prev = mask.drop_last();
        lemma_last_attended_is_the_last_attended_token(prev, seq_len);
        if mask.last() != 1 {
            if exists|i: int| 0 <= i < mask.len() && #[trigger] mask[i] == 1 {
                let i = choose|i: int| 0 <= i < mask.len() && #[trigger] mask[i] == 1;
                assert(prev[i] == 1);
            }
            assert forall|i: int| 0 <= i < prev.len() implies #[trigger] mask[i] == prev[i] by {}
        }
    }
}

/// The token whose embedding the `Last` pooling reads, for a sequence of
/// `seq_len` tokens with the given attention mask.
pub fn last_attended_index(mask: &[u32], seq_len: usize) -> (r: usize)
    requires
        seq_len > 0,
    ensures
        r == last_attended_spec(mask@, seq_len as nat),
{
    let mut i = mask.len();
    assert(mask@.take(i as int) =~= mask@);
    while i > 0
        invariant
            i <= mask@.len(),
            last_attended_spec(mask@, seq_len as nat) == last_attended_spec(mask@.take(i as int), seq_len as nat),
        decreases i,
    {
        if mask[i - 1] == 1 {
            return i - 1;
        }
        assert(mask@.take(i as int).drop_last() =~= mask@.take(i - 1));
        i = i - 1;
    }
    seq_len - 1
}

/// The tokens with attention mask 1, in order.
pub open spec fn attended_rows(mask: Seq<u32>) -> Seq<int>
    decreases mask.len(),
{
    if mask.len() == 0 {
        Seq::empty()
    } else if mask.last() == 1 {
        attended_rows(mask.drop_last()).push(mask.len() - 1)
    } else {
        attended_rows(mask.drop_last())
    }
}

/// The rows of the mean pooling are exactly the attended tokens: each lies within
/// the mask and is attended, they rise strictly, and every attended token is among them.
pub proof fn lemma_attended_rows_are_the_attended_tokens(mask: Seq<u32>)
    ensures
        forall|j: int| 0 <= j < attended_rows(mask).len() ==> {
            &&& 0 <= #[trigger] attended_rows(mask)[j] < mask.len()
            &&& mask[attended_rows(mask)[j]] == 1
        },
        forall|j: int, k: int| 0 <= j < k < attended_rows(mask).len()
            ==> #[trigger] attended_rows(mask)[j] < #[trigger] attended_rows(mask)[k],
        forall|i: int| 0 <= i < mask.len() ==> (#[trigger] attended_rows(mask).contains(i) <==> mask[i] == 1),
    decreases mask.len(),
{
    if mask.len() > 0 {
        let prev = mask.drop_last();
        let rows = attended_rows(mask);
        let before = attended_rows(prev);
        lemma_attended_rows_are_the_attended_tokens(prev);
        assert forall|i: int| 0 <= i < mask.len() implies (#[trigger] rows.contains(i) <==> mask[i] == 1) by {
            if i < mask.len() - 1 {
                assert(mask[i] == prev[i]);
                if rows.contains(i) {
                    let j = choose|j: int| 0 <= j < rows.len() && rows[j] == i;
                    if j < before.len() {
                        assert(rows[j] == before[j]);
                        assert(before.contains(i));
                    }
                }
                if before.contains(i) {
                    let j = choose|j: int| 0 <= j < before.len() && before[j] == i;
                    assert(rows[j] == before[j]);
                    assert(rows.contains(i));
                }
            } else {
                if mask.last() == 1 {
                    assert(rows[rows.len() - 1] == i);
                    assert(rows.contains(i));
                } else {
                    assert(rows == before);
                    if rows.contains(i) {
                        let j = choose|j: int| 0 <= j < rows.len() && rows[j] == i;
                        assert(before[j] < prev.len());
                    }
                }
            }
        }
        assert forall|j: int| 0 <= j < rows.len() implies {
            &&& 0 <= #[trigger] rows[j] < mask.len()
            &&& mask[rows[j]] == 1
        } by {
            if j < before.len() {
                assert(rows[j] == before[j]);
                assert(mask[before[j]] == prev[before[j]]);
            }
        }
        assert forall|j: int, k: int| 0 <= j < k < rows.len() implies #[trigger] rows[j] < #[trigger] rows[k] by {
            assert(rows[j] == before[j]);
            if k < before.len() {
                assert(rows[k] == before[k]);
            }
        }
    }
}

/// The token rows whose embeddings a pooling reads: the first token for `CLS`,
/// every attended token for `Mean` (their mean), the last attended one for `Last`.
pub open spec fn pooled_rows(strategy: PoolingStrategy, mask: Seq<u32>, seq_len: nat) -> Seq<int> {
    match strategy {
        PoolingStrategy::CLS => seq![0int],
        PoolingStrategy::Mean => attended_rows(mask),
        PoolingStrategy::Last => seq![last_attended_spec(mask, seq_len)],
    }
}

/// The token rows whose embeddings the pooling reads, for `seq_len` tokens
/// with the given attention mask.
pub fn pooling_rows(strategy: PoolingStrategy, mask: &[u32], seq_len: usize) -> (r: Vec<usize>)
    requires
        strategy == PoolingStrategy::Last ==> seq_len > 0,
    ensures
        r@.map_values(|row: usize| row as int) == pooled_rows(strategy, mask@, seq_len as nat),
        strategy == PoolingStrategy::CLS ==> r@ == seq![0usize],
        strategy == PoolingStrategy::Mean ==> {
            &&& forall|j: int| 0 <= j < r@.len() ==> #[trigger] r@[j] < mask@.len() && mask@[r@[j] as int] == 1
            &&& forall|j: int, k: int| 0 <= j < k < r@.len() ==> #[trigger] r@[j] < #[trigger] r@[k]
            &&& forall|i: int| 0 <= i < mask@.len() && mask@[i] == 1
                ==> exists|j: int| 0 <= j < r@.len() && #[trigger] r@[j] == i
        },
        strategy == PoolingStrategy::Last ==> r@.len() == 1 && r@[0] == last_attended_spec(mask@, seq_len as nat),
{
    let mut rows: Vec<usize> = Vec::new();
    match strategy {
        PoolingStrategy::CLS => {
            rows.push(0);
        },
        PoolingStrategy::Last => {
            rows.push(last_attended_index(mask, seq_len));
        },
        PoolingStrategy::Mean => {
            let mut i: usize = 0;
            assert(mask@.take(0) =~= Seq::<u32>::empty());
            while i < mask.len()
                invariant
                    i <= mask@.len(),
                    rows@.map_values(|row: usize| row as int) == attended_rows(mask@.take(i as int)),
                decreases mask@.len() - i,
            {
                assert(mask@.take(i + 1).drop_last() =~= mask@.take(i as int));
                assert(mask@.take(i + 1).last() == mask@[i as int]);
                let ghost before = rows@;
                if mask[i] == 1 {
                    rows.push(i);
                    assert(rows@.map_values(|row: usize| row as int) =~= before.map_values(|row: usize| row as int).push(i as int));
                }
                i = i + 1;
            }
            assert(mask@.take(i as int) =~= mask@);
        },
    }
    proof {
        let m = rows@.map_values(|row: usize| row as int);
        if strategy != PoolingStrategy::Mean {
            assert(m =~= pooled_rows(strategy, mask@, seq_len as nat));
            assert(m[0] == rows@[0] as int);
        } else {
            lemma_attended_rows_are_the_attended_tokens(mask@);
            assert forall|j: int| 0 <= j < rows@.len()
                implies #[trigger] rows@[j] < mask@.len() && mask@[rows@[j] as int] == 1 by {
                assert(m[j] == rows@[j] as int);
            }
            assert forall|j: int, k: int| 0 <= j < k < rows@.len() implies #[trigger] rows@[j] < #[trigger] rows@[k] by {
                assert(m[j] == rows@[j] as int);
                assert(m[k] == rows@[k] as int);
            }
            assert forall|i: int| 0 <= i < mask@.len() && mask@[i] == 1
                implies exists|j: int| 0 <= j < rows@.len() && #[trigger] rows@[j] == i by {
                assert(attended_rows(mask@).contains(i));
                let j = choose|j: int| 0 <= j < m.len() && m[j] == i;
                assert(m[j] == rows@[j] as int);
            }
        }
    }
    rows
}

/// The span of a model's flat output that holds the embedding of token `row`,
/// `hidden_dim` values per token; `None` where it runs past the `data_len` values.
pub fn row_span(row: usize, hidden_dim: usize, data_len: usize) -> (r: Option<(usize, usize)>)
    ensures
        row * hidden_dim + hidden_dim <= data_len ==> r == Some((
            (row * hidden_dim) as usize,
            (row * hidden_dim + hidden_dim) as usize,
        )),
        row * hidden_dim + hidden_dim > data_len ==> r is None,
{
    if hidden_dim == 0 {
        assert(row * hidden_dim == 0) by (nonlinear_arith)
            requires
                hidden_dim == 0,
        ;
        return Some((0, 0));
    }
    if row > data_len / hidden_dim {
        assert(row * hidden_dim + hidden_dim > data_len) by (nonlinear_arith)
            requires
                hidden_dim > 0,
                row > data_len / hidden_dim,
        ;
        return None;
    }
    assert(row * hidden_dim <= data_len) by (nonlinear_arith)
        requires
            hidden_dim > 0,
            row <= data_len / hidden_dim,
    ;
    let start = row * hidden_dim;
    if hidden_dim > data_len || start > data_len - hidden_dim {
        return None;
    }
    Some((start, start + hidden_dim))
}

/// A text that an enricher derived from a node, to be embedded as an edge of `edge_kind`.
pub struct EnrichmentResult {
    pub edge_kind: String,
    pub text: String,
}

impl EnrichmentResult {
    /// The text `text` for edges of `edge_kind`.
    pub fn new(edge_kind: String, text: String) -> (r: Self)
        ensures
            r.edge_kind == edge_kind,
            r.text == text,
    {
        EnrichmentResult { edge_kind, text }
    }
}

/// Derives texts from a node, for its users to implement.
pub trait Enricher {
    fn enrich(&self, node: &Node) -> Result<Vec<EnrichmentResult>, VecGraphError>;
}

} // verus!
