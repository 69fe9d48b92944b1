//! The embedding encoder: tokenizing a batch of chunks, running the
//! model's forward pass over every chunk in parallel, gathering the
//! per-chunk results back into chunk order, and pooling them into one
//! fixed-width vector.
//!
//! The model and tokenizer are opaque resources of the `candle` and
//! `tokenizers` crates, built by the caller once per process and handed
//! in; this module owns them exclusively for the run. What is verified
//! here is the structure around the calls: the uninitialized-resource
//! error path, that one vector row comes back per chunk and per token,
//! that the per-chunk results land at their own chunk's slot whatever
//! order the parallel passes complete in, and how the pooled shapes
//! follow from the stacked ones.

use crate::chunker::chunk;
use crate::chunker::chunk_texts_vec;
use crate::gather::covers;
use crate::gather::gather_by_index;
use crate::gather::gathered;
use crate::gather::lemma_covers_surjective;
use crate::gather::lemma_value_at;
use crate::gather::slot_tagged;
use rayon::prelude::ParallelIterator;
use rayon::prelude::IndexedParallelIterator;
use rayon::prelude::IntoParallelRefIterator;
use vstd::prelude::*;
use vstd::string::StringExecFns;

verus! {

#[verifier::external_type_specification]
#[verifier::external_body]
pub struct ExTensor(candle_core::Tensor);

#[verifier::external_type_specification]
#[verifier::external_body]
pub struct ExCandleError(candle_core::Error);

#[verifier::external_type_specification]
#[verifier::external_body]
pub struct ExBertModel(candle_transformers::models::bert::BertModel);

#[verifier::external_type_specification]
#[verifier::external_body]
pub struct ExTokenizer(tokenizers::Tokenizer);

/// The dimension sizes of a tensor.
pub uninterp spec fn tensor_shape(t: candle_core::Tensor) -> Seq<usize>;

/// The width of the vectors a model produces per token.
pub uninterp spec fn hidden_size(m: candle_transformers::models::bert::BertModel) -> usize;

/// Whether the tokenizer pads each batch to that batch's longest
/// sequence.
pub uninterp spec fn batch_padding_on(t: tokenizers::Tokenizer) -> bool;

/// Why no embedding came out of a run of the encoder.
#[derive(Clone, Debug)]
pub enum EmbedError {
    /// The encoder was called before model and tokenizer were loaded.
    Uninitialized,
    /// The tokenizer rejected the batch.
    Tokenize { message: String },
    /// A tensor operation or the model's forward pass failed.
    Inference { message: String },
}

/// Relies on tokenizers' Tokenizer::get_padding_mut / with_padding:
/// after the call the tokenizer pads every batch to that batch's longest
/// sequence (not to a fixed global maximum).
#[verifier::external_body]
fn set_batch_padding(tok: &mut tokenizers::Tokenizer)
    ensures
        batch_padding_on(*final(tok)),
{
    if let Some(pp) = tok.get_padding_mut() {
        pp.strategy = tokenizers::PaddingStrategy::BatchLongest;
    } else {
        tok.with_padding(
            Some(
                tokenizers::PaddingParams {
                    strategy: tokenizers::PaddingStrategy::BatchLongest,
                    ..Default::default()
                },
            ),
        );
    }
}

/// Relies on tokenizers' Tokenizer::encode_batch: one encoding per input,
/// in input order; with batch padding on, every encoding of the batch is
/// padded to one common length.
#[verifier::external_body]
fn encode_batch(tok: &tokenizers::Tokenizer, prompts: &Vec<String>) -> (r: Result<
    Vec<Vec<u32>>,
    EmbedError,
>)
    ensures
        r matches Ok(ids) ==> ids@.len() == prompts@.len(),
        r matches Err(e) ==> e is Tokenize,
        batch_padding_on(*tok) ==> (r matches Ok(ids) ==> forall|a: int, b: int|
            0 <= a < ids@.len() && 0 <= b < ids@.len() ==> (#[trigger] ids@[a])@.len() == (
            #[trigger] ids@[b])@.len()),
{
    match tok.encode_batch(prompts.clone(), true) {
        Ok(encs) => Ok(encs.iter().map(|e| e.get_ids().to_vec()).collect()),
        Err(e) => Err(EmbedError::Tokenize { message: e.to_string() }),
    }
}

/// Relies on candle_transformers' BertModel::forward, with candle's
/// Tensor::new, unsqueeze, zeros_like and squeeze around it: one token-id
/// sequence goes through the model and one vector per token comes back,
/// so the result holds one row per token id, each of the model's hidden
/// width.
#[verifier::external_body]
fn forward_chunk(model: &candle_transformers::models::bert::BertModel, ids: &Vec<u32>) -> (r:
    Result<candle_core::Tensor, EmbedError>)
    ensures
        r matches Ok(t) ==> tensor_shape(t) == seq![ids@.len() as usize, hidden_size(*model)],
        r matches Err(e) ==> e is Inference,
{
    let out = candle_core::Tensor::new(ids.as_slice(), &model.device)
        .and_then(|t| t.unsqueeze(0))
        .and_then(|t| Ok((t.zeros_like()?, t)))
        .and_then(|(z, t)| model.forward(&t, &z, None))
        .and_then(|t| t.squeeze(0));
    out.map_err(|e| EmbedError::Inference { message: e.to_string() })
}

/// Relies on candle's Tensor::mean over one dimension: it averages along
/// that dimension and removes it from the shape.
#[verifier::external_body]
fn mean_dim(t: &candle_core::Tensor, dim: usize) -> (r: Result<candle_core::Tensor, EmbedError>)
    ensures
        r matches Ok(m) ==> dim < tensor_shape(*t).len() && tensor_shape(m) == tensor_shape(
            *t,
        ).remove(dim as int),
        r matches Err(e) ==> e is Inference,
{
    t.mean(dim).map_err(|e| EmbedError::Inference { message: e.to_string() })
}

/// Relies on candle's Tensor::stack along a new leading dimension: it
/// takes one or more tensors of one common shape and prepends their
/// count to that shape.
#[verifier::external_body]
fn stack_tensors(ts: &Vec<candle_core::Tensor>) -> (r: Result<candle_core::Tensor, EmbedError>)
    ensures
        r matches Ok(s) ==> ts@.len() > 0 && tensor_shape(s) == tensor_shape(ts@[0]).insert(
            0,
            ts@.len() as usize,
        ),
        r matches Err(e) ==> e is Inference,
{
    candle_core::Tensor::stack(ts.as_slice(), 0).map_err(
        |e| EmbedError::Inference { message: e.to_string() },
    )
}

/// One forward pass for the chunk at slot `i`, tagged with that slot.
fn embed_indexed(
    model: &candle_transformers::models::bert::BertModel,
    i: usize,
    ids: &Vec<u32>,
) -> (r: (usize, Result<candle_core::Tensor, EmbedError>))
    ensures
        r.0 == i,
        r.1 matches Ok(t) ==> tensor_shape(t) == seq![ids@.len() as usize, hidden_size(*model)],
        r.1 matches Err(e) ==> e is Inference,
{
    (i, forward_chunk(model, ids))
}

/// Relies on rayon's parallel iterator: `embed_indexed` is applied to
/// every slot-tagged chunk exactly once, so the collected results carry
/// each slot once, in whatever order the passes completed.
#[verifier::external_body]
fn par_embed(
    model: &candle_transformers::models::bert::BertModel,
    ids: &Vec<Vec<u32>>,
) -> (r: Vec<(usize, Result<candle_core::Tensor, EmbedError>)>)
    ensures
        r@.len() == ids@.len(),
        forall|j: int| 0 <= j < r@.len() ==> (#[trigger] r@[j]).0 < ids@.len(),
        forall|j: int, k: int|
            0 <= j < k < r@.len() ==> (#[trigger] r@[j]).0 != (#[trigger] r@[k]).0,
        forall|j: int|
            0 <= j < r@.len() ==> ((#[trigger] r@[j]).1 matches Ok(t) ==> tensor_shape(t) == seq![
                ids@[r@[j].0 as int]@.len() as usize,
                hidden_size(*model),
            ]),
        forall|j: int|
            0 <= j < r@.len() ==> ((#[trigger] r@[j]).1 matches Err(e) ==> e is Inference),
{
    ids.par_iter().enumerate().map(|(i, chunk_ids)| embed_indexed(model, i, chunk_ids)).collect()
}

/// What a run of the encoder hands back: the stacked per-token vectors
/// of every chunk, or nothing.
pub enum EmbeddingResponse {
    /// One row of per-token vectors per chunk, in chunk order.
    Bert(candle_core::Tensor),
    /// No response; the starting value of a pipeline result.
    Empty,
}

impl EmbeddingResponse {
    /// The single pull-request vector: the per-chunk vectors (each the
    /// mean over its tokens) averaged element-wise over all chunks.
    pub fn to_vec(&self) -> (r: Result<candle_core::Tensor, EmbedError>)
        ensures
            self is Empty ==> r is Err,
            r matches Err(e) ==> e is Inference,
            r matches Ok(v) ==> (self matches EmbeddingResponse::Bert(t) && 1 < tensor_shape(
                *t,
            ).len() && tensor_shape(v) == tensor_shape(*t).remove(1).remove(0)),
    {
        let pooled = match self.to_vec2() {
            Ok(p) => p,
            Err(e) => {
                return Err(e);
            },
        };
        mean_dim(&pooled, 0)
    }

    /// One vector per chunk: the mean over that chunk's tokens.
    pub fn to_vec2(&self) -> (r: Result<candle_core::Tensor, EmbedError>)
        ensures
            self is Empty ==> r is Err,
            r matches Err(e) ==> e is Inference,
            r matches Ok(p) ==> (self matches EmbeddingResponse::Bert(t) && 1 < tensor_shape(
                *t,
            ).len() && tensor_shape(p) == tensor_shape(*t).remove(1)),
    {
        match self {
            EmbeddingResponse::Bert(t) => mean_dim(t, 1),
            EmbeddingResponse::Empty => Err(
                EmbedError::Inference {
                    message: String::from_str("empty response does not have an embedding"),
                },
            ),
        }
    }

    /// The raw stacked tensor, if there is one.
    pub fn to_tensor(&self) -> (r: Option<&candle_core::Tensor>)
        ensures
            r is Some <==> self is Bert,
            self matches EmbeddingResponse::Bert(t) ==> (r matches Some(rt) && *rt == t),
    {
        match self {
            EmbeddingResponse::Bert(t) => Some(t),
            EmbeddingResponse::Empty => None,
        }
    }
}

impl Default for EmbeddingResponse {
    /// The default response is the empty one.
    fn default() -> (r: Self)
        ensures
            r is Empty,
    {
        EmbeddingResponse::Empty
    }
}

/// The encoder's resources: a loaded model and tokenizer, owned
/// exclusively for the run and handed read-only to the inference tasks.
pub struct Bert {
    pub model: Option<candle_transformers::models::bert::BertModel>,
    pub tokenizer: Option<tokenizers::Tokenizer>,
}

impl Bert {
    /// Whether model and tokenizer have been loaded.
    pub open spec fn initialized(&self) -> bool {
        self.model is Some && self.tokenizer is Some
    }

    /// A fresh encoder with nothing loaded.
    pub fn new() -> (b: Bert)
        ensures
            !b.initialized(),
    {
        Bert { model: None, tokenizer: None }
    }

    /// An encoder over an already loaded model and tokenizer.
    pub fn from_parts(
        model: candle_transformers::models::bert::BertModel,
        tokenizer: tokenizers::Tokenizer,
    ) -> (b: Bert)
        ensures
            b.initialized(),
            b.model == Some(model),
    {
        Bert { model: Some(model), tokenizer: Some(tokenizer) }
    }

    /// Embeds a batch of chunk texts: pads and tokenizes them as one
    /// batch, runs the forward passes in parallel with each result
    /// placed at its own chunk's slot, and stacks the per-chunk rows in
    /// chunk order.
    ///
    /// Called before the resources are loaded it fails with the
    /// uninitialized error and changes nothing; otherwise a success
    /// holds one row per prompt, each row as wide as the model's hidden
    /// size.
    #[verifier::loop_isolation(false)]
    pub fn generate_embeddings(&mut self, prompts: &Vec<String>) -> (r: Result<
        EmbeddingResponse,
        EmbedError,
    >)
        ensures
            final(self).model == old(self).model,
            final(self).initialized() == old(self).initialized(),
            !old(self).initialized() ==> (r matches Err(e) && e is Uninitialized && *final(self)
                == *old(self)),
            old(self).initialized() ==> (r matches Err(e) ==> !(e is Uninitialized)),
            r matches Ok(resp) ==> (resp matches EmbeddingResponse::Bert(t) && tensor_shape(
                t,
            ).len() == 3 && tensor_shape(t)[0] == prompts@.len() as usize && tensor_shape(t)[2]
                == hidden_size(old(self).model.unwrap())),
    {
        if self.model.is_none() || self.tokenizer.is_none() {
            return Err(EmbedError::Uninitialized);
        }
        match &mut self.tokenizer {
            Some(tok) => set_batch_padding(tok),
            None => {
                return unreached();
            },
        }
        let encoded = match &self.tokenizer {
            Some(tok) => encode_batch(tok, prompts),
            None => {
                return unreached();
            },
        };
        let ids = match encoded {
            Ok(v) => v,
            Err(e) => {
                return Err(e);
            },
        };
        let model = match &self.model {
            Some(m) => m,
            None => {
                return unreached();
            },
        };
        let ghost m_spec = *model;
        let n = prompts.len();
        let pairs = par_embed(model, &ids);
        let ghost gpairs = pairs@;
        proof {
            assert(covers(gpairs, n as nat));
        }
        let results = match gather_by_index(n, pairs) {
            Some(v) => v,
            None => {
                return unreached();
            },
        };
        proof {
            lemma_covers_surjective(gpairs, n as nat);
            assert forall|i: int|
                0 <= i < n implies (((#[trigger] results@[i]) matches Ok(t) ==> tensor_shape(t)
                == seq![ids@[i]@.len() as usize, hidden_size(m_spec)]) && (results@[i] matches Err(
                e,
            ) ==> e is Inference)) by {
                assert(slot_tagged(gpairs, i));
                let j = choose|j: int| 0 <= j < gpairs.len() && (#[trigger] gpairs[j]).0 == i;
                lemma_value_at(gpairs, n as nat, j);
                assert(results@[i] == gathered(gpairs, n as nat)[i]);
                assert(results@[i] == gpairs[j].1);
            }
        }
        let ghost res0 = results@;
        let mut rest = results;
        let mut tensors: Vec<candle_core::Tensor> = Vec::new();
        while rest.len() > 0
            invariant
                res0.len() == n,
                tensors@.len() + rest@.len() == n,
                rest@ == res0.skip(tensors@.len() as int),
                forall|i: int|
                    0 <= i < n ==> ((#[trigger] res0[i]) matches Ok(t) ==> tensor_shape(t) == seq![
                        ids@[i]@.len() as usize,
                        hidden_size(m_spec),
                    ]),
                forall|i: int| 0 <= i < n ==> ((#[trigger] res0[i]) matches Err(e) ==> e
                    is Inference),
                forall|k: int| 0 <= k < tensors@.len() ==> res0[k] == Ok::<
                    candle_core::Tensor,
                    EmbedError,
                >(#[trigger] tensors@[k]),
            decreases rest@.len(),
        {
            let ghost rest0 = rest@;
            let head = rest.remove(0);
            proof {
                assert(rest0[0] == res0[tensors@.len() as int]);
                assert(rest@ =~= res0.skip(tensors@.len() as int + 1));
            }
            match head {
                Ok(t) => {
                    tensors.push(t);
                },
                Err(e) => {
                    return Err(e);
                },
            }
        }
        match stack_tensors(&tensors) {
            Ok(stacked) => {
                proof {
                    assert(tensors@.len() == n);
                    if n > 0 {
                        assert(res0[0] == Ok::<candle_core::Tensor, EmbedError>(tensors@[0]));
                        assert(tensor_shape(tensors@[0]) == seq![
                            ids@[0]@.len() as usize,
                            hidden_size(m_spec),
                        ]);
                        assert(tensor_shape(stacked) =~= seq![
                            n as usize,
                            ids@[0]@.len() as usize,
                            hidden_size(m_spec),
                        ]);
                    }
                }
                Ok(EmbeddingResponse::Bert(stacked))
            },
            Err(e) => Err(e),
        }
    }
}

impl Default for Bert {
    /// The default encoder has nothing loaded.
    fn default() -> (b: Self)
        ensures
            !b.initialized(),
    {
        Bert::new()
    }
}

/// Embeds an assembled content blob: chunks it under the given token
/// budget and hands the chunk batch to the encoder, yielding the single
/// pull-request vector of the model's hidden width.
pub fn generate_embeddings(bert: &mut Bert, content: &str, max_token: usize) -> (r: Result<
    candle_core::Tensor,
    EmbedError,
>)
    requires
        max_token >= 1,
    ensures
        final(bert).model == old(bert).model,
        (r matches Err(e) && e is Uninitialized) <==> !old(bert).initialized(),
        r matches Ok(v) ==> (tensor_shape(v).len() == 1 && tensor_shape(v)[0] == hidden_size(
            old(bert).model.unwrap(),
        )),
{
    let chunks = chunk(content, max_token);
    let texts = chunk_texts_vec(&chunks);
    let resp = match bert.generate_embeddings(&texts) {
        Ok(resp) => resp,
        Err(e) => {
            return Err(e);
        },
    };
    resp.to_vec()
}

} // verus!
