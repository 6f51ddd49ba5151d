//! A Laya row from text: the head, options and state tokenized (the mask
//! token's text scrubbed out first) and laid out by the verified layout.

use vstd::prelude::*;

use crate::laya::{
    capped_options, head_text, option_text, qtype_name, scrub_mask, sequence_from_ids, spec_markers, spec_scrub,
    spec_sequence, vv, LayoutError, Question, SpecialIds,
};
use crate::text::{chars_of, string_of};

verus! {

#[verifier::external_type_specification]
#[verifier::external_body]
pub struct ExTokenizer(tokenizers::Tokenizer);

/// `ids` is a tokenization the tokenizer gave `text`. What the ids are rests
/// on the loaded vocabulary, normaliser and pre-tokenizer, and a model with
/// dropout may give one text several; this only records which text a
/// token list came from.
pub uninterp spec fn is_tokenization(tokenizer: tokenizers::Tokenizer, text: Seq<char>, ids: Seq<u32>) -> bool;

/// The id the tokenizer's vocabulary (added tokens first) gives a token, if
/// it has one.
pub uninterp spec fn vocab_id(tokenizer: tokenizers::Tokenizer, token: Seq<char>) -> Option<u32>;

/// The truncation the tokenizer applies, as (max length, stride), if any.
pub uninterp spec fn truncation_of(tokenizer: tokenizers::Tokenizer) -> Option<(usize, usize)>;

/// A truncation the tokenizer applies without panicking: encoding a single
/// text cuts it to the max length, which must exceed the stride unless it
/// is 0.
pub open spec fn truncation_safe(t: Option<(usize, usize)>) -> bool {
    t matches Some((max_length, stride)) ==> max_length == 0 || stride < max_length
}

/// `tokenizers::Tokenizer::encode(text, false)` followed by
/// `Encoding::get_ids`: a tokenization of `text`, the ids themselves left
/// open. Encoding a single text truncates it with the tokenizer's own
/// parameters, and `Encoding::truncate` panics on a stride not below a
/// nonzero max length, so such a tokenizer is ruled out. The error is a
/// boxed `dyn Error`, carried as its message.
#[verifier::external_body]
fn tokenize(tokenizer: &tokenizers::Tokenizer, text: &str) -> (r: Result<Vec<u32>, String>)
    requires
        truncation_safe(truncation_of(*tokenizer)),
    ensures
        r matches Ok(ids) ==> is_tokenization(*tokenizer, text@, ids@),
{
    match tokenizer.encode(text, false) {
        Ok(encoding) => Ok(encoding.get_ids().to_vec()),
        Err(e) => Err(e.to_string()),
    }
}

/// `tokenizers::Tokenizer::get_truncation`: the max length and stride of
/// the tokenizer's truncation, if it has one.
#[verifier::external_body]
fn truncation(tokenizer: &tokenizers::Tokenizer) -> (r: Option<(usize, usize)>)
    ensures
        r == truncation_of(*tokenizer),
{
    match tokenizer.get_truncation() {
        Some(t) => Some((t.max_length, t.stride)),
        None => None,
    }
}

/// `tokenizers::Tokenizer::token_to_id`: the id the vocabulary gives the
/// token, if any; a lookup in the added vocabulary, then in the model's.
#[verifier::external_body]
fn token_id(tokenizer: &tokenizers::Tokenizer, token: &str) -> (r: Option<u32>)
    ensures
        r == vocab_id(*tokenizer, token@),
{
    tokenizer.token_to_id(token)
}

/// The string the JSON document in `bytes` holds under `key`: `None` unless
/// the bytes parse as JSON, the document is an object and the value under
/// `key` is a string.
pub uninterp spec fn json_str_field(bytes: Seq<u8>, key: Seq<char>) -> Option<Seq<char>>;

/// `serde_json::from_slice::<Value>` followed by `Value[key].as_str()`.
#[verifier::external_body]
fn config_str(bytes: &[u8], key: &str) -> (r: Option<String>)
    ensures
        opt_string(r) == json_str_field(bytes@, key@),
{
    match serde_json::from_slice::<serde_json::Value>(bytes) {
        Ok(v) => match v[key].as_str() {
            Some(s) => Some(s.to_string()),
            None => None,
        },
        Err(_) => None,
    }
}

pub open spec fn opt_string(o: Option<String>) -> Option<Seq<char>> {
    match o {
        Some(s) => Some(s@),
        None => None,
    }
}

/// Why a row could not be built.
#[derive(Debug, Clone)]
pub enum LayaError {
    /// The tokenizer refused a text; its message.
    Tokenizer(String),
    /// The options do not fit the head budget.
    Layout(LayoutError),
    /// The tokenizer's vocabulary lacks this special token.
    MissingToken(String),
}

/// The texts of the four special tokens, as the tokenizer config names them.
#[derive(Debug, Clone)]
pub struct SpecialTokens {
    pub cls: String,
    pub sep: String,
    pub mask: String,
    pub pad: String,
}

/// The token the config names under `key`, else `default`.
pub open spec fn config_token(config: Option<Seq<u8>>, key: Seq<char>, default: Seq<char>) -> Seq<char> {
    match config {
        Some(b) => match json_str_field(b, key) {
            Some(s) => s,
            None => default,
        },
        None => default,
    }
}

pub open spec fn opt_bytes(o: Option<&[u8]>) -> Option<Seq<u8>> {
    match o {
        Some(b) => Some(b@),
        None => None,
    }
}

fn config_token_exec(config: Option<&[u8]>, key: &str, default: &str) -> (r: String)
    ensures
        r@ == config_token(opt_bytes(config), key@, default@),
{
    match config {
        Some(b) => match config_str(b, key) {
            Some(s) => s,
            None => string_of(chars_of(default).as_slice()),
        },
        None => string_of(chars_of(default).as_slice()),
    }
}

/// The special tokens a tokenizer config (the bytes of
/// `tokenizer_config.json`, if there is one) names under `cls_token`,
/// `sep_token`, `mask_token` and `pad_token`; where it names none, the
/// BERT spellings `[CLS]`, `[SEP]`, `[MASK]`, `[PAD]`.
pub fn special_tokens(config: Option<&[u8]>) -> (r: SpecialTokens)
    ensures
        r.cls@ == config_token(opt_bytes(config), "cls_token"@, "[CLS]"@),
        r.sep@ == config_token(opt_bytes(config), "sep_token"@, "[SEP]"@),
        r.mask@ == config_token(opt_bytes(config), "mask_token"@, "[MASK]"@),
        r.pad@ == config_token(opt_bytes(config), "pad_token"@, "[PAD]"@),
{
    SpecialTokens {
        cls: config_token_exec(config, "cls_token", "[CLS]"),
        sep: config_token_exec(config, "sep_token", "[SEP]"),
        mask: config_token_exec(config, "mask_token", "[MASK]"),
        pad: config_token_exec(config, "pad_token", "[PAD]"),
    }
}

/// The id of one special token, or the error that names it.
fn special_id(tokenizer: &tokenizers::Tokenizer, token: &String) -> (r: Result<u32, LayaError>)
    ensures
        vocab_id(*tokenizer, token@) matches Some(id) ==> r == Ok::<u32, LayaError>(id),
        vocab_id(*tokenizer, token@) is None ==> (r matches Err(LayaError::MissingToken(t)) && t@ == token@),
{
    match token_id(tokenizer, token.as_str()) {
        Some(id) => Ok(id),
        None => Err(LayaError::MissingToken(token.clone())),
    }
}

/// The first of cls, sep, mask and pad that the vocabulary lacks.
pub open spec fn first_missing(tokenizer: tokenizers::Tokenizer, tokens: SpecialTokens) -> Option<Seq<char>> {
    if vocab_id(tokenizer, tokens.cls@) is None {
        Some(tokens.cls@)
    } else if vocab_id(tokenizer, tokens.sep@) is None {
        Some(tokens.sep@)
    } else if vocab_id(tokenizer, tokens.mask@) is None {
        Some(tokens.mask@)
    } else if vocab_id(tokenizer, tokens.pad@) is None {
        Some(tokens.pad@)
    } else {
        None
    }
}

/// The special ids the vocabulary gives the four tokens (meaningful when
/// none is missing).
pub open spec fn vocab_ids(tokenizer: tokenizers::Tokenizer, tokens: SpecialTokens) -> SpecialIds {
    SpecialIds {
        cls: vocab_id(tokenizer, tokens.cls@).unwrap(),
        sep: vocab_id(tokenizer, tokens.sep@).unwrap(),
        mask: vocab_id(tokenizer, tokens.mask@).unwrap(),
        pad: vocab_id(tokenizer, tokens.pad@).unwrap(),
    }
}

/// What a Laya row is built with: the tokenizer, its special ids, the mask
/// token's text, and the two length budgets of the model's config.
pub struct LayaEncoder {
    pub tokenizer: tokenizers::Tokenizer,
    pub ids: SpecialIds,
    pub mask_token: String,
    pub max_len: usize,
    pub head_max_len: usize,
}

impl LayaEncoder {
    /// The encoder's tokenizer encodes without panicking.
    pub open spec fn well_formed(&self) -> bool {
        truncation_safe(truncation_of(self.tokenizer))
    }

    /// A tokenization of `text` with the mask token's text scrubbed out.
    pub open spec fn tokenizes(&self, text: Seq<char>, ids: Seq<u32>) -> bool {
        is_tokenization(self.tokenizer, spec_scrub(text, self.mask_token@), ids)
    }

    /// An encoder over `tokenizer` with the config's budgets: the special
    /// tokens are looked up in the tokenizer's vocabulary (cls, sep, mask,
    /// pad in that order) and the first one missing is the error.
    pub fn new(tokenizer: tokenizers::Tokenizer, tokens: &SpecialTokens, max_len: usize, head_max_len: usize) -> (r: Result<
        LayaEncoder,
        LayaError,
    >)
        ensures
            first_missing(tokenizer, *tokens) matches Some(t) ==> (r matches Err(LayaError::MissingToken(m)) && m@ == t),
            first_missing(tokenizer, *tokens) is None ==> (r matches Ok(enc) && enc.tokenizer == tokenizer && enc.ids
                == vocab_ids(tokenizer, *tokens) && enc.mask_token@ == tokens.mask@ && enc.max_len == max_len
                && enc.head_max_len == head_max_len),
    {
        let cls = match special_id(&tokenizer, &tokens.cls) {
            Ok(id) => id,
            Err(e) => return Err(e),
        };
        let sep = match special_id(&tokenizer, &tokens.sep) {
            Ok(id) => id,
            Err(e) => return Err(e),
        };
        let mask = match special_id(&tokenizer, &tokens.mask) {
            Ok(id) => id,
            Err(e) => return Err(e),
        };
        let pad = match special_id(&tokenizer, &tokens.pad) {
            Ok(id) => id,
            Err(e) => return Err(e),
        };
        Ok(LayaEncoder {
            tokenizer,
            ids: SpecialIds { cls, sep, mask, pad },
            mask_token: tokens.mask.clone(),
            max_len,
            head_max_len,
        })
    }

    /// Whether the encoder's tokenizer encodes every text without panicking:
    /// it has no truncation, or one whose stride is below its nonzero max
    /// length (a max length of 0 empties every text instead).
    pub fn encodes_safely(&self) -> (r: bool)
        ensures
            r == self.well_formed(),
    {
        match truncation(&self.tokenizer) {
            Some((max_length, stride)) => max_length == 0 || stride < max_length,
            None => true,
        }
    }

    /// The token ids of `text` with the mask token's text scrubbed out, as
    /// Laya's own runtime does.
    pub fn encode(&self, text: &str) -> (r: Result<Vec<u32>, LayaError>)
        requires
            self.well_formed(),
        ensures
            r matches Ok(ids) ==> self.tokenizes(text@, ids@),
            r matches Err(e) ==> e is Tokenizer,
    {
        let scrubbed = scrub_mask(text, self.mask_token.as_str());
        match tokenize(&self.tokenizer, scrubbed.as_str()) {
            Ok(ids) => Ok(ids),
            Err(e) => Err(LayaError::Tokenizer(e)),
        }
    }

    /// The model's input ids and marker positions for one (state, question)
    /// row: the layout of a tokenization of the head, of each option (cut
    /// to 48 tokens) and of the state, with one marker per option.
    pub fn sequence(&self, state: &str, q: &Question) -> (r: Result<(Vec<u32>, Vec<usize>), LayaError>)
        requires
            self.well_formed(),
            self.head_max_len <= isize::MAX,
            q.options@.len() <= isize::MAX / 49,
        ensures
            r matches Ok((s, m)) ==> {
                &&& m@.len() == q.options@.len()
                &&& exists|h: Seq<u32>, os: Seq<Seq<u32>>, st: Seq<u32>|
                    #![trigger spec_sequence(self.ids, h, capped_options(os), st, self.max_len as int, self.head_max_len as int)]
                    {
                        &&& self.tokenizes(qtype_name(q.qtype) + " question: "@ + q.instructions@, h)
                        &&& os.len() == q.options@.len()
                        &&& forall|i: int| 0 <= i < os.len() ==> self.tokenizes(" "@ + q.options@[i]@, #[trigger] os[i])
                        &&& self.tokenizes(state@, st)
                        &&& s@ == spec_sequence(
                            self.ids,
                            h,
                            capped_options(os),
                            st,
                            self.max_len as int,
                            self.head_max_len as int,
                        )
                        &&& m@ == spec_markers(self.ids, h, capped_options(os), self.max_len as int, self.head_max_len as int)
                    }
            },
            r matches Err(e) ==> (e is Tokenizer || (e matches LayaError::Layout(LayoutError::OptionsExceedHead {
                head_max_len: h,
            }) && h == self.head_max_len)),
            r matches Err(LayaError::Layout(_)) ==> exists|h: Seq<u32>, os: Seq<Seq<u32>>, st: Seq<u32>|
                #![trigger spec_markers(self.ids, h, capped_options(os), self.max_len as int, self.head_max_len as int), self.tokenizes(state@, st)]
                {
                    &&& self.tokenizes(qtype_name(q.qtype) + " question: "@ + q.instructions@, h)
                    &&& os.len() == q.options@.len()
                    &&& forall|i: int| 0 <= i < os.len() ==> self.tokenizes(" "@ + q.options@[i]@, #[trigger] os[i])
                    &&& self.tokenizes(state@, st)
                    &&& spec_markers(self.ids, h, capped_options(os), self.max_len as int, self.head_max_len as int).len()
                        != q.options@.len()
                },
    {
        let head_src = head_text(q);
        let head = match self.encode(head_src.as_str()) {
            Ok(t) => t,
            Err(e) => return Err(e),
        };
        let mut opts: Vec<Vec<u32>> = Vec::new();
        let mut i: usize = 0;
        while i < q.options.len()
            invariant
                self.well_formed(),
                i <= q.options@.len(),
                opts@.len() == i,
                forall|k: int| 0 <= k < i ==> self.tokenizes(" "@ + q.options@[k]@, #[trigger] opts@[k]@),
            decreases q.options@.len() - i,
        {
            let text = option_text(q.options[i].as_str());
            match self.encode(text.as_str()) {
                Ok(t) => opts.push(t),
                Err(e) => return Err(e),
            }
            i = i + 1;
        }
        let st = match self.encode(state) {
            Ok(t) => t,
            Err(e) => return Err(e),
        };
        let ghost hv = head@;
        let ghost ov = vv(opts@);
        let ghost sv = st@;
        match sequence_from_ids(self.ids, head, opts, st.as_slice(), self.max_len, self.head_max_len) {
            Ok((s, m)) => {
                proof {
                    assert(ov.len() == q.options@.len());
                    assert(forall|k: int| 0 <= k < ov.len() ==> ov[k] == opts@[k]@);
                    assert(s@ == spec_sequence(self.ids, hv, capped_options(ov), sv, self.max_len as int, self.head_max_len as int));
                }
                Ok((s, m))
            },
            Err(e) => {
                proof {
                    assert(ov.len() == q.options@.len());
                    assert(forall|k: int| 0 <= k < ov.len() ==> ov[k] == opts@[k]@);
                    assert(spec_markers(self.ids, hv, capped_options(ov), self.max_len as int, self.head_max_len as int).len()
                        != q.options@.len());
                    assert(self.tokenizes(state@, sv));
                }
                Err(LayaError::Layout(e))
            },
        }
    }
}

} // verus!
