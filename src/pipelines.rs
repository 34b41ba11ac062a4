//! Ready-made chains of stages.
use vstd::prelude::*;

use crate::ast::{AllocDatumParser, ParserModel};
use crate::byte_decoder::{utf8_initial, DatumUTF8Decoder};
use crate::decoder::{DatumDecoder, DatumDecoderState};
use crate::pipeline::{DatumComposePipe, DatumPipe};
use crate::token::{DatumStringTokenizer, PipeTokenizerModel};
use crate::token_core::{DatumTokenizerState, TokenizerModel};

verus! {

/// Characters to tokens.
pub type DatumCharToTokenPipeline = DatumComposePipe<DatumDecoder, DatumStringTokenizer>;

/// Bytes to tokens.
pub type DatumByteToTokenPipeline = DatumComposePipe<DatumComposePipe<DatumUTF8Decoder, DatumDecoder>, DatumStringTokenizer>;

/// Characters to values.
pub type DatumCharToValuePipeline = DatumComposePipe<DatumCharToTokenPipeline, AllocDatumParser>;

/// Bytes to values.
pub type DatumByteToValuePipeline = DatumComposePipe<DatumByteToTokenPipeline, AllocDatumParser>;

/// The tokenizer stage's state at the start of input.
pub open spec fn tokenizer_start() -> PipeTokenizerModel {
    PipeTokenizerModel {
        buffer: seq![],
        tokenizer: TokenizerModel { state: DatumTokenizerState::Start, error: false },
    }
}

/// The parser's state at the start of input.
pub open spec fn parser_start() -> ParserModel {
    ParserModel { stack: seq![], error: false }
}

/// Byte to token parsing pipeline.
pub fn datum_byte_to_token_pipeline() -> (r: DatumByteToTokenPipeline)
    ensures
        r.wf(),
        r.state() == ((utf8_initial(), DatumDecoderState::Normal), tokenizer_start()),
{
    let utf2chr = DatumComposePipe(DatumUTF8Decoder::new(), DatumDecoder::new());
    DatumComposePipe(utf2chr, DatumStringTokenizer::new())
}

/// Character to token parsing pipeline.
pub fn datum_char_to_token_pipeline() -> (r: DatumCharToTokenPipeline)
    ensures
        r.wf(),
        r.state() == (DatumDecoderState::Normal, tokenizer_start()),
{
    DatumComposePipe(DatumDecoder::new(), DatumStringTokenizer::new())
}

/// Byte to value parsing pipeline.
pub fn datum_byte_to_value_pipeline() -> (r: DatumByteToValuePipeline)
    ensures
        r.wf(),
        r.state() == (((utf8_initial(), DatumDecoderState::Normal), tokenizer_start()), parser_start()),
{
    DatumComposePipe(datum_byte_to_token_pipeline(), AllocDatumParser::new())
}

/// Character to value parsing pipeline.
pub fn datum_char_to_value_pipeline() -> (r: DatumCharToValuePipeline)
    ensures
        r.wf(),
        r.state() == ((DatumDecoderState::Normal, tokenizer_start()), parser_start()),
{
    DatumComposePipe(datum_char_to_token_pipeline(), AllocDatumParser::new())
}

} // verus!
