//! Datum: a small S-expression text format, read and written by a chain of
//! streaming stages: bytes to scalar values, scalar values to classified
//! characters, characters to tokens, tokens to value trees; and a writer for the
//! way back. Each stage yields a bounded number of outputs per input, and stages
//! compose.
pub mod array;
pub mod ast;
pub mod atom;
pub mod buffer;
pub mod byte_decoder;
pub mod char_classes;
pub mod decoder;
pub mod pipeline;
pub mod pipelines;
pub mod round_trip;
pub mod value_round_trip;
pub mod text;
pub mod token;
pub mod token_core;
pub mod writer;

pub use array::{
    DatumArray, DatumFixedArray, DatumFixedArrayIter, DatumNoRoomError, DatumPushable, DatumTextBuffer,
};
pub use ast::{
    AllocDatumParser, DatumParser, DatumParserFrame, DatumParserStack, DatumValue, FixedDatumParserStack,
    VecDatumParserStack, DATUM_PARSER_MAX_SIZE,
};
pub use atom::{DatumAtom, DatumFloat};
pub use buffer::{DatumBuffer, DatumFixedBuffer};
pub use byte_decoder::{DatumUTF8Decoder, DATUM_UTF8_DECODER_MAX_SIZE};
pub use char_classes::{DatumChar, DatumCharClass};
pub use decoder::{DatumDecoder, DATUM_DECODER_MAX_SIZE};
pub use pipeline::{DatumComposePipe, DatumPipe, DatumPipeExt};
pub use pipelines::{
    datum_byte_to_token_pipeline, datum_byte_to_value_pipeline, datum_char_to_token_pipeline,
    datum_char_to_value_pipeline,
};
pub use token::{DatumPipeTokenizer, DatumStringTokenizer, DatumToken};
pub use token_core::{DatumTokenType, DatumTokenizer, DatumTokenizerAction};
pub use writer::{DatumWriter, DatumWriterState};
