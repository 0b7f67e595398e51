//! The hyperparameter header of a GPT-2 model file.
use vstd::prelude::*;

use crate::header::{
    count_field, file_type_field, le_i32, read_count, read_file_type, read_i32, write_count,
    write_i32, FileType, HyperparametersWriteError, LoadError,
};

verus! {

/// Bytes taken by the header: seven 32-bit fields.
pub const HEADER_LEN: usize = 28;

/// Shape constants of a GPT-2 model.
#[derive(Clone, Copy, Debug, Default, PartialEq, Eq, Structural)]
pub struct Hyperparameters {
    /// Size of the vocabulary.
    pub n_vocab: usize,
    /// Size of the context window.
    pub n_ctx: usize,
    /// Width of the embedding.
    pub n_embd: usize,
    /// Number of attention heads.
    pub n_head: usize,
    /// Number of layers.
    pub n_layer: usize,
    /// Weight format.
    pub file_type: FileType,
}

/// What the header in `b` holds: the vocabulary size, context size, embedding
/// width, head count, layer count and file type, then the vocabulary size again.
/// The first field that is missing or negative decides the error.
pub open spec fn parse_header(b: Seq<u8>) -> Result<Hyperparameters, LoadError> {
    match count_field(b, 0) {
        Err(e) => Err(e),
        Ok(n_vocab) => match count_field(b, 1) {
            Err(e) => Err(e),
            Ok(n_ctx) => match count_field(b, 2) {
                Err(e) => Err(e),
                Ok(n_embd) => match count_field(b, 3) {
                    Err(e) => Err(e),
                    Ok(n_head) => match count_field(b, 4) {
                        Err(e) => Err(e),
                        Ok(n_layer) => match file_type_field(b, 5) {
                            Err(e) => Err(e),
                            Ok(file_type) => if b.len() < 28 {
                                Err(LoadError::UnexpectedEof)
                            } else if le_i32(b, 24) != n_vocab {
                                Err(
                                    LoadError::VocabularySizeMismatch {
                                        expected: n_vocab,
                                        found: le_i32(b, 24) as i32,
                                    },
                                )
                            } else {
                                Ok(Hyperparameters { n_vocab, n_ctx, n_embd, n_head, n_layer, file_type })
                            },
                        },
                    },
                },
            },
        },
    }
}

impl Hyperparameters {
    /// Every count and the file-type code fit in a signed 32-bit field.
    pub open spec fn fits_header(self) -> bool {
        &&& self.n_vocab <= i32::MAX
        &&& self.n_ctx <= i32::MAX
        &&& self.n_embd <= i32::MAX
        &&& self.n_head <= i32::MAX
        &&& self.n_layer <= i32::MAX
        &&& self.file_type.code() <= i32::MAX
    }

    /// Reads the header at the start of `b`; it takes `HEADER_LEN` bytes.
    pub fn read_ggml(b: &[u8]) -> (r: Result<Hyperparameters, LoadError>)
        ensures
            r == parse_header(b@),
            r matches Ok(h) ==> h.file_type.wf(),
    {
        let n_vocab = read_count(b, 0)?;
        let n_ctx = read_count(b, 1)?;
        let n_embd = read_count(b, 2)?;
        let n_head = read_count(b, 3)?;
        let n_layer = read_count(b, 4)?;
        let file_type = read_file_type(b, 5)?;
        let again = match read_i32(b, 6) {
            Some(v) => v,
            None => {
                return Err(LoadError::UnexpectedEof);
            },
        };
        if again < 0 || again as usize != n_vocab {
            return Err(LoadError::VocabularySizeMismatch { expected: n_vocab, found: again });
        }
        Ok(Hyperparameters { n_vocab, n_ctx, n_embd, n_head, n_layer, file_type })
    }

    /// Writes the header, where every value fits its field.
    pub fn write_ggml(&self) -> (r: Result<Vec<u8>, HyperparametersWriteError>)
        requires
            self.file_type.wf(),
        ensures
            r is Ok <==> self.fits_header(),
            r matches Ok(bytes) ==> bytes@.len() == HEADER_LEN && parse_header(bytes@) == Ok::<
                Hyperparameters,
                LoadError,
            >(*self),
    {
        let mut out: Vec<u8> = Vec::new();
        write_count(&mut out, self.n_vocab)?;
        write_count(&mut out, self.n_ctx)?;
        write_count(&mut out, self.n_embd)?;
        write_count(&mut out, self.n_head)?;
        write_count(&mut out, self.n_layer)?;
        let ghost before_code = out@;
        let code = self.file_type.to_code()?;
        write_i32(&mut out, code);
        let ghost before_again = out@;
        write_count(&mut out, self.n_vocab)?;
        proof {
            crate::header::lemma_file_type_code_round_trip(self.file_type);
            let b = out@;
            assert(b.len() == 28);
            assert(b.subrange(0, 24) == before_again);
            assert(b.subrange(0, 20) == before_code);
            assert forall|k: int| 0 <= k < 24 implies b[k] == before_again[k] by {
                assert(b[k] == b.subrange(0, 24)[k]);
            }
            assert forall|k: int| 0 <= k < 20 implies b[k] == before_code[k] by {
                assert(b[k] == b.subrange(0, 24)[k]);
            }
            assert(le_i32(b, 0) == self.n_vocab);
            assert(le_i32(b, 4) == self.n_ctx);
            assert(le_i32(b, 8) == self.n_embd);
            assert(le_i32(b, 12) == self.n_head);
            assert(le_i32(b, 16) == self.n_layer);
            assert(le_i32(b, 20) == code);
            assert(le_i32(b, 24) == self.n_vocab);
        }
        Ok(out)
    }

    /// The size of the vocabulary.
    pub fn n_vocabulary(&self) -> (r: usize)
        ensures
            r == self.n_vocab,
    {
        self.n_vocab
    }

    /// The weight format.
    pub fn file_type(&self) -> (r: Option<FileType>)
        ensures
            r == Some(self.file_type),
    {
        Some(self.file_type)
    }
}

} // verus!
