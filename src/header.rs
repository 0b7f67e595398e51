//! The little-endian integer fields of a model file's hyperparameter header,
//! and the errors of reading and writing them.
use vstd::prelude::*;

verus! {

/// How many file-type codes one quantization version spans.
pub const QUANTIZATION_VERSION_FACTOR: u32 = 1000;

/// Why a hyperparameter header could not be read.
#[derive(Clone, Debug, PartialEq, Eq, Structural)]
pub enum LoadError {
    /// The header ended before all of its fields.
    UnexpectedEof,
    /// A field that counts something held a negative value.
    InvalidIntegerConversion,
    /// The file-type field held a negative value.
    UnsupportedFileType(i32),
    /// The header repeats the vocabulary size, and the two differ.
    VocabularySizeMismatch {
        /// The size given first.
        expected: usize,
        /// The size given again.
        found: i32,
    },
}

/// Why a hyperparameter header could not be written.
#[derive(Clone, Copy, Debug, PartialEq, Eq, Structural)]
pub enum HyperparametersWriteError {
    /// A value does not fit in a signed 32-bit field.
    InvalidIntegerConversion,
}

/// The file type: a weight format code and the quantization version, stored
/// together as `quantization_version * 1000 + format`.
#[derive(Clone, Copy, Debug, Default, PartialEq, Eq, Hash, Structural)]
pub struct FileType {
    /// The weight format code, below 1000.
    pub format: u32,
    /// The quantization version.
    pub quantization_version: u32,
}

impl FileType {
    /// The format code is below the quantization version factor.
    pub open spec fn wf(self) -> bool {
        self.format < QUANTIZATION_VERSION_FACTOR
    }

    /// The stored code of the file type.
    pub open spec fn code(self) -> int {
        self.quantization_version * 1000 + self.format
    }

    /// The file type that a non-negative stored code stands for.
    pub open spec fn of_code(code: int) -> FileType {
        FileType { format: (code % 1000) as u32, quantization_version: (code / 1000) as u32 }
    }

    /// Reads a stored code.
    pub fn from_code(code: i32) -> (r: Result<FileType, LoadError>)
        ensures
            code < 0 ==> r == Err::<FileType, LoadError>(LoadError::UnsupportedFileType(code)),
            code >= 0 ==> r == Ok::<FileType, LoadError>(FileType::of_code(code as int)),
            r matches Ok(t) ==> t.wf(),
    {
        if code < 0 {
            return Err(LoadError::UnsupportedFileType(code));
        }
        let c = code as u32;
        Ok(FileType { format: c % QUANTIZATION_VERSION_FACTOR, quantization_version: c / QUANTIZATION_VERSION_FACTOR })
    }

    /// The stored code, where it fits in a signed 32-bit field.
    pub fn to_code(&self) -> (r: Result<i32, HyperparametersWriteError>)
        requires
            self.wf(),
        ensures
            self.code() <= i32::MAX ==> r == Ok::<i32, HyperparametersWriteError>(
                self.code() as i32,
            ),
            self.code() > i32::MAX ==> r == Err::<i32, HyperparametersWriteError>(
                HyperparametersWriteError::InvalidIntegerConversion,
            ),
    {
        if self.quantization_version > 2_147_483 {
            return Err(HyperparametersWriteError::InvalidIntegerConversion);
        }
        let code = self.quantization_version as u64 * 1000 + self.format as u64;
        if code > 0x7fff_ffff {
            return Err(HyperparametersWriteError::InvalidIntegerConversion);
        }
        Ok(code as i32)
    }
}

/// A stored code gives back the file type it was made from.
pub proof fn lemma_file_type_code_round_trip(t: FileType)
    requires
        t.wf(),
    ensures
        t.code() >= 0,
        FileType::of_code(t.code()) == t,
{
    assert((t.quantization_version * 1000 + t.format) % 1000 == t.format as int) by (nonlinear_arith)
        requires
            t.format < 1000,
    ;
    assert((t.quantization_version * 1000 + t.format) / 1000 == t.quantization_version as int)
        by (nonlinear_arith)
        requires
            t.format < 1000,
    ;
}

/// The signed 32-bit little-endian value at byte `at` of `b`.
pub open spec fn le_i32(b: Seq<u8>, at: int) -> int {
    let u = b[at] + 256 * b[at + 1] + 65536 * b[at + 2] + 16777216 * b[at + 3];
    if u >= 0x8000_0000 {
        u - 0x1_0000_0000
    } else {
        u
    }
}

/// The little-endian bytes of a signed 32-bit value.
pub open spec fn le_bytes(v: i32) -> Seq<u8> {
    let u = if v < 0 {
        v + 0x1_0000_0000
    } else {
        v as int
    };
    seq![
        (u % 256) as u8,
        ((u / 256) % 256) as u8,
        ((u / 65536) % 256) as u8,
        (u / 16777216) as u8,
    ]
}

/// The field at index `i` (each field takes four bytes) as a count: missing and
/// negative fields are errors.
pub open spec fn count_field(b: Seq<u8>, i: nat) -> Result<usize, LoadError> {
    if b.len() < 4 * i + 4 {
        Err(LoadError::UnexpectedEof)
    } else if le_i32(b, 4 * i as int) < 0 {
        Err(LoadError::InvalidIntegerConversion)
    } else {
        Ok(le_i32(b, 4 * i as int) as usize)
    }
}

/// The file type in the field at index `i`.
pub open spec fn file_type_field(b: Seq<u8>, i: nat) -> Result<FileType, LoadError> {
    if b.len() < 4 * i + 4 {
        Err(LoadError::UnexpectedEof)
    } else if le_i32(b, 4 * i as int) < 0 {
        Err(LoadError::UnsupportedFileType(le_i32(b, 4 * i as int) as i32))
    } else {
        Ok(FileType::of_code(le_i32(b, 4 * i as int)))
    }
}

/// Reads the signed 32-bit little-endian field at index `i`.
pub fn read_i32(b: &[u8], i: usize) -> (r: Option<i32>)
    ensures
        r is Some <==> b@.len() >= 4 * i + 4,
        r matches Some(v) ==> v == le_i32(b@, 4 * i),
{
    let len = b.len();
    if i > (usize::MAX - 4) / 4 {
        proof {
            assert(b@.len() == len);
            let m = usize::MAX as int;
            assert(4 * i + 4 > m) by (nonlinear_arith)
                requires
                    i > (m - 4) / 4,
                    m > 4,
            ;
        }
        return None;
    }
    if len < 4 * i + 4 {
        return None;
    }
    let at = 4 * i;
    let u: u64 = b[at] as u64 + 256 * (b[at + 1] as u64) + 65536 * (b[at + 2] as u64) + 16777216 * (
    b[at + 3] as u64);
    if u >= 0x8000_0000 {
        Some((u as i64 - 0x1_0000_0000) as i32)
    } else {
        Some(u as i32)
    }
}

/// Reads the field at index `i` as a count.
pub fn read_count(b: &[u8], i: usize) -> (r: Result<usize, LoadError>)
    ensures
        r == count_field(b@, i as nat),
{
    match read_i32(b, i) {
        None => Err(LoadError::UnexpectedEof),
        Some(v) => if v < 0 {
            Err(LoadError::InvalidIntegerConversion)
        } else {
            Ok(v as usize)
        },
    }
}

/// Reads the field at index `i` as a file type.
pub fn read_file_type(b: &[u8], i: usize) -> (r: Result<FileType, LoadError>)
    ensures
        r == file_type_field(b@, i as nat),
        r matches Ok(t) ==> t.wf(),
{
    match read_i32(b, i) {
        None => Err(LoadError::UnexpectedEof),
        Some(v) => FileType::from_code(v),
    }
}

/// Appends the little-endian bytes of `v`.
pub fn write_i32(out: &mut Vec<u8>, v: i32)
    ensures
        final(out)@ == old(out)@ + le_bytes(v),
        le_i32(final(out)@, old(out)@.len() as int) == v,
{
    let u: u32 = if v < 0 {
        (v as i64 + 0x1_0000_0000) as u32
    } else {
        v as u32
    };
    let b0 = (u % 256) as u8;
    let b1 = ((u / 256) % 256) as u8;
    let b2 = ((u / 65536) % 256) as u8;
    let b3 = (u / 16777216) as u8;
    let ghost start = out@.len() as int;
    out.push(b0);
    out.push(b1);
    out.push(b2);
    out.push(b3);
    proof {
        assert(out@ =~= old(out)@ + le_bytes(v));
        assert(u as int == b0 + 256 * b1 + 65536 * b2 + 16777216 * b3) by (nonlinear_arith)
            requires
                b0 == u % 256,
                b1 == (u / 256) % 256,
                b2 == (u / 65536) % 256,
                b3 == u / 16777216,
                u <= 0xffff_ffff,
        ;
    }
}

/// Appends a count as a signed 32-bit field, where it fits.
pub fn write_count(out: &mut Vec<u8>, n: usize) -> (r: Result<(), HyperparametersWriteError>)
    ensures
        n <= i32::MAX ==> r is Ok && final(out)@ == old(out)@ + le_bytes(n as i32) && le_i32(
            final(out)@,
            old(out)@.len() as int,
        ) == n,
        n > i32::MAX ==> r == Err::<(), HyperparametersWriteError>(
            HyperparametersWriteError::InvalidIntegerConversion,
        ) && final(out)@ == old(out)@,
{
    if n > 0x7fff_ffff {
        return Err(HyperparametersWriteError::InvalidIntegerConversion);
    }
    write_i32(out, n as i32);
    Ok(())
}

} // verus!
