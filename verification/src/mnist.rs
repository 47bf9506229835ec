use vstd::prelude::*;
use crate::layer::filled;

verus! {

/// Why the head of a data file was turned down.
#[derive(Clone, Copy, Debug, PartialEq, Eq, Structural)]
pub enum DecodeError {
    /// The file ends before its head does.
    Truncated,
    /// The file does not start with the mark of its kind.
    InvalidData,
    /// The label file does not announce as many items as the image file.
    InvalidInput,
}

/// What the head of an image file announces.
#[derive(Clone, Copy, Debug, PartialEq, Eq, Structural)]
pub struct ImageHeader {
    pub number: u64,
    pub rows: u64,
    pub columns: u64,
}

/// Length in bytes of the head of an image file.
pub const IMAGE_HEAD: usize = 16;

/// Length in bytes of the head of a label file.
pub const LABEL_HEAD: usize = 8;

/// The count that four successive bytes of a head stand for: the last byte
/// counts ones, the third 256s, the second 2^24s and the first 2^48s.
pub open spec fn count_of(b0: u8, b1: u8, b2: u8, b3: u8) -> int {
    ((b0 as int * 0x100_0000 + b1 as int) * 0x1_0000 + b2 as int) * 0x100 + b3 as int
}

/// The count kept in the four bytes of `bytes` that start at `at`.
pub open spec fn count_in(bytes: Seq<u8>, at: int) -> int {
    count_of(bytes[at], bytes[at + 1], bytes[at + 2], bytes[at + 3])
}

/// `bytes` starts with a zero, a zero, an eight and `kind`.
pub open spec fn marked(bytes: Seq<u8>, kind: u8) -> bool {
    bytes.len() >= 4 && bytes[0] == 0 && bytes[1] == 0 && bytes[2] == 8 && bytes[3] == kind
}

/// Reads the count kept in the four bytes of `bytes` that start at `at`.
pub fn count_at(bytes: &[u8], at: usize) -> (count: u64)
    requires
        at + 4 <= bytes@.len(),
    ensures
        count == count_in(bytes@, at as int),
{
    let b0: u64 = bytes[at] as u64;
    let b1: u64 = bytes[at + 1] as u64;
    let b2: u64 = bytes[at + 2] as u64;
    let b3: u64 = bytes[at + 3] as u64;
    ((b0 * 0x100_0000 + b1) * 0x1_0000 + b2) * 0x100 + b3
}

/// Tells whether `bytes` starts with the mark of files of kind `kind`.
pub fn has_mark(bytes: &[u8], kind: u8) -> (yes: bool)
    ensures
        yes == marked(bytes@, kind),
{
    bytes.len() >= 4 && bytes[0] == 0 && bytes[1] == 0 && bytes[2] == 8 && bytes[3] == kind
}

/// Decodes the head of an image file: the mark of kind 3, then the number
/// of images, of rows and of columns.
pub fn image_header(bytes: &[u8]) -> (res: Result<ImageHeader, DecodeError>)
    ensures
        bytes@.len() < IMAGE_HEAD ==> res == Err::<ImageHeader, DecodeError>(DecodeError::Truncated),
        bytes@.len() >= IMAGE_HEAD && !marked(bytes@, 3) ==> res == Err::<ImageHeader, DecodeError>(
            DecodeError::InvalidData,
        ),
        bytes@.len() >= IMAGE_HEAD && marked(bytes@, 3) ==> res == Ok::<ImageHeader, DecodeError>(
            (ImageHeader {
                number: count_in(bytes@, 4) as u64,
                rows: count_in(bytes@, 8) as u64,
                columns: count_in(bytes@, 12) as u64,
            }),
        ),
{
    if bytes.len() < IMAGE_HEAD {
        return Err(DecodeError::Truncated);
    }
    if !has_mark(bytes, 3) {
        return Err(DecodeError::InvalidData);
    }
    Ok(ImageHeader { number: count_at(bytes, 4), rows: count_at(bytes, 8), columns: count_at(bytes, 12) })
}

/// Checks the head of a label file against the number of images: the mark
/// of kind 1, then the number of labels, which must be `number`.
pub fn label_header(bytes: &[u8], number: u64) -> (res: Result<(), DecodeError>)
    ensures
        bytes@.len() < LABEL_HEAD ==> res == Err::<(), DecodeError>(DecodeError::Truncated),
        bytes@.len() >= LABEL_HEAD && !marked(bytes@, 1) ==> res == Err::<(), DecodeError>(
            DecodeError::InvalidData,
        ),
        bytes@.len() >= LABEL_HEAD && marked(bytes@, 1) && count_in(bytes@, 4) != number ==> res == Err::<
            (),
            DecodeError,
        >(DecodeError::InvalidInput),
        bytes@.len() >= LABEL_HEAD && marked(bytes@, 1) && count_in(bytes@, 4) == number ==> res == Ok::<
            (),
            DecodeError,
        >(()),
{
    if bytes.len() < LABEL_HEAD {
        return Err(DecodeError::Truncated);
    }
    if !has_mark(bytes, 1) {
        return Err(DecodeError::InvalidData);
    }
    if count_at(bytes, 4) != number {
        return Err(DecodeError::InvalidInput);
    }
    Ok(())
}

/// The target vector of a label: `classes` entries, `one` at the label's
/// place and `zero` everywhere else.
pub fn one_hot<T: Copy>(label: u8, classes: usize, zero: T, one: T) -> (target: Vec<T>)
    requires
        label < classes,
    ensures
        target@ == Seq::new(classes as nat, |i: int| if i == label { one } else { zero }),
{
    let mut target: Vec<T> = filled(classes, zero);
    target.set(label as usize, one);
    assert(target@ =~= Seq::new(classes as nat, |i: int| if i == label { one } else { zero }));
    target
}

} // verus!
