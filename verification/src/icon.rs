use vstd::prelude::*;

use crate::error::{AppError, IconProblem};

verus! {

/// The little-endian 16-bit number at `offset`.
pub open spec fn le_u16(bytes: Seq<u8>, offset: int) -> int {
    bytes[offset] + bytes[offset + 1] * 0x100
}

/// The little-endian 32-bit number at `offset`.
pub open spec fn le_u32(bytes: Seq<u8>, offset: int) -> int {
    bytes[offset] + bytes[offset + 1] * 0x100 + bytes[offset + 2] * 0x1_0000 + bytes[offset + 3] * 0x100_0000
}

/// Reads the little-endian 16-bit number at `offset`; refuses a file that ends first.
pub fn read_u16(bytes: &[u8], offset: usize) -> (r: Result<u16, AppError>)
    requires
        offset <= usize::MAX - 2,
    ensures
        (r is Ok) <==> offset + 2 <= bytes@.len(),
        r matches Ok(v) ==> v == le_u16(bytes@, offset as int),
        r matches Err(e) ==> e == (AppError::InvalidIcon { reason: IconProblem::UnexpectedEnd { offset } }),
{
    if offset + 2 > bytes.len() {
        return Err(AppError::InvalidIcon { reason: IconProblem::UnexpectedEnd { offset } });
    }
    Ok(bytes[offset] as u16 + bytes[offset + 1] as u16 * 0x100)
}

/// Reads the little-endian 32-bit number at `offset`; refuses a file that ends first.
pub fn read_u32(bytes: &[u8], offset: usize) -> (r: Result<u32, AppError>)
    requires
        offset <= usize::MAX - 4,
    ensures
        (r is Ok) <==> offset + 4 <= bytes@.len(),
        r matches Ok(v) ==> v == le_u32(bytes@, offset as int),
        r matches Err(e) ==> e == (AppError::InvalidIcon { reason: IconProblem::UnexpectedEnd { offset } }),
{
    if offset + 4 > bytes.len() {
        return Err(AppError::InvalidIcon { reason: IconProblem::UnexpectedEnd { offset } });
    }
    Ok(bytes[offset] as u32 + bytes[offset + 1] as u32 * 0x100 + bytes[offset + 2] as u32 * 0x1_0000
        + bytes[offset + 3] as u32 * 0x100_0000)
}

/// The file starts with an icon header: at least six bytes, reserved word 0, type 1.
pub open spec fn has_icon_header(bytes: Seq<u8>) -> bool {
    bytes.len() >= 6 && le_u16(bytes, 0) == 0 && le_u16(bytes, 2) == 1
}

/// The number of images the directory lists.
pub open spec fn image_count(bytes: Seq<u8>) -> int {
    le_u16(bytes, 4)
}

/// The directory lists at least one image and fits in the file.
pub open spec fn has_directory(bytes: Seq<u8>) -> bool {
    image_count(bytes) >= 1 && 6 + image_count(bytes) * 16 <= bytes.len()
}

/// The width of image `i`: its width byte, where 0 stands for 256.
pub open spec fn entry_width(bytes: Seq<u8>, i: int) -> int {
    if bytes[6 + i * 16] == 0 {
        256
    } else {
        bytes[6 + i * 16] as int
    }
}

/// The byte length of image `i`.
pub open spec fn entry_length(bytes: Seq<u8>, i: int) -> int {
    le_u32(bytes, 6 + i * 16 + 8)
}

/// Where image `i` starts in the file.
pub open spec fn entry_offset(bytes: Seq<u8>, i: int) -> int {
    le_u32(bytes, 6 + i * 16 + 12)
}

/// Image `i` lies inside the file.
pub open spec fn entry_inside(bytes: Seq<u8>, i: int) -> bool {
    entry_offset(bytes, i) + entry_length(bytes, i) <= bytes.len()
}

/// How far image `i`'s width is from the wanted size.
pub open spec fn entry_distance(bytes: Seq<u8>, i: int, desired_size: u32) -> int {
    let w = entry_width(bytes, i);
    if w >= desired_size {
        w - desired_size
    } else {
        desired_size - w
    }
}

/// Image `i` is the first of those whose width is closest to the wanted size.
pub open spec fn is_closest_entry(bytes: Seq<u8>, count: int, desired_size: u32, i: int) -> bool {
    &&& 0 <= i < count
    &&& forall|j: int| 0 <= j < i ==> entry_distance(bytes, j, desired_size) > entry_distance(bytes, i, desired_size)
    &&& forall|j: int| i < j < count ==> entry_distance(bytes, j, desired_size) >= entry_distance(bytes, i, desired_size)
}

/// Picks from an icon file the image whose width is closest to `desired_size` (the first
/// such one), after checking the header, the directory and every entry's extent.
pub fn select_icon_image(bytes: &[u8], desired_size: u32) -> (r: Result<&[u8], AppError>)
    ensures
        !has_icon_header(bytes@) ==> r == Err::<&[u8], AppError>(AppError::InvalidIcon { reason: IconProblem::Header }),
        has_icon_header(bytes@) && !has_directory(bytes@) ==> r == Err::<&[u8], AppError>(
            AppError::InvalidIcon {
                reason: IconProblem::Directory { count: image_count(bytes@) as usize, bytes: bytes@.len() as usize },
            },
        ),
        has_icon_header(bytes@) && has_directory(bytes@) ==> match r {
            Err(e) => exists|i: int|
                0 <= i < image_count(bytes@) && !entry_inside(bytes@, i) && (forall|j: int|
                    0 <= j < i ==> entry_inside(bytes@, j)) && e == (AppError::InvalidIcon {
                    reason: IconProblem::EntryOutside {
                        index: i as usize,
                        offset: entry_offset(bytes@, i) as usize,
                        length: entry_length(bytes@, i) as usize,
                    },
                }),
            Ok(image) => (forall|j: int| 0 <= j < image_count(bytes@) ==> entry_inside(bytes@, j)) && exists|i: int|
                is_closest_entry(bytes@, image_count(bytes@), desired_size, i) && image@ == bytes@.subrange(
                    entry_offset(bytes@, i),
                    entry_offset(bytes@, i) + entry_length(bytes@, i),
                ),
        },
{
    if bytes.len() < 6 {
        return Err(AppError::InvalidIcon { reason: IconProblem::Header });
    }
    let reserved = match read_u16(bytes, 0) {
        Ok(v) => v,
        Err(e) => return Err(e),
    };
    let kind = match read_u16(bytes, 2) {
        Ok(v) => v,
        Err(e) => return Err(e),
    };
    if reserved != 0 || kind != 1 {
        return Err(AppError::InvalidIcon { reason: IconProblem::Header });
    }
    let count = match read_u16(bytes, 4) {
        Ok(v) => v as usize,
        Err(e) => return Err(e),
    };
    if count == 0 || 6 + count * 16 > bytes.len() {
        return Err(AppError::InvalidIcon { reason: IconProblem::Directory { count, bytes: bytes.len() } });
    }
    let mut best_index: usize = 0;
    let mut best_distance: u32 = 0;
    let mut best_offset: usize = 0;
    let mut best_length: usize = 0;
    let mut index: usize = 0;
    while index < count
        invariant
            has_icon_header(bytes@),
            has_directory(bytes@),
            count == image_count(bytes@),
            0 <= index <= count,
            forall|j: int| 0 <= j < index ==> entry_inside(bytes@, j),
            index > 0 ==> is_closest_entry(bytes@, index as int, desired_size, best_index as int),
            index > 0 ==> best_distance == entry_distance(bytes@, best_index as int, desired_size),
            index > 0 ==> best_offset == entry_offset(bytes@, best_index as int),
            index > 0 ==> best_length == entry_length(bytes@, best_index as int),
        decreases count - index,
    {
        let entry = 6 + index * 16;
        let width: u32 = if bytes[entry] == 0 {
            256
        } else {
            bytes[entry] as u32
        };
        let length = match read_u32(bytes, entry + 8) {
            Ok(v) => v,
            Err(e) => return Err(e),
        };
        let offset = match read_u32(bytes, entry + 12) {
            Ok(v) => v,
            Err(e) => return Err(e),
        };
        proof {
            assert(length == entry_length(bytes@, index as int));
            assert(offset == entry_offset(bytes@, index as int));
        }
        if offset as u64 + length as u64 > bytes.len() as u64 {
            proof {
                assert(!entry_inside(bytes@, index as int));
            }
            return Err(
                AppError::InvalidIcon {
                    reason: IconProblem::EntryOutside { index, offset: offset as usize, length: length as usize },
                },
            );
        }
        let distance = if width >= desired_size {
            width - desired_size
        } else {
            desired_size - width
        };
        if index == 0 || distance < best_distance {
            best_index = index;
            best_distance = distance;
            best_offset = offset as usize;
            best_length = length as usize;
        }
        index += 1;
    }
    proof {
        assert(entry_inside(bytes@, best_index as int));
    }
    Ok(vstd::slice::slice_subrange(bytes, best_offset, best_offset + best_length))
}

} // verus!
