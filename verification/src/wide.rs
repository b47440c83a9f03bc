use vstd::prelude::*;

use crate::text::chars_of;

verus! {

/// The UTF-16 code units of one character: itself below U+10000, a surrogate pair above.
pub open spec fn utf16_units(c: char) -> Seq<u16> {
    let v = (c as u32) as int;
    if v < 0x10000 {
        seq![v as u16]
    } else {
        let w = v - 0x10000;
        seq![(0xD800 + w / 0x400) as u16, (0xDC00 + w % 0x400) as u16]
    }
}

/// The UTF-16 encoding of a text.
pub open spec fn utf16_of(s: Seq<char>) -> Seq<u16>
    decreases s.len(),
{
    if s.len() == 0 {
        Seq::empty()
    } else {
        utf16_of(s.drop_last()) + utf16_units(s.last())
    }
}

/// The text in UTF-16 code units (`str::encode_utf16`).
pub fn encode_utf16(text: &str) -> (units: Vec<u16>)
    ensures
        units@ == utf16_of(text@),
{
    let chars = chars_of(text);
    let mut units: Vec<u16> = Vec::new();
    let mut i: usize = 0;
    while i < chars.len()
        invariant
            chars@ == text@,
            0 <= i <= chars@.len(),
            units@ == utf16_of(chars@.take(i as int)),
        decreases chars@.len() - i,
    {
        let c = chars[i];
        proof {
            assert(chars@.take(i + 1).drop_last() =~= chars@.take(i as int));
            assert(chars@.take(i + 1).last() == c);
        }
        let v = c as u32;
        if v < 0x10000 {
            units.push(v as u16);
            proof {
                assert(utf16_units(c) =~= seq![v as u16]);
            }
        } else {
            let w = v - 0x10000;
            proof {
                vstd::utf8::char_is_scalar(c);
            }
            let high = (0xD800 + w / 0x400) as u16;
            let low = (0xDC00 + w % 0x400) as u16;
            units.push(high);
            units.push(low);
            proof {
                assert(utf16_units(c) =~= seq![high, low]);
            }
        }
        i += 1;
    }
    proof {
        assert(chars@.take(chars@.len() as int) =~= chars@);
    }
    units
}

/// The text in UTF-16 code units followed by a terminating zero, as Windows takes text.
pub fn wide_string(value: &str) -> (units: Vec<u16>)
    ensures
        units@ == utf16_of(value@).push(0),
{
    let mut units = encode_utf16(value);
    units.push(0);
    units
}

/// Fills a fixed text buffer: as many UTF-16 units of the text as fit before a
/// terminating zero, the zero, and the rest of the buffer as it was.
pub open spec fn spec_copy_wide_text(source: Seq<char>, destination: Seq<u16>) -> Seq<u16> {
    let units = utf16_of(source);
    let room = destination.len() - 1;
    let k = if units.len() <= room { units.len() as int } else { room };
    units.take(k) + seq![0u16] + destination.skip(k + 1)
}

/// Copies text into a fixed, zero-terminated UTF-16 buffer such as a tooltip field,
/// cutting it to fit.
pub fn copy_wide_text(source: &str, destination: &mut [u16])
    requires
        old(destination)@.len() >= 1,
    ensures
        final(destination)@ == spec_copy_wide_text(source@, old(destination)@),
{
    let encoded = encode_utf16(source);
    let room = destination.len() - 1;
    let k = if encoded.len() <= room {
        encoded.len()
    } else {
        room
    };
    let ghost before = destination@;
    let mut i: usize = 0;
    while i < k
        invariant
            0 <= i <= k <= room,
            room == before.len() - 1,
            k <= encoded@.len(),
            destination@.len() == before.len(),
            forall|j: int| 0 <= j < i ==> destination@[j] == encoded@[j],
            forall|j: int| i <= j < before.len() ==> destination@[j] == before[j],
        decreases k - i,
    {
        destination[i] = encoded[i];
        i += 1;
    }
    destination[k] = 0;
    proof {
        assert(destination@ =~= spec_copy_wide_text(source@, before));
    }
}

/// The buffer always ends its text with a zero, at the last place at the latest.
pub proof fn lemma_copied_text_is_terminated(source: Seq<char>, destination: Seq<u16>)
    requires
        destination.len() >= 1,
    ensures
        spec_copy_wide_text(source, destination).len() == destination.len(),
        exists|k: int|
            0 <= k < destination.len() && #[trigger] spec_copy_wide_text(source, destination)[k] == 0 && (k
                == destination.len() - 1 || k == utf16_of(source).len()),
{
    let units = utf16_of(source);
    let room = destination.len() - 1;
    let k = if units.len() <= room { units.len() as int } else { room };
    assert(spec_copy_wide_text(source, destination)[k] == 0);
}

} // verus!
