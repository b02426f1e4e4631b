//! UTF-16 handling for the sandbox configuration file, which is encoded as
//! UTF-16LE: encoding text to code units, packing code units to and from
//! little-endian bytes, and appending text to an existing unit sequence.

use vstd::prelude::*;
use vstd::utf8::char_is_scalar;

verus! {

/// The UTF-16 code units of one character: one unit below 0x10000, a
/// surrogate pair above.
pub open spec fn utf16_units_of(c: char) -> Seq<u16> {
    let v = c as u32;
    if v < 0x10000 {
        seq![v as u16]
    } else {
        seq![
            (0xD800 + ((v - 0x10000) / 0x400)) as u16,
            (0xDC00 + ((v - 0x10000) % 0x400)) as u16,
        ]
    }
}

/// The UTF-16 encoding of a character sequence.
pub open spec fn utf16_of(s: Seq<char>) -> Seq<u16>
    decreases s.len(),
{
    if s.len() == 0 {
        seq![]
    } else {
        utf16_units_of(s[0]) + utf16_of(s.drop_first())
    }
}

/// Encode a string as UTF-16 code units.
pub fn encode_utf16_units(s: &str) -> (r: Vec<u16>)
    ensures
        r@ == utf16_of(s@),
{
    let len = s.unicode_len();
    let mut r: Vec<u16> = Vec::new();
    proof {
        assert(s@.skip(0) =~= s@);
    }
    let mut i: usize = 0;
    while i < len
        invariant
            len == s@.len(),
            i <= len,
            utf16_of(s@) == r@ + utf16_of(s@.skip(i as int)),
        decreases len - i,
    {
        let c = s.get_char(i);
        let v = c as u32;
        proof {
            char_is_scalar(c);
            assert(s@.skip(i as int)[0] == s@[i as int]);
            assert(s@.skip(i as int).drop_first() =~= s@.skip(i as int + 1));
        }
        if v < 0x10000 {
            r.push(v as u16);
        } else {
            let hi = (0xD800 + ((v - 0x10000) / 0x400)) as u16;
            let lo = (0xDC00 + ((v - 0x10000) % 0x400)) as u16;
            r.push(hi);
            r.push(lo);
        }
        proof {
            assert(utf16_of(s@) =~= r@ + utf16_of(s@.skip(i as int + 1)));
        }
        i = i + 1;
    }
    proof {
        assert(s@.skip(len as int) =~= Seq::<char>::empty());
        assert(r@ =~= utf16_of(s@));
    }
    r
}

/// The little-endian bytes of a code-unit sequence: low byte first.
pub open spec fn le_bytes_of(units: Seq<u16>) -> Seq<u8>
    decreases units.len(),
{
    if units.len() == 0 {
        seq![]
    } else {
        seq![(units[0] % 256) as u8, (units[0] / 256) as u8] + le_bytes_of(units.drop_first())
    }
}

/// The code units read from little-endian bytes, two bytes each, low first.
pub open spec fn le_units_of(bytes: Seq<u8>) -> Seq<u16>
    decreases bytes.len(),
{
    if bytes.len() < 2 {
        seq![]
    } else {
        seq![(bytes[0] + 256 * bytes[1]) as u16] + le_units_of(bytes.skip(2))
    }
}

/// Pack code units as UTF-16LE bytes.
pub fn units_to_le_bytes(units: &[u16]) -> (r: Vec<u8>)
    ensures
        r@ == le_bytes_of(units@),
{
    let len = units.len();
    let mut r: Vec<u8> = Vec::new();
    proof {
        assert(units@.skip(0) =~= units@);
    }
    let mut i: usize = 0;
    while i < len
        invariant
            len == units@.len(),
            i <= len,
            le_bytes_of(units@) == r@ + le_bytes_of(units@.skip(i as int)),
        decreases len - i,
    {
        let u = units[i];
        proof {
            assert(units@.skip(i as int)[0] == units@[i as int]);
            assert(units@.skip(i as int).drop_first() =~= units@.skip(i as int + 1));
        }
        r.push((u % 256) as u8);
        r.push((u / 256) as u8);
        proof {
            assert(le_bytes_of(units@) =~= r@ + le_bytes_of(units@.skip(i as int + 1)));
        }
        i = i + 1;
    }
    proof {
        assert(units@.skip(len as int) =~= Seq::<u16>::empty());
        assert(r@ =~= le_bytes_of(units@));
    }
    r
}

/// Read UTF-16LE bytes as code units. A buffer with an odd number of bytes
/// does not hold valid UTF-16LE data and yields nothing.
pub fn units_from_le_bytes(buf: &[u8]) -> (r: Option<Vec<u16>>)
    ensures
        buf@.len() % 2 == 0 ==> (r matches Some(units) && units@ == le_units_of(buf@)),
        buf@.len() % 2 != 0 ==> r is None,
{
    let len = buf.len();
    if len % 2 != 0 {
        return None;
    }
    let mut r: Vec<u16> = Vec::new();
    proof {
        assert(buf@.skip(0) =~= buf@);
    }
    let mut i: usize = 0;
    while i < len
        invariant
            len == buf@.len(),
            len % 2 == 0,
            i <= len,
            i % 2 == 0,
            le_units_of(buf@) == r@ + le_units_of(buf@.skip(i as int)),
        decreases len - i,
    {
        let lo = buf[i];
        let hi = buf[i + 1];
        proof {
            assert(buf@.skip(i as int)[0] == buf@[i as int]);
            assert(buf@.skip(i as int)[1] == buf@[i as int + 1]);
            assert(buf@.skip(i as int).skip(2) =~= buf@.skip(i as int + 2));
        }
        let u = (lo as u16) + 256 * (hi as u16);
        r.push(u);
        proof {
            assert(le_units_of(buf@) =~= r@ + le_units_of(buf@.skip(i as int + 2)));
        }
        i = i + 2;
    }
    proof {
        assert(buf@.skip(len as int) =~= Seq::<u8>::empty());
        assert(r@ =~= le_units_of(buf@));
    }
    Some(r)
}

/// Append the UTF-16 code units of `new_content` to an existing unit
/// sequence: the in-memory step of appending text to a UTF-16LE file.
pub fn append_utf16le(data: &mut Vec<u16>, new_content: &str)
    ensures
        final(data)@ == old(data)@ + utf16_of(new_content@),
{
    let mut units = encode_utf16_units(new_content);
    data.append(&mut units);
}

} // verus!
