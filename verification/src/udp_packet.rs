//! The DNS-sized UDP packet buffer: a fixed 512-byte region with a
//! read/write cursor, bounds-checked integer and byte-slice access, and the
//! domain-name codec (length-prefixed labels with compression-pointer
//! decompression and loop protection).

use crate::conversions::{be16, be32};
use vstd::prelude::*;
use vstd::slice::slice_subrange;
use vstd::string::StringSliceAdditionalSpecFns;
use vstd::string::StrSliceExecFns;

verus! {

/// Size in bytes of a DNS UDP packet without size extensions.
pub const UDP_PACKET_MAX_SIZE_BYTES: usize = 512;

/// Largest allowed encoded length of a domain name, terminator included.
pub const NAME_MAX_LENGTH_BYTES: usize = 255;

/// Largest allowed length of a single label of a domain name.
pub const LABEL_MAX_LENGTH_BYTES: usize = 63;

/// Bound on the number of compression-pointer hops a single name may take.
pub const MAX_JUMPS: usize = 10;

/// The ways a domain name can break the constraints of the wire format.
#[derive(Clone, Copy, Debug, PartialEq, Eq, Structural)]
pub enum Malformation {
    /// A label's length exceeds the allowed limit.
    LabelTooLong,
    /// The whole encoded name is too long.
    NameTooLong,
    /// The name holds characters beyond the allowed set.
    InvalidCharset,
}

/// Error type for packet operations.
#[derive(Clone, Copy, Debug, PartialEq, Eq, Structural)]
pub enum UdpPacketError {
    /// A domain name does not conform to the constraints of the format.
    MalformedDomainName { source: Malformation },
    /// Too many compression-pointer hops: the packet is malformed or malicious.
    MaxJumpsExceeded,
    /// A packet access was attempted outside the buffer.
    OutOfBounds { length: usize, index: usize },
    /// A byte sequence could not be rendered as UTF-8 text.
    FromUtf8,
}

/// Specialised result type for packet operations.
pub type Result<T> = core::result::Result<T, UdpPacketError>;

/// A fixed 512-byte packet buffer with a cursor; all bounds-checked reads
/// and writes go through it.
#[derive(Debug, PartialEq)]
pub struct UdpPacket {
    /// The 512 bytes of the packet.
    pub buffer: Vec<u8>,
    /// The cursor: the offset at which the next sequential access happens.
    pub position: usize,
}

impl UdpPacket {
    /// The buffer holds exactly 512 bytes and the cursor stays within them.
    pub open spec fn wf(self) -> bool {
        self.buffer@.len() == 512 && self.position <= 512
    }

    /// A zeroed packet with the cursor at the start.
    pub fn new() -> (r: UdpPacket)
        ensures
            r.wf(),
            r.buffer@ =~= Seq::new(512, |i: int| 0u8),
            r.position == 0,
    {
        let mut buffer: Vec<u8> = Vec::new();
        let mut i: usize = 0;
        while i < UDP_PACKET_MAX_SIZE_BYTES
            invariant
                i <= 512,
                buffer@.len() == i,
                buffer@ =~= Seq::new(i as nat, |j: int| 0u8),
            decreases 512 - i,
        {
            buffer.push(0);
            i = i + 1;
        }
        UdpPacket { buffer, position: 0 }
    }

    /// Reads a big-endian u16 at the cursor and advances it by two bytes;
    /// fails without moving the cursor when fewer than two bytes remain.
    pub fn read_u16(&mut self) -> (r: Result<u16>)
        requires
            old(self).wf(),
        ensures
            final(self).wf(),
            final(self).buffer == old(self).buffer,
            old(self).position + 2 <= 512 ==> r == Ok::<u16, UdpPacketError>(
                be16(
                    final(self).buffer@[old(self).position as int],
                    final(self).buffer@[old(self).position + 1],
                ),
            ) && final(self).position == old(self).position + 2,
            old(self).position + 2 > 512 ==> r == Err::<u16, UdpPacketError>(
                UdpPacketError::OutOfBounds { length: 512, index: (old(self).position + 1) as usize },
            ) && final(self).position == old(self).position,
    {
        if self.position + 1 >= UDP_PACKET_MAX_SIZE_BYTES {
            return Err(
                UdpPacketError::OutOfBounds {
                    length: UDP_PACKET_MAX_SIZE_BYTES,
                    index: self.position + 1,
                },
            );
        }
        let result = ((self.buffer[self.position] as u16) << 8) | (self.buffer[self.position + 1]
            as u16);
        self.position = self.position + 2;
        Ok(result)
    }

    /// Reads a big-endian u32 at the cursor and advances it by four bytes;
    /// fails without moving the cursor when fewer than four bytes remain.
    pub fn read_u32(&mut self) -> (r: Result<u32>)
        requires
            old(self).wf(),
        ensures
            final(self).wf(),
            final(self).buffer == old(self).buffer,
            old(self).position + 4 <= 512 ==> r == Ok::<u32, UdpPacketError>(
                be32(
                    final(self).buffer@[old(self).position as int],
                    final(self).buffer@[old(self).position + 1],
                    final(self).buffer@[old(self).position + 2],
                    final(self).buffer@[old(self).position + 3],
                ),
            ) && final(self).position == old(self).position + 4,
            old(self).position + 4 > 512 ==> r == Err::<u32, UdpPacketError>(
                UdpPacketError::OutOfBounds { length: 512, index: (old(self).position + 3) as usize },
            ) && final(self).position == old(self).position,
    {
        if self.position + 3 >= UDP_PACKET_MAX_SIZE_BYTES {
            return Err(
                UdpPacketError::OutOfBounds {
                    length: UDP_PACKET_MAX_SIZE_BYTES,
                    index: self.position + 3,
                },
            );
        }
        let ghost p = self.position as int;
        let hi = match self.read_u16() {
            Ok(value) => value,
            Err(error) => {
                return Err(error);
            },
        };
        let lo = match self.read_u16() {
            Ok(value) => value,
            Err(error) => {
                return Err(error);
            },
        };
        let result = ((hi as u32) << 16) | (lo as u32);
        proof {
            crate::conversions::lemma_be32_from_be16(
                self.buffer@[p],
                self.buffer@[p + 1],
                self.buffer@[p + 2],
                self.buffer@[p + 3],
            );
        }
        Ok(result)
    }

    /// Reads a big-endian u64 at the cursor and advances it by eight bytes;
    /// fails without moving the cursor when fewer than eight bytes remain.
    pub fn read_u64(&mut self) -> (r: Result<u64>)
        requires
            old(self).wf(),
        ensures
            final(self).wf(),
            final(self).buffer == old(self).buffer,
            old(self).position + 8 <= 512 ==> r is Ok && r->Ok_0 == spec_be64(
                final(self).buffer@,
                old(self).position as int,
            ) && final(self).position == old(self).position + 8,
            old(self).position + 8 > 512 ==> r == Err::<u64, UdpPacketError>(
                UdpPacketError::OutOfBounds { length: 512, index: (old(self).position + 7) as usize },
            ) && final(self).position == old(self).position,
    {
        if self.position + 7 >= UDP_PACKET_MAX_SIZE_BYTES {
            return Err(
                UdpPacketError::OutOfBounds {
                    length: UDP_PACKET_MAX_SIZE_BYTES,
                    index: self.position + 7,
                },
            );
        }
        let hi = match self.read_u32() {
            Ok(value) => value,
            Err(error) => {
                return Err(error);
            },
        };
        let lo = match self.read_u32() {
            Ok(value) => value,
            Err(error) => {
                return Err(error);
            },
        };
        Ok(((hi as u64) << 32) | (lo as u64))
    }

    /// Reads a big-endian u128 at the cursor and advances it by 16 bytes;
    /// fails without moving the cursor when fewer than 16 bytes remain.
    pub fn read_u128(&mut self) -> (r: Result<u128>)
        requires
            old(self).wf(),
        ensures
            final(self).wf(),
            final(self).buffer == old(self).buffer,
            old(self).position + 16 <= 512 ==> r is Ok && r->Ok_0 == spec_be128(
                final(self).buffer@,
                old(self).position as int,
            ) && final(self).position == old(self).position + 16,
            old(self).position + 16 > 512 ==> r == Err::<u128, UdpPacketError>(
                UdpPacketError::OutOfBounds { length: 512, index: (old(self).position + 15) as usize },
            ) && final(self).position == old(self).position,
    {
        if self.position + 15 >= UDP_PACKET_MAX_SIZE_BYTES {
            return Err(
                UdpPacketError::OutOfBounds {
                    length: UDP_PACKET_MAX_SIZE_BYTES,
                    index: self.position + 15,
                },
            );
        }
        let hi = match self.read_u64() {
            Ok(value) => value,
            Err(error) => {
                return Err(error);
            },
        };
        let lo = match self.read_u64() {
            Ok(value) => value,
            Err(error) => {
                return Err(error);
            },
        };
        Ok(((hi as u128) << 64) | (lo as u128))
    }

    /// Writes a byte slice at the cursor and advances the cursor past it.
    /// Succeeds only when the slice plus `margin` reserved trailing bytes
    /// stay strictly within the buffer; fails with no effect otherwise. The
    /// margin lets a caller reserve room for fields it writes next.
    pub fn write_from_slice(&mut self, slice: &[u8], margin: Option<usize>) -> (r: Result<()>)
        requires
            old(self).wf(),
        ensures
            final(self).wf(),
            old(self).position + slice@.len() + margin_val(margin) < 512 ==> r == Ok::<
                (),
                UdpPacketError,
            >(()) && final(self).position == old(self).position + slice@.len()
                && final(self).buffer@ =~= spliced(
                old(self).buffer@,
                old(self).position as int,
                slice@,
            ),
            old(self).position + slice@.len() + margin_val(margin) >= 512 ==> r == Err::<
                (),
                UdpPacketError,
            >(
                UdpPacketError::OutOfBounds {
                    length: 512,
                    index: oob_index(old(self).position + slice@.len()),
                },
            ) && *final(self) == *old(self),
    {
        let margin = match margin {
            Some(value) => value,
            None => 0,
        };
        let needed = match self.position.checked_add(slice.len()) {
            Some(value) => value,
            None => usize::MAX,
        };
        if needed >= UDP_PACKET_MAX_SIZE_BYTES || margin >= UDP_PACKET_MAX_SIZE_BYTES || needed
            + margin >= UDP_PACKET_MAX_SIZE_BYTES {
            return Err(
                UdpPacketError::OutOfBounds { length: UDP_PACKET_MAX_SIZE_BYTES, index: needed },
            );
        }
        let ghost pos = self.position as int;
        let mut index: usize = 0;
        while index < slice.len()
            invariant
                self.position == pos,
                pos + slice@.len() < 512,
                index <= slice@.len(),
                old(self).buffer@.len() == 512,
                self.buffer@.len() == 512,
                self.buffer@ =~= spliced(old(self).buffer@, pos, slice@.take(index as int)),
            decreases slice@.len() - index,
        {
            let value = slice[index];
            self.buffer[self.position + index] = value;
            index = index + 1;
        }
        proof {
            assert(slice@.take(slice@.len() as int) =~= slice@);
        }
        self.position = self.position + slice.len();
        Ok(())
    }

    /// Returns the `length` bytes starting at `start` without moving the
    /// cursor; fails when the range does not stay strictly within the buffer.
    pub fn read_to_slice(&self, start: usize, length: usize) -> (r: Result<&[u8]>)
        requires
            self.wf(),
        ensures
            start + length < 512 ==> r is Ok && r->Ok_0@ =~= self.buffer@.subrange(
                start as int,
                start + length,
            ),
            start + length >= 512 ==> r == Err::<&[u8], UdpPacketError>(
                UdpPacketError::OutOfBounds { length: 512, index: oob_index(start + length) },
            ),
    {
        let needed = match start.checked_add(length) {
            Some(value) => value,
            None => usize::MAX,
        };
        if needed >= UDP_PACKET_MAX_SIZE_BYTES {
            return Err(
                UdpPacketError::OutOfBounds { length: UDP_PACKET_MAX_SIZE_BYTES, index: needed },
            );
        }
        Ok(slice_subrange(self.buffer.as_slice(), start, start + length))
    }
}

/// The index reported by a failed access: the end of the attempted range,
/// clamped to the largest representable value.
pub open spec fn oob_index(total: int) -> usize {
    if total <= usize::MAX {
        total as usize
    } else {
        usize::MAX
    }
}

/// The margin a caller asked for: zero when none was given.
pub open spec fn margin_val(margin: Option<usize>) -> int {
    match margin {
        Some(value) => value as int,
        None => 0,
    }
}

/// The buffer `buf` with the bytes starting at `at` replaced by `data`.
pub open spec fn spliced(buf: Seq<u8>, at: int, data: Seq<u8>) -> Seq<u8> {
    buf.take(at) + data + buf.skip(at + data.len())
}

/// The big-endian u64 denoted by the eight bytes of `buf` starting at `pos`.
pub open spec fn spec_be64(buf: Seq<u8>, pos: int) -> u64 {
    ((be32(buf[pos], buf[pos + 1], buf[pos + 2], buf[pos + 3]) as u64) << 32) | (be32(
        buf[pos + 4],
        buf[pos + 5],
        buf[pos + 6],
        buf[pos + 7],
    ) as u64)
}

/// The big-endian u128 denoted by the 16 bytes of `buf` starting at `pos`.
pub open spec fn spec_be128(buf: Seq<u8>, pos: int) -> u128 {
    ((spec_be64(buf, pos) as u128) << 64) | (spec_be64(buf, pos + 8) as u128)
}


/// The wire form of a domain name: length-prefixed labels terminated by a
/// zero byte. Each label is at most 63 bytes and the whole encoding at most
/// 255 bytes; the stored form never holds compression pointers (those are a
/// decoding-time transient).
#[derive(Debug, Default, PartialEq)]
pub struct DomainName {
    /// The encoded bytes: (length, label) pairs ending with a zero byte.
    pub bytes: Vec<u8>,
}

/// A length-prefixed string as some record types carry it: a length byte
/// followed by that many bytes of content.
#[derive(Debug, Default, PartialEq)]
pub struct CharacterString {
    /// The declared content length.
    pub length: usize,
    /// The length byte followed by the content bytes.
    pub bytes: Vec<u8>,
}

impl CharacterString {
    /// Builds the length-prefixed form of a string; the length is the
    /// string's byte length.
    pub fn from_str(s: &str) -> (r: CharacterString)
        ensures
            r.bytes@ == s.spec_bytes(),
            r.length == r.bytes@.len(),
    {
        let bytes = s.as_bytes_vec();
        let length = bytes.len();
        CharacterString { length, bytes }
    }
}

/// Whether a byte opens a compression pointer: its top two bits are set.
pub open spec fn is_pointer_byte(b: u8) -> bool {
    b & 0xc0 == 0xc0
}

/// The absolute buffer offset a two-byte compression pointer names: the low
/// six bits of the first byte followed by the second byte.
pub open spec fn pointer_offset(b0: u8, b1: u8) -> int {
    be16((b0 & 0x3f) as u8, b1) as int
}

/// What one pass of the name decoder finds from a given start position:
/// the accumulated (length, label) pairs without the terminator, the number
/// of literal bytes consumed before the first compression pointer, and
/// whether any pointer was followed.
#[verifier::ext_equal]
pub struct NameScan {
    /// The (length, label) pairs read, in order, without the terminator.
    pub name: Seq<u8>,
    /// Literal bytes consumed before the first pointer (all of them when no
    /// pointer occurs).
    pub lit: int,
    /// Whether a compression pointer was followed.
    pub jumped: bool,
}

/// The name decoder's walk from `pos` with `jumps` pointer hops already
/// taken: follows pointers, collects labels, and stops at a zero byte.
/// Mirrors, step for step, the checks the executable decoder makes.
pub open spec fn name_scan(buf: Seq<u8>, pos: int, jumps: int) -> Result<NameScan>
    decreases 11 - jumps, 65536 + buf.len() - pos,
        when 0 <= pos && 0 <= jumps <= 11
{
    if pos >= buf.len() {
        Err(UdpPacketError::OutOfBounds { length: buf.len() as usize, index: pos as usize })
    } else if buf[pos] == 0 {
        Ok(NameScan { name: Seq::empty(), lit: 0, jumped: false })
    } else if jumps > 10 {
        Err(UdpPacketError::MaxJumpsExceeded)
    } else if is_pointer_byte(buf[pos]) {
        if pos + 1 >= buf.len() {
            Err(
                UdpPacketError::OutOfBounds {
                    length: buf.len() as usize,
                    index: (pos + 1) as usize,
                },
            )
        } else {
            match name_scan(buf, pointer_offset(buf[pos], buf[pos + 1]), jumps + 1) {
                Ok(s) => Ok(NameScan { name: s.name, lit: 0, jumped: true }),
                Err(e) => Err(e),
            }
        }
    } else if buf[pos] > 63 {
        Err(UdpPacketError::MalformedDomainName { source: Malformation::LabelTooLong })
    } else {
        let len = buf[pos] as int;
        if pos + len + 1 >= buf.len() {
            Err(
                UdpPacketError::OutOfBounds {
                    length: buf.len() as usize,
                    index: (pos + len + 1) as usize,
                },
            )
        } else {
            match name_scan(buf, pos + len + 1, jumps) {
                Ok(s) => Ok(
                    NameScan {
                        name: buf.subrange(pos, pos + len + 1) + s.name,
                        lit: 1 + len + s.lit,
                        jumped: s.jumped,
                    },
                ),
                Err(e) => Err(e),
            }
        }
    }
}

/// The result of decoding a name at `pos`: the decoded wire form
/// (terminator included) and the number of bytes the cursor advances: the
/// full decoded length when no pointer was followed, and the literal bytes
/// before the first pointer plus the pointer's own two bytes otherwise.
pub open spec fn name_decode(buf: Seq<u8>, pos: int) -> Result<(Seq<u8>, int)> {
    match name_scan(buf, pos, 0) {
        Ok(s) => if s.name.len() + 1 > 255 {
            Err(UdpPacketError::MalformedDomainName { source: Malformation::NameTooLong })
        } else {
            Ok(
                (
                    s.name.push(0),
                    if s.jumped {
                        s.lit + 2
                    } else {
                        s.name.len() + 1 as int
                    },
                ),
            )
        },
        Err(e) => Err(e),
    }
}

/// A partial decoder state folded into the scan it still has to do: the
/// labels collected so far, the literal bytes counted so far, and whether a
/// pointer was already followed.
pub open spec fn scan_combine(
    acc: Seq<u8>,
    before: int,
    jumped: bool,
    rest: Result<NameScan>,
) -> Result<NameScan> {
    match rest {
        Ok(s) => Ok(
            NameScan {
                name: acc + s.name,
                lit: if jumped {
                    before
                } else {
                    before + s.lit
                },
                jumped: jumped || s.jumped,
            },
        ),
        Err(e) => Err(e),
    }
}

impl UdpPacket {
    /// Writes a domain name's encoded bytes at the cursor, reserving
    /// `margin` trailing bytes, exactly as `write_from_slice` does.
    pub fn write_domain_name(&mut self, domain_name: &DomainName, margin: Option<usize>) -> (r:
        Result<()>)
        requires
            old(self).wf(),
        ensures
            final(self).wf(),
            old(self).position + domain_name.bytes@.len() + margin_val(margin) < 512 ==> r == Ok::<
                (),
                UdpPacketError,
            >(()) && final(self).position == old(self).position + domain_name.bytes@.len()
                && final(self).buffer@ =~= spliced(
                old(self).buffer@,
                old(self).position as int,
                domain_name.bytes@,
            ),
            old(self).position + domain_name.bytes@.len() + margin_val(margin) >= 512 ==> r
                == Err::<(), UdpPacketError>(
                UdpPacketError::OutOfBounds {
                    length: 512,
                    index: oob_index(old(self).position + domain_name.bytes@.len()),
                },
            ) && *final(self) == *old(self),
    {
        self.write_from_slice(domain_name.bytes.as_slice(), margin)
    }

    /// Decodes a domain name at the cursor, following compression pointers,
    /// and advances the cursor over the name's on-wire footprint: the whole
    /// decoded length when no pointer occurred, else the literal bytes
    /// before the first pointer plus that pointer's two bytes. Fails, with
    /// the cursor unmoved, on an out-of-bounds access, a label length above
    /// 63, more than 10 pointer hops, or a decoded name above 255 bytes.
    pub fn read_domain_name(&mut self) -> (r: Result<DomainName>)
        requires
            old(self).wf(),
        ensures
            final(self).wf(),
            final(self).buffer == old(self).buffer,
            old(self).position <= final(self).position,
            match name_decode(old(self).buffer@, old(self).position as int) {
                Ok(res) => r is Ok && r->Ok_0.bytes@ == res.0 && final(self).position == old(
                    self,
                ).position + res.1,
                Err(e) => r == Err::<DomainName, UdpPacketError>(e) && final(self).position == old(
                    self,
                ).position,
            },
    {
        let ghost buf = old(self).buffer@;
        let ghost pos0 = old(self).position as int;
        let mut values: Vec<u8> = Vec::new();
        let mut num_jumps: usize = 0;
        let mut has_jumped: bool = false;
        let mut position: usize = self.position;
        let mut num_bytes_read_before_jump: usize = 0;
        proof {
            if name_scan(buf, pos0, 0) is Ok {
                let s = name_scan(buf, pos0, 0)->Ok_0;
                assert(NameScan { name: Seq::empty() + s.name, lit: 0 + s.lit, jumped: false
                    || s.jumped } =~= s);
            }
        }
        loop
            invariant
                self.wf(),
                *self == *old(self),
                self.buffer@ == buf,
                pos0 == self.position as int,
                buf.len() == 512,
                num_jumps <= 11,
                position <= 65535,
                !has_jumped ==> num_jumps == 0 && num_bytes_read_before_jump == values@.len()
                    && position == pos0 + values@.len() && position <= 512,
                has_jumped ==> num_jumps >= 1 && pos0 + num_bytes_read_before_jump + 1 < 512,
                name_scan(buf, pos0, 0) == scan_combine(
                    values@,
                    num_bytes_read_before_jump as int,
                    has_jumped,
                    name_scan(buf, position as int, num_jumps as int),
                ),
            ensures
                position < 512,
                buf[position as int] == 0,
            decreases 11 - num_jumps, 65536 + 512 - position,
        {
            if position >= UDP_PACKET_MAX_SIZE_BYTES {
                return Err(UdpPacketError::OutOfBounds { length: 512, index: position });
            }
            let b = self.buffer[position];
            if b == 0 {
                break ;
            }
            if num_jumps > MAX_JUMPS {
                return Err(UdpPacketError::MaxJumpsExceeded);
            }
            if b & 0xc0 == 0xc0 {
                if position + 1 >= UDP_PACKET_MAX_SIZE_BYTES {
                    return Err(
                        UdpPacketError::OutOfBounds { length: 512, index: position + 1 },
                    );
                }
                let offset = (((b & 0x3f) as u16) << 8) | (self.buffer[position + 1] as u16);
                let ghost rest = name_scan(buf, pointer_offset(buf[position as int], buf[
                    position as int + 1]), num_jumps + 1);
                proof {
                    if rest is Ok {
                        let s = rest->Ok_0;
                        let outer = NameScan { name: s.name, lit: 0, jumped: true };
                        assert(values@ + outer.name =~= values@ + s.name);
                    }
                }
                position = offset as usize;
                has_jumped = true;
                num_jumps = num_jumps + 1;
            } else if b > 63 {
                return Err(
                    UdpPacketError::MalformedDomainName { source: Malformation::LabelTooLong },
                );
            } else {
                let length = (b as usize) + 1;
                if position + length >= UDP_PACKET_MAX_SIZE_BYTES {
                    return Err(
                        UdpPacketError::OutOfBounds { length: 512, index: position + length },
                    );
                }
                let ghost acc0 = values@;
                let mut k: usize = 0;
                while k < length
                    invariant
                        k <= length,
                        position + length < 512,
                        self.buffer@ == buf,
                        buf.len() == 512,
                        values@ == acc0 + buf.subrange(position as int, position + k),
                    decreases length - k,
                {
                    let value = self.buffer[position + k];
                    values.push(value);
                    k = k + 1;
                    proof {
                        assert(values@ =~= acc0 + buf.subrange(position as int, position + k));
                    }
                }
                proof {
                    let lab = buf.subrange(position as int, position + length);
                    let rest = name_scan(buf, position + length, num_jumps as int);
                    if rest is Ok {
                        let s = rest->Ok_0;
                        assert(acc0 + (lab + s.name) =~= (acc0 + lab) + s.name);
                    }
                }
                position = position + length;
                if !has_jumped {
                    num_bytes_read_before_jump = num_bytes_read_before_jump + length;
                }
            }
        }
        proof {
            assert(values@ + Seq::<u8>::empty() =~= values@);
        }
        let mut result = values;
        result.push(0);
        if result.len() > NAME_MAX_LENGTH_BYTES {
            return Err(
                UdpPacketError::MalformedDomainName { source: Malformation::NameTooLong },
            );
        }
        if has_jumped {
            self.position = self.position + num_bytes_read_before_jump + 2;
        } else {
            self.position = self.position + result.len();
        }
        Ok(DomainName { bytes: result })
    }

    /// Reads the length-prefixed string at the cursor without moving the
    /// cursor: the byte at the cursor gives the content length, and the
    /// returned bytes hold that length byte and the content.
    pub fn read_character_string(&mut self) -> (r: Result<CharacterString>)
        requires
            old(self).wf(),
        ensures
            *final(self) == *old(self),
            old(self).position < 512 && old(self).position + old(self).buffer@[old(
                self,
            ).position as int] + 1 < 512 ==> r is Ok && r->Ok_0.length == old(self).buffer@[old(
                self,
            ).position as int] && r->Ok_0.bytes@ =~= old(self).buffer@.subrange(
                old(self).position as int,
                old(self).position + old(self).buffer@[old(self).position as int] + 1,
            ),
            old(self).position >= 512 ==> r == Err::<CharacterString, UdpPacketError>(
                UdpPacketError::OutOfBounds { length: 512, index: old(self).position },
            ),
            old(self).position < 512 && old(self).position + old(self).buffer@[old(
                self,
            ).position as int] + 1 >= 512 ==> r == Err::<CharacterString, UdpPacketError>(
                UdpPacketError::OutOfBounds {
                    length: 512,
                    index: (old(self).position + old(self).buffer@[old(self).position as int]
                        + 1) as usize,
                },
            ),
    {
        if self.position >= UDP_PACKET_MAX_SIZE_BYTES {
            return Err(UdpPacketError::OutOfBounds { length: 512, index: self.position });
        }
        let length = self.buffer[self.position] as usize;
        let slice = match self.read_to_slice(self.position, length + 1) {
            Ok(value) => value,
            Err(error) => {
                return Err(error);
            },
        };
        let bytes = vstd::slice::slice_to_vec(slice);
        Ok(CharacterString { length, bytes })
    }
}


/// The index of the first dot in a dotted name, or the length when none
/// occurs.
pub open spec fn first_dot(s: Seq<u8>) -> int
    decreases s.len(),
{
    if s.len() == 0 {
        0
    } else if s[0] == 46 {
        0
    } else {
        1 + first_dot(s.drop_first())
    }
}

/// The wire encoding of a dotted name: each dot-separated label becomes a
/// length byte followed by the label's bytes, and a zero byte terminates
/// the whole name.
pub open spec fn encode_dotted(s: Seq<u8>) -> Seq<u8>
    decreases s.len(),
{
    let d = first_dot(s);
    if 0 <= d < s.len() {
        seq![d as u8] + s.take(d) + encode_dotted(s.skip(d + 1))
    } else {
        seq![s.len() as u8] + s + seq![0u8]
    }
}

/// Every dot-separated label of the name is at most 63 bytes long.
pub open spec fn labels_ok(s: Seq<u8>) -> bool
    decreases s.len(),
{
    let d = first_dot(s);
    if 0 <= d < s.len() {
        d <= 63 && labels_ok(s.skip(d + 1))
    } else {
        s.len() <= 63
    }
}

/// Every dot-separated label of the name is at least one byte long.
pub open spec fn labels_nonempty(s: Seq<u8>) -> bool
    decreases s.len(),
{
    let d = first_dot(s);
    if 0 <= d < s.len() {
        d >= 1 && labels_nonempty(s.skip(d + 1))
    } else {
        s.len() >= 1
    }
}

/// A well-formed stored wire name: (length, label) pairs with each length
/// between 1 and 63, closed by a single zero byte.
pub open spec fn labels_wf(n: Seq<u8>) -> bool
    decreases n.len(),
{
    n.len() > 0 && if n[0] == 0 {
        n.len() == 1
    } else {
        n[0] <= 63 && n[0] + 2 <= n.len() && labels_wf(n.skip(n[0] + 1))
    }
}

/// A wire name the format admits: well-formed labels and at most 255 bytes
/// in all.
pub open spec fn wire_name_wf(n: Seq<u8>) -> bool {
    labels_wf(n) && n.len() <= 255
}

/// The rendering of a stored wire name as text bytes: each label's bytes
/// followed by a dot.
pub open spec fn dotted_bytes(n: Seq<u8>) -> Seq<u8>
    decreases n.len(),
        when labels_wf(n)
{
    if n[0] == 0 {
        Seq::empty()
    } else {
        n.subrange(1, n[0] + 1) + seq![46u8] + dotted_bytes(n.skip(n[0] + 1))
    }
}

/// The first dot lies where the first 46 byte lies: nowhere earlier, and at
/// `d` itself when `d` is within the name.
pub proof fn lemma_first_dot_at(s: Seq<u8>, d: int)
    requires
        0 <= d <= s.len(),
        forall|i: int| 0 <= i < d ==> s[i] != 46,
        d < s.len() ==> s[d] == 46,
    ensures
        first_dot(s) == d,
    decreases d,
{
    if d == 0 {
    } else {
        assert(forall|i: int| 0 <= i < d - 1 ==> s.drop_first()[i] == s[i + 1]);
        lemma_first_dot_at(s.drop_first(), d - 1);
    }
}

impl DomainName {
    /// Encodes a dotted name into its wire form: splits on dots, emits a
    /// length byte before each label's bytes, and closes with a zero byte.
    /// Rejects, before writing anything, a name whose encoded form would
    /// exceed 255 bytes, and a label longer than 63 bytes.
    pub fn from_str(s: &str) -> (r: Result<DomainName>)
        ensures
            s.spec_bytes().len() + 2 > 255 ==> r == Err::<DomainName, UdpPacketError>(
                UdpPacketError::MalformedDomainName { source: Malformation::NameTooLong },
            ),
            s.spec_bytes().len() + 2 <= 255 && !labels_ok(s.spec_bytes()) ==> r == Err::<
                DomainName,
                UdpPacketError,
            >(UdpPacketError::MalformedDomainName { source: Malformation::LabelTooLong }),
            s.spec_bytes().len() + 2 <= 255 && labels_ok(s.spec_bytes()) ==> r is Ok
                && r->Ok_0.bytes@ == encode_dotted(s.spec_bytes()),
    {
        let b = s.as_bytes();
        let ghost sb = s.spec_bytes();
        if b.len() > NAME_MAX_LENGTH_BYTES - 2 {
            return Err(UdpPacketError::MalformedDomainName { source: Malformation::NameTooLong });
        }
        let mut out: Vec<u8> = Vec::new();
        let mut start: usize = 0;
        proof {
            assert(sb.skip(0) =~= sb);
            assert(Seq::<u8>::empty() + encode_dotted(sb) =~= encode_dotted(sb));
        }
        loop
            invariant
                b@ == sb,
                sb == s.spec_bytes(),
                sb.len() + 2 <= 255,
                start <= sb.len(),
                labels_ok(sb) == labels_ok(sb.skip(start as int)),
                encode_dotted(sb) == out@ + encode_dotted(sb.skip(start as int)),
            decreases sb.len() - start,
        {
            let ghost sub = sb.skip(start as int);
            let mut end: usize = start;
            while end < b.len() && b[end] != 46
                invariant
                    b@ == sb,
                    start <= end <= sb.len(),
                    forall|i: int| start <= i < end ==> sb[i] != 46,
                decreases sb.len() - end,
            {
                end = end + 1;
            }
            proof {
                assert(forall|i: int| 0 <= i < end - start ==> sub[i] == sb[start + i]);
                lemma_first_dot_at(sub, end - start);
            }
            let llen = end - start;
            if llen > LABEL_MAX_LENGTH_BYTES {
                proof {
                    assert(!labels_ok(sub));
                }
                return Err(
                    UdpPacketError::MalformedDomainName { source: Malformation::LabelTooLong },
                );
            }
            let ghost out0 = out@;
            out.push(llen as u8);
            let mut k: usize = start;
            while k < end
                invariant
                    b@ == sb,
                    start <= k <= end <= sb.len(),
                    end - start <= 63,
                    out@ == out0 + seq![(end - start) as u8] + sb.subrange(start as int, k as int),
                decreases end - k,
            {
                let value = b[k];
                out.push(value);
                k = k + 1;
                proof {
                    assert(out@ =~= out0 + seq![(end - start) as u8] + sb.subrange(
                        start as int,
                        k as int,
                    ));
                }
            }
            if end == b.len() {
                out.push(0);
                proof {
                    assert(sub =~= sb.subrange(start as int, end as int));
                    assert(encode_dotted(sub) =~= seq![(end - start) as u8] + sub + seq![0u8]);
                    assert(out@ =~= (out0 + encode_dotted(sub)));
                    assert(labels_ok(sub) == (end - start <= 63));
                }
                return Ok(DomainName { bytes: out });
            }
            proof {
                let d = (end - start) as int;
                assert(sub.take(d) =~= sb.subrange(start as int, end as int));
                assert(sub.skip(d + 1) =~= sb.skip(end + 1));
                assert(out@ =~= (out0 + (seq![d as u8] + sub.take(d))));
                assert(encode_dotted(sub) == seq![d as u8] + sub.take(d) + encode_dotted(
                    sb.skip(end + 1),
                ));
                assert(out@ + encode_dotted(sb.skip(end + 1)) =~= out0 + encode_dotted(sub));
            }
            start = end + 1;
        }
    }
}


/// A well-formed wire name ends in its zero terminator.
proof fn lemma_labels_wf_last(n: Seq<u8>)
    requires
        labels_wf(n),
    ensures
        n.len() > 0,
        n[n.len() - 1] == 0,
    decreases n.len(),
{
    if n[0] != 0 {
        lemma_labels_wf_last(n.skip(n[0] + 1));
    }
}

/// Scanning a well-formed wire name that lies whole in the buffer finds
/// exactly its labels, consumes exactly its literal bytes, and follows no
/// pointer.
proof fn lemma_scan_of_wire_name(buf: Seq<u8>, pos: int, n: Seq<u8>, jumps: int)
    requires
        buf.len() == 512,
        labels_wf(n),
        0 <= pos,
        pos + n.len() <= 512,
        0 <= jumps <= 10,
        buf.subrange(pos, pos + n.len()) == n,
    ensures
        name_scan(buf, pos, jumps) == Ok::<NameScan, UdpPacketError>(
            NameScan { name: n.take(n.len() - 1), lit: n.len() - 1, jumped: false },
        ),
    decreases n.len(),
{
    assert(buf[pos] == n[0]);
    if n[0] == 0 {
        assert(n.take(0) =~= Seq::<u8>::empty());
        let s = NameScan { name: Seq::empty(), lit: 0, jumped: false };
        assert(NameScan { name: n.take(n.len() - 1), lit: n.len() - 1, jumped: false } =~= s);
    } else {
        let len = n[0] as int;
        let b = n[0];
        assert(b <= 63 ==> b & 0xc0 != 0xc0) by (bit_vector);
        let rest = n.skip(len + 1);
        assert(buf.subrange(pos + len + 1, pos + len + 1 + rest.len()) =~= rest);
        lemma_scan_of_wire_name(buf, pos + len + 1, rest, jumps);
        assert(buf.subrange(pos, pos + len + 1) =~= n.take(len + 1));
        assert(n.take(len + 1) + rest.take(rest.len() - 1) =~= n.take(n.len() - 1));
        let inner = NameScan {
            name: rest.take(rest.len() - 1),
            lit: rest.len() - 1,
            jumped: false,
        };
        let outer = NameScan {
            name: buf.subrange(pos, pos + len + 1) + inner.name,
            lit: 1 + len + inner.lit,
            jumped: inner.jumped,
        };
        assert(outer =~= NameScan { name: n.take(n.len() - 1), lit: n.len() - 1, jumped: false });
    }
}

/// Name round trip without compression: a wire name the format admits,
/// written anywhere in a buffer, decodes to exactly itself, and the cursor
/// advances over exactly its length.
pub proof fn lemma_name_round_trip(buf: Seq<u8>, pos: int, n: Seq<u8>)
    requires
        buf.len() == 512,
        wire_name_wf(n),
        0 <= pos,
        pos + n.len() <= 512,
        buf.subrange(pos, pos + n.len()) == n,
    ensures
        name_decode(buf, pos) == Ok::<(Seq<u8>, int), UdpPacketError>((n, n.len() as int)),
{
    lemma_scan_of_wire_name(buf, pos, n, 0);
    lemma_labels_wf_last(n);
    assert(n.take(n.len() - 1).push(0) =~= n);
}

/// The encoding of a dotted name whose labels are nonempty and at most 63
/// bytes, and whose encoded form fits in 255 bytes, is a wire name the
/// format admits, two bytes longer than the text.
pub proof fn lemma_encoded_name_wf(s: Seq<u8>)
    requires
        s.len() + 2 <= 255,
        labels_ok(s),
        labels_nonempty(s),
    ensures
        wire_name_wf(encode_dotted(s)),
        encode_dotted(s).len() == s.len() + 2,
    decreases s.len(),
{
    let d = first_dot(s);
    let e = encode_dotted(s);
    if 0 <= d < s.len() {
        let rest = s.skip(d + 1);
        lemma_encoded_name_wf(rest);
        assert(e =~= seq![d as u8] + s.take(d) + encode_dotted(rest));
        assert(e.skip(d + 1) =~= encode_dotted(rest));
        assert(e[0] == d as u8);
    } else {
        assert(e =~= seq![s.len() as u8] + s + seq![0u8]);
        assert(e.skip(s.len() + 1 as int) =~= seq![0u8]);
        assert(labels_wf(seq![0u8]));
    }
}

/// Name round trip from text: a dotted name with nonempty labels of at
/// most 63 bytes whose encoded form fits in 255 bytes, once encoded and
/// written anywhere in a buffer, decodes back to exactly its encoding, and
/// the cursor advances over exactly its length.
pub proof fn lemma_encode_decode_round_trip(buf: Seq<u8>, pos: int, s: Seq<u8>)
    requires
        buf.len() == 512,
        s.len() + 2 <= 255,
        labels_ok(s),
        labels_nonempty(s),
        0 <= pos,
        pos + s.len() + 2 <= 512,
        buf.subrange(pos, pos + s.len() + 2) == encode_dotted(s),
    ensures
        name_decode(buf, pos) == Ok::<(Seq<u8>, int), UdpPacketError>(
            (encode_dotted(s), s.len() + 2 as int),
        ),
{
    lemma_encoded_name_wf(s);
    lemma_name_round_trip(buf, pos, encode_dotted(s));
}

/// Pointer cursor accounting: when a name decodes successfully and its
/// first byte is a compression pointer, the cursor advances by exactly two
/// bytes, whatever the expanded name's length.
pub proof fn lemma_pointer_cursor_accounting(buf: Seq<u8>, pos: int)
    requires
        buf.len() == 512,
        0 <= pos < 512,
        is_pointer_byte(buf[pos]),
        name_decode(buf, pos) is Ok,
    ensures
        name_decode(buf, pos)->Ok_0.1 == 2,
{
    let b = buf[pos];
    assert(b & 0xc0 == 0xc0 ==> b != 0) by (bit_vector);
}

/// Relies on String::from_utf8: it succeeds exactly on valid UTF-8 input
/// and decodes the bytes to the corresponding characters.
#[verifier::external_body]
fn utf8_to_string(bytes: Vec<u8>) -> (r: Option<String>)
    ensures
        r is Some <==> vstd::utf8::valid_utf8(bytes@),
        r is Some ==> r->Some_0@ == vstd::utf8::decode_utf8(bytes@),
{
    String::from_utf8(bytes).ok()
}

impl DomainName {
    /// Decides whether the stored bytes are a well-formed wire name:
    /// (length, label) pairs with lengths between 1 and 63, closed by a
    /// zero byte as the very last byte.
    pub fn is_well_formed(&self) -> (r: bool)
        ensures
            r == labels_wf(self.bytes@),
    {
        let ghost n = self.bytes@;
        let total = self.bytes.len();
        let mut position: usize = 0;
        proof {
            assert(n.skip(0) =~= n);
        }
        loop
            invariant
                n == self.bytes@,
                n.len() == total,
                position <= total,
                labels_wf(n) == (position < total && labels_wf(n.skip(position as int))),
            decreases total - position,
        {
            if position >= total {
                return false;
            }
            let length = self.bytes[position] as usize;
            if length == 0 {
                return position == total - 1;
            }
            if length > LABEL_MAX_LENGTH_BYTES || length + 2 > total - position {
                return false;
            }
            proof {
                assert(n.skip(position as int).skip(n.skip(position as int)[0] + 1) =~= n.skip(
                    position + length + 1,
                ));
            }
            position = position + length + 1;
        }
    }

    /// Renders a stored wire name as text: each label's bytes followed by a
    /// dot, decoded as UTF-8. Fails only when the label bytes are not valid
    /// UTF-8; the stored wire form is unaffected either way.
    pub fn to_dotted_string(&self) -> (r: Result<String>)
        requires
            labels_wf(self.bytes@),
        ensures
            vstd::utf8::valid_utf8(dotted_bytes(self.bytes@)) ==> r is Ok && r->Ok_0@
                == vstd::utf8::decode_utf8(dotted_bytes(self.bytes@)),
            !vstd::utf8::valid_utf8(dotted_bytes(self.bytes@)) ==> r == Err::<
                String,
                UdpPacketError,
            >(UdpPacketError::FromUtf8),
    {
        let ghost n = self.bytes@;
        let total = self.bytes.len();
        let mut out: Vec<u8> = Vec::new();
        let mut position: usize = 0;
        proof {
            assert(n.skip(0) =~= n);
            assert(Seq::<u8>::empty() + dotted_bytes(n) =~= dotted_bytes(n));
        }
        while self.bytes[position] != 0
            invariant
                n == self.bytes@,
                n.len() == total,
                position < n.len(),
                labels_wf(n.skip(position as int)),
                dotted_bytes(n) == out@ + dotted_bytes(n.skip(position as int)),
            decreases n.len() - position,
        {
            let ghost sub = n.skip(position as int);
            let length = self.bytes[position] as usize;
            proof {
                assert(sub[0] == n[position as int]);
                assert(sub[0] != 0 ==> sub[0] + 2 <= sub.len());
                assert(position + length + 2 <= n.len());
            }
            let ghost out0 = out@;
            let mut k: usize = 0;
            while k < length
                invariant
                    n == self.bytes@,
                    n.len() == total,
                    k <= length,
                    position + length + 2 <= n.len(),
                    out@ == out0 + n.subrange(position + 1, position + 1 + k),
                decreases length - k,
            {
                let value = self.bytes[position + 1 + k];
                out.push(value);
                k = k + 1;
                proof {
                    assert(out@ =~= out0 + n.subrange(position + 1, position + 1 + k));
                }
            }
            out.push(46);
            proof {
                assert(sub.subrange(1, sub[0] + 1) =~= n.subrange(position + 1, position + 1
                    + length));
                assert(sub.skip(sub[0] + 1) =~= n.skip(position + length + 1));
                assert(out@ =~= out0 + (sub.subrange(1, sub[0] + 1) + seq![46u8]));
                assert(out@ + dotted_bytes(n.skip(position + length + 1)) =~= out0 + dotted_bytes(
                    sub,
                ));
            }
            position = position + length + 1;
        }
        proof {
            assert(dotted_bytes(n.skip(position as int)) =~= Seq::<u8>::empty());
            assert(out@ =~= dotted_bytes(n));
        }
        match utf8_to_string(out) {
            Some(string) => Ok(string),
            None => Err(UdpPacketError::FromUtf8),
        }
    }
}

} // verus!
