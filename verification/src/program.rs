//! The loader: parses a legacy relocatable-executable header out of a raw
//! byte buffer, trims the image down to the pure code/data bytes, and builds
//! the process startup block written below the load segment.

use vstd::prelude::*;

verus! {

/// Number of bytes occupied by the fixed header fields (magic tag included).
pub const HEADER_LEN: usize = 28;

/// Size in bytes of the process startup block.
pub const PSP_LEN: usize = 256;

/// Byte offset of the program-terminate far pointer inside the startup block.
pub const PSP_TERMINATE_OFFSET: usize = 10;

/// The 16-bit little-endian integer stored at byte offset `i` of `b`.
pub open spec fn le16_at(b: Seq<u8>, i: int) -> u16
    recommends
        0 <= i,
        i + 2 <= b.len(),
{
    (b[i] + b[i + 1] * 256) as u16
}

/// Read the little-endian 16-bit field at byte offset `i`.
fn read_le16(bytes: &[u8], i: usize) -> (r: u16)
    requires
        i + 2 <= bytes@.len(),
    ensures
        r == le16_at(bytes@, i as int),
{
    bytes[i] as u16 + bytes[i + 1] as u16 * 256
}

/// The fixed-offset header fields of a legacy relocatable executable.
/// The first two bytes of the file are a magic tag and are not validated.
#[derive(PartialEq, Eq, Structural, Debug, Clone, Copy)]
pub struct Header {
    pub last_page_bytes: u16,
    pub pages_in_file: u16,
    pub relocations: u16,
    pub header_size: u16,
    pub min_allocation: u16,
    pub max_allocation: u16,
    pub initial_ss: u16,
    pub initial_sp: u16,
    pub checksum: u16,
    pub initial_ip: u16,
    pub initial_cs: u16,
    pub relocation_table: u16,
    pub overlay: u16,
}

/// The header a buffer parses to: each field is the little-endian 16-bit
/// integer at its documented byte offset.
pub open spec fn spec_header(b: Seq<u8>) -> Header
    recommends
        b.len() >= HEADER_LEN,
{
    Header {
        last_page_bytes: le16_at(b, 2),
        pages_in_file: le16_at(b, 4),
        relocations: le16_at(b, 6),
        header_size: le16_at(b, 8),
        min_allocation: le16_at(b, 10),
        max_allocation: le16_at(b, 12),
        initial_ss: le16_at(b, 14),
        initial_sp: le16_at(b, 16),
        checksum: le16_at(b, 18),
        initial_ip: le16_at(b, 20),
        initial_cs: le16_at(b, 22),
        relocation_table: le16_at(b, 24),
        overlay: le16_at(b, 26),
    }
}

impl Header {
    /// Parse the fixed-offset little-endian header fields. Every parsed field
    /// equals the literal little-endian integer at its documented offset.
    pub fn new(bytes: &[u8]) -> (h: Header)
        requires
            bytes@.len() >= HEADER_LEN,
        ensures
            h == spec_header(bytes@),
            h.last_page_bytes == le16_at(bytes@, 2),
            h.pages_in_file == le16_at(bytes@, 4),
            h.relocations == le16_at(bytes@, 6),
            h.header_size == le16_at(bytes@, 8),
            h.min_allocation == le16_at(bytes@, 10),
            h.max_allocation == le16_at(bytes@, 12),
            h.initial_ss == le16_at(bytes@, 14),
            h.initial_sp == le16_at(bytes@, 16),
            h.checksum == le16_at(bytes@, 18),
            h.initial_ip == le16_at(bytes@, 20),
            h.initial_cs == le16_at(bytes@, 22),
            h.relocation_table == le16_at(bytes@, 24),
            h.overlay == le16_at(bytes@, 26),
    {
        Header {
            last_page_bytes: read_le16(bytes, 2),
            pages_in_file: read_le16(bytes, 4),
            relocations: read_le16(bytes, 6),
            header_size: read_le16(bytes, 8),
            min_allocation: read_le16(bytes, 10),
            max_allocation: read_le16(bytes, 12),
            initial_ss: read_le16(bytes, 14),
            initial_sp: read_le16(bytes, 16),
            checksum: read_le16(bytes, 18),
            initial_ip: read_le16(bytes, 20),
            initial_cs: read_le16(bytes, 22),
            relocation_table: read_le16(bytes, 24),
            overlay: read_le16(bytes, 26),
        }
    }
}

/// How loading an executable image can fail.
#[derive(PartialEq, Eq, Structural, Debug, Clone, Copy)]
pub enum LoaderError {
    /// The input is shorter than the header region it declares.
    MalformedHeader,
}

/// Whether a buffer is long enough to hold both the fixed header fields and
/// the full header region it declares (`header_size` units of 16 bytes).
pub open spec fn spec_loadable(b: Seq<u8>) -> bool {
    &&& b.len() >= HEADER_LEN
    &&& 16 * le16_at(b, 8) <= b.len()
}

/// An executable image, loaded once and shared read-only for the session:
/// the parsed header, the chosen load segment, and the code/data image with
/// the header region stripped off.
#[derive(Debug)]
pub struct Program {
    data: Vec<u8>,
    start: u64,
    header: Header,
}

impl Program {
    /// Parse an executable image. Strips `header_size` times 16 bytes from
    /// the front, leaving the pure code/data image to map at the load
    /// segment `start`. Fails exactly when the input is shorter than the
    /// header region. Checksum and relocations are not validated.
    pub fn new(data: Vec<u8>, start: u64) -> (r: Result<Program, LoaderError>)
        ensures
            match r {
                Ok(p) => {
                    &&& spec_loadable(data@)
                    &&& p.parsed_header() == spec_header(data@)
                    &&& p.load_segment() == start
                    &&& p.image_bytes() == data@.subrange(16 * le16_at(data@, 8), data@.len() as int)
                },
                Err(e) => !spec_loadable(data@) && e == LoaderError::MalformedHeader,
            },
    {
        let mut data = data;
        if data.len() < HEADER_LEN {
            return Err(LoaderError::MalformedHeader);
        }
        let header = Header::new(data.as_slice());
        let strip: usize = header.header_size as usize * 16;
        if strip > data.len() {
            return Err(LoaderError::MalformedHeader);
        }
        let image = data.split_off(strip);
        Ok(Program { data: image, start, header })
    }

    /// The image bytes with the header region stripped.
    pub closed spec fn image_bytes(&self) -> Seq<u8> {
        self.data@
    }

    /// The load segment chosen for the session.
    pub closed spec fn load_segment(&self) -> u64 {
        self.start
    }

    /// The parsed header.
    pub closed spec fn parsed_header(&self) -> Header {
        self.header
    }

    /// The load segment the image maps at.
    pub fn start(&self) -> (r: u64)
        ensures
            r == self.load_segment(),
    {
        self.start
    }

    /// The parsed header fields.
    pub fn header(&self) -> (r: &Header)
        ensures
            *r == self.parsed_header(),
    {
        &self.header
    }

    /// The trimmed code/data image.
    pub fn image(&self) -> (r: &Vec<u8>)
        ensures
            r@ == self.image_bytes(),
    {
        &self.data
    }
}

/// The process startup block: a fixed-size control block written to the 256
/// bytes immediately preceding the load segment before execution starts. Its
/// layout is a fixed binary contract the running program may read: a
/// terminate instruction at offset 0, a 5-byte service-dispatch field at
/// offset 5, and a program-terminate far pointer at offset 10.
pub struct PSP {
    pub terminate: u32,
    pub dispatch: [u8; 5],
}

/// The byte stored at offset `i` of a startup block's fixed layout.
pub open spec fn psp_byte(p: PSP, i: int) -> u8
    recommends
        0 <= i < PSP_LEN,
{
    if i == 0 {
        0xCD
    } else if i == 1 {
        0x20
    } else if 5 <= i < 10 {
        p.dispatch@[i - 5]
    } else if i == 10 {
        (p.terminate % 256) as u8
    } else if i == 11 {
        ((p.terminate / 256) % 256) as u8
    } else if i == 12 {
        ((p.terminate / 65536) % 256) as u8
    } else if i == 13 {
        ((p.terminate / 16777216) % 256) as u8
    } else {
        0
    }
}

impl PSP {
    pub fn new(terminate: u32, dispatch: [u8; 5]) -> (r: PSP)
        ensures
            r.terminate == terminate,
            r.dispatch@ == dispatch@,
    {
        PSP { terminate, dispatch }
    }

    /// Serialize the block to its fixed 256-byte layout. The terminate far
    /// pointer sits little-endian at its documented offset.
    pub fn to_bytes(&self) -> (r: Vec<u8>)
        ensures
            r@.len() == PSP_LEN,
            forall|i: int| 0 <= i < PSP_LEN ==> r@[i] == psp_byte(*self, i),
            r@[10] == (self.terminate % 256) as u8,
            r@[11] == ((self.terminate / 256) % 256) as u8,
            r@[12] == ((self.terminate / 65536) % 256) as u8,
            r@[13] == ((self.terminate / 16777216) % 256) as u8,
    {
        let mut out: Vec<u8> = Vec::new();
        let mut i: usize = 0;
        while i < PSP_LEN
            invariant
                i <= PSP_LEN,
                out@.len() == i,
                forall|j: int| 0 <= j < i ==> out@[j] == psp_byte(*self, j),
            decreases PSP_LEN - i,
        {
            let b: u8 = if i == 0 {
                0xCD
            } else if i == 1 {
                0x20
            } else if 5 <= i && i < 10 {
                self.dispatch[i - 5]
            } else if i == 10 {
                (self.terminate % 256) as u8
            } else if i == 11 {
                ((self.terminate / 256) % 256) as u8
            } else if i == 12 {
                ((self.terminate / 65536) % 256) as u8
            } else if i == 13 {
                ((self.terminate / 16777216) % 256) as u8
            } else {
                0
            };
            out.push(b);
            i = i + 1;
        }
        proof {
            assert(out@[10] == psp_byte(*self, 10));
            assert(out@[11] == psp_byte(*self, 11));
            assert(out@[12] == psp_byte(*self, 12));
            assert(out@[13] == psp_byte(*self, 13));
        }
        out
    }
}

} // verus!
