use byteorder::{ByteOrder, LittleEndian};

use mzdbg::program::{Header, LoaderError, Program, PSP};

#[test]
fn parse_header() {
    let header: [u8; 0x1D] = [
        0x4D, 0x5A, 0x56, 0x00, 0x84, 0x00, 0x00, 0x00, 0x20, 0x00, 0xF9, 0x02, 0xFF, 0xFF, 0x82,
        0x10, 0x80, 0x00, 0x00, 0x00, 0x10, 0x00, 0x2B, 0x10, 0x1E, 0x00, 0x00, 0x00, 0x01,
    ];

    let header = Header::new(&header);

    assert_eq!(header.last_page_bytes, LittleEndian::read_u16(&[0x56, 0x00]));
    assert_eq!(header.pages_in_file, LittleEndian::read_u16(&[0x84, 0x00]));
    assert_eq!(header.relocations, LittleEndian::read_u16(&[0x00, 0x00]));
    assert_eq!(header.header_size, LittleEndian::read_u16(&[0x20, 0x00]));
    assert_eq!(header.min_allocation, LittleEndian::read_u16(&[0xf9, 0x02]));
    assert_eq!(header.max_allocation, LittleEndian::read_u16(&[0xff, 0xff]));
    assert_eq!(header.initial_ss, LittleEndian::read_u16(&[0x82, 0x10]));
    assert_eq!(header.initial_sp, LittleEndian::read_u16(&[0x80, 0x00]));
    assert_eq!(header.checksum, LittleEndian::read_u16(&[0x00, 0x00]));
    assert_eq!(header.initial_ip, LittleEndian::read_u16(&[0x10, 0x00]));
    assert_eq!(header.initial_cs, LittleEndian::read_u16(&[0x2b, 0x10]));
    assert_eq!(header.relocation_table, LittleEndian::read_u16(&[0x1e, 0x00]));
    assert_eq!(header.overlay, LittleEndian::read_u16(&[0x00, 0x00]));
}

/// A minimal valid image: 28 header bytes declaring `header_size` 16-byte
/// units, padded to the header region, followed by the payload.
fn image(header_size: u16, payload: &[u8]) -> Vec<u8> {
    let mut data = vec![0u8; 28];
    data[0] = 0x4D;
    data[1] = 0x5A;
    data[8] = (header_size & 0xff) as u8;
    data[9] = (header_size >> 8) as u8;
    let region = header_size as usize * 16;
    while data.len() < region {
        data.push(0);
    }
    data.extend_from_slice(payload);
    data
}

#[test]
fn loader_strips_header_region() {
    let data = image(2, &[1, 2, 3]);
    let program = Program::new(data, 0x400).unwrap();
    assert_eq!(program.image().as_slice(), &[1, 2, 3]);
    assert_eq!(program.start(), 0x400);
    assert_eq!(program.header().header_size, 2);
}

#[test]
fn loader_rejects_truncated_header() {
    let data = vec![0x4D, 0x5A, 0x00];
    assert_eq!(Program::new(data, 0x400).unwrap_err(), LoaderError::MalformedHeader);
}

#[test]
fn loader_rejects_input_shorter_than_declared_region() {
    // header_size 4 declares a 64-byte region, but only 28 bytes arrive
    let mut data = vec![0u8; 28];
    data[8] = 4;
    assert_eq!(Program::new(data, 0x400).unwrap_err(), LoaderError::MalformedHeader);
}

#[test]
fn header_fields_are_little_endian() {
    let mut bytes = vec![0u8; 28];
    bytes[2] = 0x56; // trailing-page bytes 0x0056
    bytes[20] = 0x10; // initial IP 0x0010
    bytes[22] = 0x2B;
    bytes[23] = 0x10; // initial CS 0x102B
    let h = Header::new(&bytes);
    assert_eq!(h.last_page_bytes, 0x0056);
    assert_eq!(h.initial_ip, 0x0010);
    assert_eq!(h.initial_cs, 0x102B);
}

#[test]
fn psp_layout() {
    let psp = PSP::new(0xDEADBEEF, [9, 8, 7, 6, 5]);
    let bytes = psp.to_bytes();
    assert_eq!(bytes.len(), 256);
    // terminate instruction at the block's start
    assert_eq!(bytes[0], 0xCD);
    assert_eq!(bytes[1], 0x20);
    // service-dispatch field
    assert_eq!(&bytes[5..10], &[9, 8, 7, 6, 5]);
    // terminate far pointer, little-endian, at its fixed offset
    assert_eq!(&bytes[10..14], &[0xEF, 0xBE, 0xAD, 0xDE]);
    // everything else is zero
    assert!(bytes[2..5].iter().all(|&b| b == 0));
    assert!(bytes[14..].iter().all(|&b| b == 0));
}
