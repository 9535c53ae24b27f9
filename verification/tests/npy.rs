use audio8_runtime::npy::{
    header_table, locate_header, parse_shape, read_npy_u16_2d, read_table, NpyError, NpyFault,
};

fn file(version: u8, header: &[u8], words: &[u16]) -> Vec<u8> {
    let mut bytes: Vec<u8> = vec![0x93, b'N', b'U', b'M', b'P', b'Y', version, 0];
    if version == 1 {
        bytes.extend_from_slice(&(header.len() as u16).to_le_bytes());
    } else {
        bytes.extend_from_slice(&(header.len() as u32).to_le_bytes());
    }
    bytes.extend_from_slice(header);
    for w in words {
        bytes.extend_from_slice(&w.to_le_bytes());
    }
    bytes
}

fn text(shape: &str) -> String {
    format!("{{'descr': '<u2', 'fortran_order': False, 'shape': {}, }}          \n", shape)
}

fn table(bytes: &[u8]) -> Result<Vec<Vec<u16>>, NpyError> {
    let g = read_npy_u16_2d(bytes)?;
    let (rows, cols) = g.dim();
    Ok((0..rows).map(|r| (0..cols).map(|c| g.at(r, c)).collect()).collect())
}

#[test]
fn reads_what_was_stored() {
    let header = text("(2, 3)");
    let bytes = file(1, header.as_bytes(), &[1, 2, 3, 0x1234, 5, 65535]);
    assert_eq!(table(&bytes).unwrap(), vec![vec![1, 2, 3], vec![0x1234, 5, 65535]]);
}

#[test]
fn trailing_bytes_are_not_looked_at() {
    let header = text("(1, 2)");
    let mut bytes = file(1, header.as_bytes(), &[7, 8]);
    bytes.extend_from_slice(&[9, 9, 9]);
    assert_eq!(table(&bytes).unwrap(), vec![vec![7, 8]]);
}

#[test]
fn later_versions_have_longer_lengths() {
    let header = text("(1, 2)");
    let bytes = file(2, header.as_bytes(), &[7, 8]);
    assert_eq!(table(&bytes).unwrap(), vec![vec![7, 8]]);
    let long = format!("{}{}", header, " ".repeat(70000));
    assert_eq!(table(&file(3, long.as_bytes(), &[7, 8])).unwrap(), vec![vec![7, 8]]);
    assert_eq!(locate_header(&bytes).unwrap(), (12, 12 + header.len()));
}

#[test]
fn words_widen_to_codes() {
    let header = text("(2, 1)");
    let bytes = file(1, header.as_bytes(), &[40000, 3]);
    let codes = read_npy_u16_2d(&bytes).unwrap().to_codes();
    assert_eq!(codes.dim(), (2, 1));
    assert_eq!(codes.at(0, 0), 40000);
    assert_eq!(codes.at(1, 0), 3);
}

#[test]
fn invalid_text_in_a_header_is_replaced() {
    let mut header: Vec<u8> = vec![0xff];
    header.extend_from_slice(text("(1, 1)").as_bytes());
    assert_eq!(table(&file(1, &header, &[4])).unwrap(), vec![vec![4]]);
}

#[test]
fn short_files_are_truncated() {
    let header = text("(2, 2)");
    let whole = file(1, header.as_bytes(), &[1, 2, 3, 4]);
    for n in 0..whole.len() {
        let fault = table(&whole[..n]).unwrap_err();
        assert!(matches!(fault, NpyFault::Truncated), "{}", n);
    }
}

#[test]
fn other_files_are_refused() {
    let mut bytes = file(1, text("(1, 1)").as_bytes(), &[1]);
    bytes[0] = 0x92;
    assert!(matches!(table(&bytes), Err(NpyFault::NotNpy)));
    assert!(matches!(table(b"not a file of that kind"), Err(NpyFault::NotNpy)));
}

#[test]
fn other_element_types_are_refused() {
    let header = "{'descr': '<i8', 'fortran_order': False, 'shape': (1, 1), }";
    match table(&file(1, header.as_bytes(), &[1])) {
        Err(NpyFault::NotU16(h)) => assert_eq!(h, header),
        other => panic!("{:?}", other),
    }
    let named = "{'descr': 'uint16', 'shape': (1, 1), }";
    assert_eq!(table(&file(1, named.as_bytes(), &[1])).unwrap(), vec![vec![1]]);
}

#[test]
fn shapes() {
    assert_eq!(parse_shape("'shape': (10, 42)").unwrap(), vec![10, 42]);
    assert_eq!(parse_shape("'shape': (10,)").unwrap(), vec![10]);
    assert_eq!(parse_shape("'shape': ()").unwrap(), Vec::<usize>::new());
    assert_eq!(parse_shape("'shape':(\t1 ,2, 3 )x)").unwrap(), vec![1, 2, 3]);
    assert!(matches!(parse_shape("{}"), Err(NpyFault::NoShape)));
    assert!(matches!(parse_shape("'shape': 1, 2)"), Err(NpyFault::NoShapeTuple)));
    assert!(matches!(parse_shape("'shape': (1, 2"), Err(NpyFault::UnterminatedShapeTuple)));
    assert!(matches!(parse_shape("'shape': (1, x)"), Err(NpyFault::BadDimension)));
    assert!(matches!(
        parse_shape("'shape': (1, 99999999999999999999)"),
        Err(NpyFault::BadDimension)
    ));
}

#[test]
fn headers() {
    assert_eq!(header_table(&text("(3, 4)")).unwrap(), (3, 4));
    match header_table(&text("(3, 4, 5)")) {
        Err(NpyFault::NotTwoDimensional(shape)) => assert_eq!(shape, vec![3, 4, 5]),
        other => panic!("{:?}", other),
    }
    assert!(matches!(
        header_table("'<u2' 'shape': ) ( "),
        Err(NpyFault::MisplacedParenthesis)
    ));
}

#[test]
fn impossible_tables_are_refused() {
    let bytes = [0u8; 4];
    assert!(matches!(read_table(&bytes, 0, usize::MAX, 2), Err(NpyFault::TooLarge)));
    assert!(matches!(read_table(&bytes, 0, usize::MAX / 2 + 1, 1), Err(NpyFault::TooLarge)));
    assert!(matches!(read_table(&bytes, 0, 0, usize::MAX), Err(NpyFault::TooLarge)));
    assert!(matches!(read_table(&bytes, 2, 1, 2), Err(NpyFault::Truncated)));
    let g = read_table(&bytes, 4, 0, 5).unwrap();
    assert_eq!(g.dim(), (0, 5));
}
