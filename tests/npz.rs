use kittentts::npz::{extract_header_field, member_name, parse_npy, parse_shape, FormatError, NpyArray};

fn make_npy(shape: &[usize], values: &[f32]) -> Vec<u8> {
    let header_str = format!(
        "{{'descr': '<f4', 'fortran_order': False, 'shape': ({},), }}",
        shape.iter().map(|d| d.to_string()).collect::<Vec<_>>().join(", ")
    );
    let raw_len = header_str.len() + 1;
    let padded_len = ((raw_len + 63) / 64) * 64;
    let pad_needed = padded_len - raw_len;
    let mut header = header_str;
    for _ in 0..pad_needed {
        header.push(' ');
    }
    header.push('\n');
    let header_len_u16 = header.len() as u16;
    let mut buf = Vec::new();
    buf.extend_from_slice(b"\x93NUMPY");
    buf.push(1);
    buf.push(0);
    buf.extend_from_slice(&header_len_u16.to_le_bytes());
    buf.extend_from_slice(header.as_bytes());
    for &v in values {
        buf.extend_from_slice(&v.to_le_bytes());
    }
    buf
}

fn floats(bits: &[u32]) -> Vec<f32> {
    bits.iter().map(|b| f32::from_bits(*b)).collect()
}

#[test]
fn test_parse_npy_1d() {
    let values = vec![1.0f32, 2.0, 3.0];
    let buf = make_npy(&[3], &values);
    let (shape, data) = parse_npy(&buf).unwrap();
    assert_eq!(shape, vec![3]);
    assert_eq!(floats(&data), values);
}

#[test]
fn test_parse_npy_2d() {
    let values: Vec<f32> = (0..6).map(|x| x as f32).collect();
    let buf = make_npy(&[2, 3], &values);
    let (shape, data) = parse_npy(&buf).unwrap();
    assert_eq!(shape, vec![2, 3]);
    assert_eq!(floats(&data), values);
}

#[test]
fn test_npy_array_row() {
    let values: Vec<f32> = (0..6).map(|x| x as f32).collect();
    let buf = make_npy(&[2, 3], &values);
    let (shape, data) = parse_npy(&buf).unwrap();
    let arr = NpyArray { shape, data };
    assert_eq!(floats(&arr.row(0)), vec![0.0, 1.0, 2.0]);
    assert_eq!(floats(&arr.row(1)), vec![3.0, 4.0, 5.0]);
}

#[test]
fn test_bad_magic() {
    let result = parse_npy(b"NOTANPY");
    assert!(result.is_err());
}

#[test]
fn round_trip_keeps_shape_and_values() {
    let values = vec![-1.5f32, 0.0, 3.25, f32::MAX, f32::MIN_POSITIVE, 1e-7];
    let buf = make_npy(&[3, 2], &values);
    let (shape, data) = parse_npy(&buf).unwrap();
    assert_eq!(shape, vec![3, 2]);
    assert_eq!(data, values.iter().map(|v| v.to_bits()).collect::<Vec<_>>());
}

#[test]
fn format_errors() {
    let mut buf = make_npy(&[2], &[1.0, 2.0]);
    buf.truncate(buf.len() - 1);
    assert_eq!(parse_npy(&buf), Err(FormatError::DataTooShort));
    let mut v3 = make_npy(&[1], &[1.0]);
    v3[6] = 3;
    assert_eq!(parse_npy(&v3), Err(FormatError::UnsupportedVersion));
    let f8 = make_npy(&[1], &[1.0]);
    let mut bad = f8.clone();
    let pos = bad.windows(3).position(|w| w == b"<f4").unwrap();
    bad[pos + 2] = b'8';
    assert_eq!(parse_npy(&bad), Err(FormatError::UnsupportedDtype));
    let mut fortran = f8.clone();
    let pos = fortran.windows(5).position(|w| w == b"False").unwrap();
    fortran[pos..pos + 5].copy_from_slice(b"True ");
    assert_eq!(parse_npy(&fortran), Err(FormatError::FortranOrder));
    let mut short = f8.clone();
    short.truncate(20);
    assert_eq!(parse_npy(&short), Err(FormatError::TruncatedHeader));
}

#[test]
fn zero_dimensional_shape() {
    assert_eq!(parse_shape("()"), Ok(vec![]));
    assert_eq!(parse_shape("(256, 512, )"), Ok(vec![256, 512]));
    assert_eq!(parse_shape("(x,)"), Err(FormatError::BadShape));
}

#[test]
fn header_fields() {
    let h = "{'descr': '<f4', 'fortran_order': False, 'shape': (3, 4), }";
    assert_eq!(extract_header_field(h, "descr"), Some("<f4".to_string()));
    assert_eq!(extract_header_field(h, "fortran_order"), Some("False".to_string()));
    assert_eq!(extract_header_field(h, "shape"), Some("(3, 4)".to_string()));
    assert_eq!(extract_header_field(h, "missing"), None);
}

#[test]
fn member_names_lose_suffix() {
    assert_eq!(member_name("voice_a.npy"), "voice_a");
    assert_eq!(member_name("plain"), "plain");
}
