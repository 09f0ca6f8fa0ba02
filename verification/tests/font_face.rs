use srng::font::{FontStyle, GlyphIdValue};
use srng::font_face::{FontError, FontFace};

fn be16(out: &mut Vec<u8>, v: u16) {
    out.extend_from_slice(&v.to_be_bytes());
}

fn be32(out: &mut Vec<u8>, v: u32) {
    out.extend_from_slice(&v.to_be_bytes());
}

/// A TrueType face with only `head`, `hhea` and `maxp` tables.
fn minimal_font() -> Vec<u8> {
    let mut head = vec![0u8; 54];
    head[18..20].copy_from_slice(&1000u16.to_be_bytes());
    let mut hhea = vec![0u8; 36];
    hhea[4..6].copy_from_slice(&800i16.to_be_bytes());
    hhea[6..8].copy_from_slice(&(-200i16).to_be_bytes());
    hhea[8..10].copy_from_slice(&90i16.to_be_bytes());
    hhea[34..36].copy_from_slice(&1u16.to_be_bytes());
    let maxp = vec![0x00, 0x00, 0x50, 0x00, 0x00, 0x01];
    let mut out = Vec::new();
    be32(&mut out, 0x0001_0000);
    be16(&mut out, 3);
    be16(&mut out, 32);
    be16(&mut out, 1);
    be16(&mut out, 16);
    let tables: [(&[u8; 4], &Vec<u8>); 3] = [(b"head", &head), (b"hhea", &hhea), (b"maxp", &maxp)];
    let mut offset = 12 + 16 * 3;
    let mut body = Vec::new();
    for (tag, data) in tables.iter() {
        out.extend_from_slice(&tag[..]);
        be32(&mut out, 0);
        be32(&mut out, offset as u32);
        be32(&mut out, data.len() as u32);
        body.extend_from_slice(data);
        while body.len() % 4 != 0 {
            body.push(0);
        }
        offset = 12 + 16 * 3 + body.len();
    }
    out.extend_from_slice(&body);
    out
}

#[test]
fn malformed_font_is_rejected() {
    let error = FontFace::from_bytes(vec![0, 1, 2, 3], 0, "Broken".to_string()).unwrap_err();
    assert!(matches!(error, FontError::InvalidFont { .. }));
}

#[test]
fn parse_error_is_reported_by_name() {
    match FontFace::from_bytes(vec![0, 1, 2, 3], 0, "Broken".to_string()) {
        Err(FontError::InvalidFont { source }) => assert_eq!(source, "UnknownMagic"),
        _ => panic!("expected an invalid font"),
    }
}

#[test]
fn minimal_face_reads_metrics() {
    let face = FontFace::from_bytes(minimal_font(), 0, "Tiny".to_string()).unwrap();
    assert_eq!(face.family_name, "Tiny");
    assert_eq!(face.weight, 400);
    assert_eq!(face.style, FontStyle::Normal);
    assert_eq!(face.post_script_name, None);
    assert!(face.source_path.is_none());
    let m = face.metrics().unwrap();
    assert_eq!(m.units_per_em, 1000);
    assert_eq!(m.ascent, 800);
    assert_eq!(m.descent, -200);
    assert_eq!(m.line_gap, 90);
    assert_eq!(face.glyph_for_char('A').unwrap(), None);
    let g = face.glyph_metrics(GlyphIdValue(0)).unwrap();
    assert_eq!(g.advance, 0);
}

#[test]
fn single_face_font_refuses_other_indices() {
    match FontFace::from_bytes(minimal_font(), 1, "Tiny".to_string()) {
        Err(FontError::InvalidFont { source }) => assert_eq!(source, "FaceIndexOutOfBounds"),
        _ => panic!("expected an invalid font"),
    }
}

#[test]
fn file_face_without_names_takes_the_file_stem() {
    let face = FontFace::from_file_bytes(minimal_font(), 0, Some("MyFont".to_string())).unwrap();
    assert_eq!(face.family_name, "MyFont");
    let face = FontFace::from_file_bytes(minimal_font(), 0, None).unwrap();
    assert_eq!(face.family_name, "Unknown");
}
