use vesuvius_gui::c3d::{is_c3d, with_decoder, C3dError, Decoder, Native, C3D_CHUNK_BYTES, C3D_CHUNK_SIDE};

#[test]
fn rejects_non_c3d_input() {
    let mut dec = Decoder::new();
    let bogus = b"not a c3d chunk at all";
    assert!(matches!(
        dec.decode(bogus, |_, _| panic!("the native library must not be asked")),
        Err(C3dError::NotC3d)
    ));
}

#[test]
fn rejects_short_input() {
    assert!(!is_c3d(b""));
    assert!(!is_c3d(b"C3D"));
    assert!(is_c3d(b"C3DC"));
}

#[test]
fn rejects_what_the_validation_rejects() {
    let mut dec = Decoder::new();
    let result = dec.decode(b"C3DC and more", |_, _| Native::Rejected);
    assert!(matches!(result, Err(C3dError::ValidationFailed)));
}

#[test]
fn decodes_into_a_buffer() {
    assert_eq!(C3D_CHUNK_BYTES, C3D_CHUNK_SIDE * C3D_CHUNK_SIDE * C3D_CHUNK_SIDE);
    let mut dec = Decoder::new();
    dec.set_denoise(true);
    let mut out = vec![0u8; C3D_CHUNK_BYTES];
    let result = dec.decode_into(b"C3DC", &mut out, |chunk, denoise| {
        assert_eq!(chunk, b"C3DC");
        assert_eq!(denoise, Some(true));
        Native::Decoded(vec![7u8; C3D_CHUNK_BYTES])
    });
    assert!(result.is_ok());
    assert!(out.iter().all(|v| *v == 7));

    let result = dec.decode_into(b"C3D", &mut out, |_, _| Native::Rejected);
    assert!(matches!(result, Err(C3dError::NotC3d)));
    assert!(out.iter().all(|v| *v == 7));
}

#[test]
fn both_ways_of_decoding_give_the_same_voxels() {
    let native = |_: &[u8], _: Option<bool>| {
        Native::Decoded((0..C3D_CHUNK_BYTES).map(|i| (i % 251) as u8).collect())
    };
    let mut dec = Decoder::new();
    let voxels = match dec.decode(b"C3DC", native) {
        Ok(voxels) => voxels,
        Err(e) => panic!("{}", e.message()),
    };
    assert_eq!(voxels.len(), C3D_CHUNK_BYTES);
    let mut out = vec![255u8; C3D_CHUNK_BYTES];
    assert!(dec.decode_into(b"C3DC", &mut out, native).is_ok());
    assert!(out == voxels);
}

#[test]
fn decoder_slot_is_kept() {
    let mut slot: Option<Decoder> = None;
    with_decoder(&mut slot, |d| d.set_denoise(false));
    let denoise = with_decoder(&mut slot, |d| d.denoise);
    assert_eq!(denoise, Some(false));
}

#[test]
fn c3d_error_messages() {
    assert_eq!(C3dError::NotC3d.message(), "input is not a c3d chunk (missing C3DC magic)");
    assert_eq!(C3dError::ValidationFailed.message(), "c3d_chunk_validate rejected the bitstream");
}
