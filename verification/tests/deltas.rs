use svn::fulltext::{encode_fulltext_with_options, encode_uint};
use svn::svndiff::{apply_window_source, decode_section, SvndiffVersion};
use svn::textdelta::{decode_window, source_view_range, SvndiffStream};
use svn::{
    apply_textdelta, apply_textdelta_sync, EditorEvent, EditorEventHandler, SvnError, TextDeltaApplier,
    TextDeltaApplierSync, TextDeltaRecorder,
};

fn svndiff0_window(
    sview_offset: u8,
    sview_len: u8,
    tview_len: u8,
    instructions: &[u8],
    new_data: &[u8],
) -> Vec<u8> {
    let mut out = Vec::new();
    out.extend_from_slice(b"SVN\0");
    out.push(sview_offset);
    out.push(sview_len);
    out.push(tview_len);
    out.push(instructions.len() as u8);
    out.push(new_data.len() as u8);
    out.extend_from_slice(instructions);
    out.extend_from_slice(new_data);
    out
}

#[test]
fn apply_svndiff0_source_and_new() {
    let base = b"abcdef";
    let delta = svndiff0_window(
        0,
        6,
        6,
        &[
            0x02, 0x00, // src 2 @0
            0x82, // new 2
            0x02, 0x04, // src 2 @4
        ],
        b"XY",
    );

    let mut out = Vec::new();
    let mut applier = TextDeltaApplier::new(base);
    applier.push(&delta[..3], &mut out).unwrap();
    applier.push(&delta[3..], &mut out).unwrap();
    applier.finish(&mut out).unwrap();
    assert_eq!(out, b"abXYef");
}

#[test]
fn apply_svndiff0_target_copy_with_overlap() {
    let delta = svndiff0_window(
        0,
        0,
        6,
        &[
            0x81, // new 1
            0x45, 0x00, // tgt 5 @0
        ],
        b"a",
    );

    let mut out = Vec::new();
    apply_textdelta(&[], &[delta], &mut out).unwrap();
    assert_eq!(out, b"aaaaaa");
}

#[test]
fn apply_empty_delta_is_identity() {
    let mut out = Vec::new();
    apply_textdelta(b"base", &[], &mut out).unwrap();
    assert_eq!(out, b"base");
}

#[test]
fn apply_svndiff1_fulltext_roundtrips() {
    let contents = vec![0u8; 4096];
    let delta =
        encode_fulltext_with_options(SvndiffVersion::V1, &contents, 5, 64 * 1024).unwrap();

    let mut out = Vec::new();
    let split = (delta.len() / 2).max(1).min(delta.len());
    apply_textdelta(&[], &[delta[..split].to_vec(), delta[split..].to_vec()], &mut out).unwrap();
    assert_eq!(out, contents);
    assert!(delta.len() < contents.len());
}

#[test]
fn apply_svndiff2_fulltext_roundtrips() {
    let contents = vec![0u8; 4096];
    let delta =
        encode_fulltext_with_options(SvndiffVersion::V2, &contents, 5, 64 * 1024).unwrap();

    let mut out = Vec::new();
    let split = (delta.len() / 3).max(1).min(delta.len());
    let split2 = (split * 2).min(delta.len());
    apply_textdelta(
        &[],
        &[delta[..split].to_vec(), delta[split..split2].to_vec(), delta[split2..].to_vec()],
        &mut out,
    )
    .unwrap();
    assert_eq!(out, contents);
    assert!(delta.len() < contents.len());
}

#[test]
fn recorder_tracks_chunks_and_checksums() {
    let mut recorder = TextDeltaRecorder::new();

    recorder
        .on_event(EditorEvent::OpenFile {
            path: "trunk/hello.txt".to_string(),
            dir_token: "d1".to_string(),
            file_token: "f1".to_string(),
            rev: 1,
        })
        .unwrap();
    recorder
        .on_event(EditorEvent::ApplyTextDelta {
            file_token: "f1".to_string(),
            base_checksum: Some("base".to_string()),
        })
        .unwrap();
    recorder
        .on_event(EditorEvent::TextDeltaChunk {
            file_token: "f1".to_string(),
            chunk: vec![1, 2, 3],
        })
        .unwrap();
    recorder
        .on_event(EditorEvent::TextDeltaEnd {
            file_token: "f1".to_string(),
        })
        .unwrap();
    recorder
        .on_event(EditorEvent::CloseFile {
            file_token: "f1".to_string(),
            text_checksum: Some("text".to_string()),
        })
        .unwrap();

    assert_eq!(recorder.completed().len(), 1);
    let d = &recorder.completed()[0];
    assert_eq!(d.path.as_deref(), Some("trunk/hello.txt"));
    assert_eq!(d.file_token, "f1");
    assert_eq!(d.base_checksum.as_deref(), Some("base"));
    assert_eq!(d.text_checksum.as_deref(), Some("text"));
    assert_eq!(d.chunks, vec![vec![1, 2, 3]]);

    let taken = recorder.take_completed();
    assert_eq!(taken.len(), 1);
    assert!(recorder.completed().is_empty());
}

#[test]
fn svndiff0_fulltext_is_written_byte_for_byte() {
    let delta = encode_fulltext_with_options(SvndiffVersion::V0, b"hi", 5, 64 * 1024).unwrap();
    assert_eq!(delta, b"SVN\0\x00\x00\x02\x01\x02\x82hi");
}

#[test]
fn every_version_gives_the_text_back_in_windows() {
    let contents: Vec<u8> = (0..1000u32).map(|i| (i % 251) as u8).collect();
    for version in [SvndiffVersion::V0, SvndiffVersion::V1, SvndiffVersion::V2] {
        for window in [1usize, 7, 100, 4096] {
            let delta = encode_fulltext_with_options(version, &contents, 9, window).unwrap();
            let mut out = Vec::new();
            apply_textdelta_sync(b"old", &[delta], &mut out).unwrap();
            assert_eq!(out, contents);
        }
    }
}

#[test]
fn empty_text_is_not_the_old_text() {
    for version in [SvndiffVersion::V0, SvndiffVersion::V1, SvndiffVersion::V2] {
        let delta = encode_fulltext_with_options(version, b"", 5, 64 * 1024).unwrap();
        let mut out = Vec::new();
        apply_textdelta_sync(b"old", &[delta], &mut out).unwrap();
        assert_eq!(out, b"");
    }
}

#[test]
fn how_a_delta_is_cut_does_not_matter() {
    let delta = svndiff0_window(0, 3, 5, &[0x03, 0x00, 0x82], b"!?");
    let mut whole = Vec::new();
    apply_textdelta_sync(b"abc", &[delta.clone()], &mut whole).unwrap();
    assert_eq!(whole, b"abc!?");

    let bytes: Vec<Vec<u8>> = delta.iter().map(|b| vec![*b]).collect();
    let mut pieces = Vec::new();
    apply_textdelta_sync(b"abc", &bytes, &mut pieces).unwrap();
    assert_eq!(pieces, whole);
}

#[test]
fn a_wrong_header_is_refused() {
    let mut out = Vec::new();
    let mut applier = TextDeltaApplierSync::new(b"");
    let r = applier.push(b"SVN\x07", &mut out);
    assert!(matches!(r, Err(SvnError::Protocol(_))));
}

#[test]
fn a_cut_off_delta_is_refused() {
    let delta = svndiff0_window(0, 3, 5, &[0x03, 0x00, 0x82], b"!?");
    for n in 1..delta.len() {
        let mut out = Vec::new();
        let cut = vec![delta[..n].to_vec()];
        // The header alone is a delta without windows.
        if n == 4 {
            apply_textdelta_sync(b"abc", &cut, &mut out).unwrap();
        } else {
            assert!(apply_textdelta_sync(b"abc", &cut, &mut out).is_err());
        }
    }
}

#[test]
fn damaged_sections_are_refused() {
    let contents = vec![7u8; 4096];
    let good = encode_fulltext_with_options(SvndiffVersion::V1, &contents, 5, 64 * 1024).unwrap();
    let mut bad = good.clone();
    let n = bad.len();
    bad[n - 1] ^= 0x5a;
    let mut out = Vec::new();
    assert!(apply_textdelta_sync(b"", &[bad], &mut out).is_err());

    assert!(matches!(
        decode_section(SvndiffVersion::V2, &[10, 0xf0, 0xff], 100),
        Err(SvnError::Protocol(_))
    ));
    assert!(matches!(
        decode_section(SvndiffVersion::V1, &[10, 0xf0, 0xff], 100),
        Err(SvnError::Protocol(_))
    ));
}

#[test]
fn sections_that_do_not_shrink_stand_as_they_are() {
    for version in [SvndiffVersion::V0, SvndiffVersion::V1, SvndiffVersion::V2] {
        let wire: &[u8] = if version == SvndiffVersion::V0 { b"abc" } else { b"\x03abc" };
        assert_eq!(decode_section(version, wire, 100).unwrap(), b"abc");
    }
}

#[test]
fn numbers_are_written_in_groups_of_seven_bits() {
    let mut out = Vec::new();
    encode_uint(0, &mut out);
    encode_uint(127, &mut out);
    encode_uint(128, &mut out);
    encode_uint(16384, &mut out);
    assert_eq!(out, vec![0x00, 0x7f, 0x81, 0x00, 0x81, 0x80, 0x00]);
}

#[test]
fn a_stream_without_bytes_is_the_identity() {
    let stream = SvndiffStream::new();
    assert!(stream.is_identity());
    stream.finish().unwrap();
}

#[test]
fn the_source_view_is_all_that_a_window_needs() {
    let base = b"0123456789";
    let delta = svndiff0_window(4, 3, 4, &[0x02, 0x01, 0x82], b"!?");
    let mut stream = SvndiffStream::new();
    stream.push(&delta).unwrap();
    let window = stream.next_window().unwrap().unwrap();
    let (instructions, new_data) = window.sections().unwrap();
    let (offset, len) = source_view_range(&window.header, base.len() as u64)
        .unwrap()
        .unwrap();
    assert_eq!((offset, len), (4, 3));
    let view = &base[4..7];
    let from_view =
        apply_window_source(view, window.header.tview_len, &instructions, &new_data).unwrap();
    assert_eq!(from_view, b"56!?");
    assert_eq!(decode_window(base, &window).unwrap(), from_view);
    assert!(stream.next_window().unwrap().is_none());

    assert!(source_view_range(&window.header, 6).is_err());
}

#[test]
fn instructions_that_reach_too_far_are_refused() {
    // More of the source than there is, then more new data than there is.
    for instructions in [&[0x05u8, 0x00][..], &[0x85u8][..]] {
        let delta = svndiff0_window(0, 3, 5, instructions, b"!?");
        let mut out = Vec::new();
        assert!(matches!(
            apply_textdelta_sync(b"abc", &[delta], &mut out),
            Err(SvnError::Protocol(_))
        ));
    }
}

#[test]
fn level_zero_compresses_nothing() {
    let delta = encode_fulltext_with_options(SvndiffVersion::V1, b"hello", 0, 1024).unwrap();
    let mut expected = b"SVN\x01".to_vec();
    expected.extend_from_slice(&[0, 0, 5, 2, 6, 1, 0x85, 5]);
    expected.extend_from_slice(b"hello");
    assert_eq!(delta, expected);
    let long = vec![b'a'; 500];
    let delta = encode_fulltext_with_options(SvndiffVersion::V1, &long, 0, 1024).unwrap();
    assert!(delta.len() > 500);
}
