use v_kernel::codec::{
    bytes_eq, compute_hmac, delimiter_frame, more_follows, signature_text, DecodeError, Envelope,
};

fn envelope() -> Envelope {
    Envelope {
        identities: vec![b"client-1".to_vec(), vec![0, 255, 7]],
        header: b"{\"msg_type\":\"execute_request\"}".to_vec(),
        parent_header: b"{}".to_vec(),
        metadata: b"{ \"a\" : 1 }".to_vec(),
        content: b"{\"code\":\"x := 1\"}".to_vec(),
        buffers: vec![vec![1, 2, 3], vec![], b"<IDS|MSG>".to_vec()],
    }
}

fn assert_same(a: &Envelope, b: &Envelope) {
    assert_eq!(a.identities, b.identities);
    assert_eq!(a.header, b.header);
    assert_eq!(a.parent_header, b.parent_header);
    assert_eq!(a.metadata, b.metadata);
    assert_eq!(a.content, b.content);
    assert_eq!(a.buffers, b.buffers);
}

#[test]
fn delimiter_is_the_marker_text() {
    assert_eq!(delimiter_frame(), b"<IDS|MSG>".to_vec());
}

#[test]
fn hexadecimal_is_lower_case_two_digits_a_byte() {
    assert_eq!(signature_text(&[0x00, 0xff, 0x1a, 0xa1, 0x09]), b"00ff1aa109".to_vec());
    assert_eq!(signature_text(&[]), Vec::<u8>::new());
    assert_eq!(signature_text(&[1, 2, 3, 15, 16]), b"0102030f10".to_vec());
}

#[test]
fn signature_is_the_mac_of_the_four_parts_in_a_row() {
    let key = [0x0bu8; 20];
    let sig = compute_hmac(&key, b"Hi", b" Th", b"", b"ere");
    assert_eq!(
        sig,
        b"b0344c61d8db38535ca8afceaf0bf12b881dc200c9833da726e9376c2e32cff7".to_vec()
    );
    let sig = compute_hmac(b"Jefe", b"what do ya want ", b"for nothing?", b"", b"");
    assert_eq!(
        sig,
        b"5bdcc146bf60754e6a042426089575c75a003f089d2739839dec58b964ec3843".to_vec()
    );
}

#[test]
fn signature_under_the_empty_key_is_empty() {
    assert!(compute_hmac(b"", b"{}", b"{}", b"{}", b"{}").is_empty());
}

#[test]
fn frames_are_in_the_fixed_order() {
    let m = envelope();
    let frames = m.to_frames(b"key");
    assert_eq!(frames.len(), 2 + 6 + 3);
    assert_eq!(frames[0], b"client-1".to_vec());
    assert_eq!(frames[1], vec![0, 255, 7]);
    assert_eq!(frames[2], b"<IDS|MSG>".to_vec());
    assert_eq!(frames[3], compute_hmac(b"key", &m.header, &m.parent_header, &m.metadata, &m.content));
    assert_eq!(frames[3].len(), 64);
    assert_eq!(frames[4], m.header);
    assert_eq!(frames[5], m.parent_header);
    assert_eq!(frames[6], m.metadata);
    assert_eq!(frames[7], m.content);
    assert_eq!(frames[8], vec![1, 2, 3]);
    assert_eq!(frames[9], Vec::<u8>::new());
    assert_eq!(frames[10], b"<IDS|MSG>".to_vec());
}

#[test]
fn frames_with_a_given_signature() {
    let m = envelope();
    let frames = m.frames_with_signature(b"abc".to_vec());
    assert_eq!(frames[3], b"abc".to_vec());
    assert_eq!(frames.len(), 11);
}

#[test]
fn round_trip_under_a_key() {
    let m = envelope();
    let frames = m.to_frames(b"a secret key");
    let back = Envelope::from_frames(&frames, b"a secret key");
    assert!(back.is_ok());
    assert_same(&back.unwrap(), &m);
}

#[test]
fn round_trip_under_the_empty_key() {
    let m = envelope();
    let frames = m.to_frames(b"");
    assert!(frames[3].is_empty());
    let back = Envelope::from_frames(&frames, b"").unwrap();
    assert_same(&back, &m);
}

#[test]
fn round_trip_without_identities_and_buffers() {
    let m = Envelope {
        identities: vec![],
        header: vec![],
        parent_header: vec![],
        metadata: vec![],
        content: vec![],
        buffers: vec![],
    };
    let frames = m.to_frames(b"k");
    assert_eq!(frames.len(), 6);
    assert_same(&Envelope::from_frames(&frames, b"k").unwrap(), &m);
}

#[test]
fn a_changed_byte_fails_authentication() {
    let m = envelope();
    let key = b"a secret key";
    let frames = m.to_frames(key);
    for part in 4..8 {
        for i in 0..frames[part].len() {
            let mut tampered = frames.clone();
            tampered[part][i] ^= 0x01;
            let r = Envelope::from_frames(&tampered, key);
            assert!(matches!(r, Err(DecodeError::SignatureMismatch)), "part {} byte {}", part, i);
            assert!(r.err().unwrap().authentication_failed());
        }
    }
}

#[test]
fn a_changed_signature_fails_authentication() {
    let frames = envelope().to_frames(b"key");
    let mut tampered = frames.clone();
    tampered[3][0] = if tampered[3][0] == b'0' { b'1' } else { b'0' };
    assert!(matches!(Envelope::from_frames(&tampered, b"key"), Err(DecodeError::SignatureMismatch)));
    assert!(matches!(Envelope::from_frames(&frames, b"other"), Err(DecodeError::SignatureMismatch)));
    let mut upper = frames.clone();
    upper[3] = upper[3].to_ascii_uppercase();
    if upper[3] != frames[3] {
        assert!(matches!(Envelope::from_frames(&upper, b"key"), Err(DecodeError::SignatureMismatch)));
    }
}

#[test]
fn the_empty_key_accepts_any_signature_text() {
    let mut frames = envelope().to_frames(b"key");
    frames[4][0] ^= 0x01;
    frames[3] = b"not a signature".to_vec();
    let r = Envelope::from_frames(&frames, b"");
    assert!(r.is_ok());
    assert_eq!(r.unwrap().header, frames[4]);
}

#[test]
fn frames_without_delimiter_are_malformed() {
    let frames = vec![b"a".to_vec(), b"b".to_vec(), b"<IDS|MSG".to_vec(), b"<IDS|MSG>x".to_vec()];
    let r = Envelope::from_frames(&frames, b"key");
    assert!(matches!(r, Err(DecodeError::NoDelimiter)));
    assert!(!r.err().unwrap().authentication_failed());
    assert!(matches!(Envelope::from_frames(&[], b""), Err(DecodeError::NoDelimiter)));
}

#[test]
fn too_few_frames_after_the_delimiter_are_malformed() {
    let mut frames = envelope().to_frames(b"");
    frames.truncate(7);
    let r = Envelope::from_frames(&frames, b"");
    assert!(matches!(r, Err(DecodeError::TooFewFrames)));
    assert!(!r.err().unwrap().authentication_failed());
    frames.truncate(3);
    assert!(matches!(Envelope::from_frames(&frames, b"key"), Err(DecodeError::TooFewFrames)));
}

#[test]
fn exactly_five_frames_after_the_delimiter_are_enough() {
    let mut frames = envelope().to_frames(b"");
    frames.truncate(8);
    let m = Envelope::from_frames(&frames, b"").unwrap();
    assert!(m.buffers.is_empty());
    assert_eq!(m.identities.len(), 2);
}

#[test]
fn a_signature_that_is_no_text_is_malformed() {
    let mut frames = envelope().to_frames(b"");
    frames[3] = vec![0xff, 0xfe];
    assert!(matches!(Envelope::from_frames(&frames, b""), Err(DecodeError::SignatureNotText)));
    let r = Envelope::from_frames(&frames, b"key");
    assert!(matches!(r, Err(DecodeError::SignatureNotText)));
    assert!(!r.err().unwrap().authentication_failed());
    frames[3] = "sign\u{e9}".as_bytes().to_vec();
    assert!(Envelope::from_frames(&frames, b"").is_ok());
}

#[test]
fn the_first_delimiter_counts() {
    let mut m = envelope();
    m.identities = vec![b"id".to_vec(), b"<IDS|MSG>".to_vec(), b"x".to_vec()];
    let frames = m.to_frames(b"");
    let back = Envelope::from_frames(&frames, b"").unwrap();
    assert_eq!(back.identities, vec![b"id".to_vec()]);
    assert_eq!(back.header, b"<IDS|MSG>".to_vec());
    assert_eq!(back.buffers.len(), 2 + 3);
    let split = Envelope::split_frames(&frames).unwrap();
    assert_eq!(split.0, b"x".to_vec());
}

#[test]
fn split_frames_hands_out_the_signature() {
    let m = envelope();
    let frames = m.to_frames(b"key");
    let (sig, back) = Envelope::split_frames(&frames).unwrap();
    assert_eq!(sig, frames[3]);
    assert_same(&back, &m);
}

#[test]
fn byte_strings_compare_by_content() {
    assert!(bytes_eq(b"abc", b"abc"));
    assert!(!bytes_eq(b"abc", b"abd"));
    assert!(!bytes_eq(b"abc", b"ab"));
    assert!(bytes_eq(b"", b""));
}

#[test]
fn every_frame_but_the_last_is_marked() {
    assert!(!more_follows(0, 1));
    assert!(more_follows(0, 2));
    assert!(!more_follows(1, 2));
    let marks: Vec<bool> = (0..6).map(|i| more_follows(i, 6)).collect();
    assert_eq!(marks, vec![true, true, true, true, true, false]);
}
