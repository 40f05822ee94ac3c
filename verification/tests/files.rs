use notepad::file_io::{apply_line_ending, checked_decode_bytes, decode_bytes, detect_line_ending, saved_bytes, FileEncoding, LineEnding};

#[test]
fn detects_crlf_anywhere() {
    assert_eq!(detect_line_ending("a\r\nb"), LineEnding::CrLf);
    assert_eq!(detect_line_ending("a\nb\r\n"), LineEnding::CrLf);
    assert_eq!(detect_line_ending("a\nb"), LineEnding::Lf);
    assert_eq!(detect_line_ending("a\rb\n"), LineEnding::Lf);
    assert_eq!(detect_line_ending(""), LineEnding::Lf);
}

#[test]
fn saving_with_crlf_expands_every_line_feed() {
    assert_eq!(apply_line_ending("a\nb\n", LineEnding::CrLf), "a\r\nb\r\n");
    assert_eq!(apply_line_ending("a\r\nb", LineEnding::CrLf), "a\r\r\nb");
    assert_eq!(apply_line_ending("a\nb", LineEnding::Lf), "a\nb");
}

#[test]
fn crlf_save_is_detected_again() {
    let saved = apply_line_ending("one\ntwo", LineEnding::CrLf);
    assert_eq!(detect_line_ending(&saved), LineEnding::CrLf);
}

#[test]
fn labels_as_the_status_bar_shows_them() {
    assert_eq!(FileEncoding::Utf8.to_string(), "UTF-8");
    assert_eq!(FileEncoding::Utf8Bom.to_string(), "UTF-8 BOM");
    assert_eq!(FileEncoding::Utf16Le.to_string(), "UTF-16 LE");
    assert_eq!(FileEncoding::Utf16Be.to_string(), "UTF-16 BE");
    assert_eq!(FileEncoding::Other("Shift_JIS".to_string()).to_string(), "Shift_JIS");
    assert_eq!(LineEnding::Lf.to_string(), "LF");
    assert_eq!(LineEnding::CrLf.to_string(), "CRLF");
}

#[test]
fn plain_utf8_decodes_as_itself() {
    let (text, enc) = decode_bytes("héllo\n".as_bytes());
    assert_eq!(text, "héllo\n");
    assert_eq!(enc, FileEncoding::Utf8);
}

#[test]
fn utf8_bom_is_dropped() {
    let (text, enc) = decode_bytes(&[0xEF, 0xBB, 0xBF, b'h', b'i']);
    assert_eq!(text, "hi");
    assert_eq!(enc, FileEncoding::Utf8Bom);
}

#[test]
fn utf8_bom_with_invalid_rest_is_lenient() {
    let (text, enc) = decode_bytes(&[0xEF, 0xBB, 0xBF, b'a', 0xFF]);
    assert_eq!(text, "a\u{FFFD}");
    assert_eq!(enc, FileEncoding::Utf8Bom);
}

#[test]
fn utf16_boms_select_the_encoding() {
    let (text, enc) = decode_bytes(&[0xFF, 0xFE, b'h', 0, b'i', 0]);
    assert_eq!(text, "hi");
    assert_eq!(enc, FileEncoding::Utf16Le);
    let (text, enc) = decode_bytes(&[0xFE, 0xFF, 0, b'h', 0, b'i']);
    assert_eq!(text, "hi");
    assert_eq!(enc, FileEncoding::Utf16Be);
}

#[test]
fn other_bytes_are_detected() {
    // "Le café est très chaud à Noël" in windows-1252
    let bytes: Vec<u8> = "Le café est très chaud à Noël".chars().map(|c| c as u32 as u8).collect();
    let mut detector = chardetng::EncodingDetector::new();
    detector.feed(&bytes, true);
    let guessed = detector.guess(None, true);
    let (text, enc) = decode_bytes(&bytes);
    assert_eq!(text, guessed.decode(&bytes).0);
    assert_eq!(enc, FileEncoding::Other(guessed.name().to_string()));
    assert_eq!(text, "Le café est très chaud à Noël");
}

#[test]
fn empty_file_is_utf8() {
    let (text, enc) = decode_bytes(&[]);
    assert_eq!(text, "");
    assert_eq!(enc, FileEncoding::Utf8);
}

#[test]
fn saved_bytes_are_utf8_of_the_saved_text() {
    assert_eq!(
        saved_bytes("h\u{e9}\nx", LineEnding::CrLf, &FileEncoding::Utf8),
        vec![b'h', 0xC3, 0xA9, b'\r', b'\n', b'x']
    );
    assert_eq!(saved_bytes("a\nb", LineEnding::Lf, &FileEncoding::Utf8), b"a\nb".to_vec());
    assert_eq!(saved_bytes("ab", LineEnding::Lf, &FileEncoding::Other("Shift_JIS".to_string())), b"ab".to_vec());
}

#[test]
fn saved_bytes_keep_the_encoding_and_its_mark() {
    assert_eq!(saved_bytes("hi", LineEnding::Lf, &FileEncoding::Utf8Bom), vec![0xEF, 0xBB, 0xBF, b'h', b'i']);
    assert_eq!(saved_bytes("h\n", LineEnding::CrLf, &FileEncoding::Utf16Le), vec![0xFF, 0xFE, b'h', 0, b'\r', 0, b'\n', 0]);
    assert_eq!(saved_bytes("h\u{e9}", LineEnding::Lf, &FileEncoding::Utf16Be), vec![0xFE, 0xFF, 0, b'h', 0, 0xE9]);
    // a character above U+FFFF takes a surrogate pair
    assert_eq!(saved_bytes("\u{1F600}", LineEnding::Lf, &FileEncoding::Utf16Le), vec![0xFF, 0xFE, 0x3D, 0xD8, 0x00, 0xDE]);
    let expected: Vec<u8> = [0xFEu8, 0xFF].into_iter().chain("a\u{1F600}".encode_utf16().flat_map(|u| u.to_be_bytes())).collect();
    assert_eq!(saved_bytes("a\u{1F600}", LineEnding::Lf, &FileEncoding::Utf16Be), expected);
}

#[test]
fn a_saved_text_reopens_as_itself() {
    let encodings = [FileEncoding::Utf8, FileEncoding::Utf8Bom, FileEncoding::Utf16Le, FileEncoding::Utf16Be];
    for (text, ending) in [
        ("caf\u{e9}\nna\u{ef}ve \u{1F600}", LineEnding::CrLf),
        ("plain\ntext", LineEnding::Lf),
        ("", LineEnding::Lf),
    ] {
        for encoding in encodings.iter() {
            let bytes = saved_bytes(text, ending, encoding);
            let (content, found) = decode_bytes(&bytes);
            assert_eq!(content, apply_line_ending(text, ending));
            assert_eq!(&found, encoding);
        }
    }
}

#[test]
fn a_bom_character_survives_in_utf16_and_with_a_mark() {
    for encoding in [FileEncoding::Utf8Bom, FileEncoding::Utf16Le, FileEncoding::Utf16Be] {
        let bytes = saved_bytes("\u{feff}abc", LineEnding::Lf, &encoding);
        assert_eq!(decode_bytes(&bytes), ("\u{feff}abc".to_string(), encoding));
    }
}

#[test]
fn a_plain_utf8_text_that_starts_with_a_bom_character_loses_it() {
    let bytes = saved_bytes("\u{feff}abc", LineEnding::Lf, &FileEncoding::Utf8);
    let (content, encoding) = decode_bytes(&bytes);
    assert_eq!(content, "abc");
    assert_eq!(encoding, FileEncoding::Utf8Bom);
}

#[test]
fn checked_decoding_agrees_on_files_that_fit() {
    for bytes in [vec![0xEF, 0xBB, 0xBF, b'h', b'i'], vec![0xFF, 0xFE, b'h', 0], b"plain".to_vec(), vec![0x80, 0x81]] {
        assert_eq!(checked_decode_bytes(&bytes), Some(decode_bytes(&bytes)));
    }
}
