use browser_ext::base64::{base64_decode, data_url_bytes};

#[test]
fn base64_decodes_whole_groups() {
    assert_eq!(base64_decode("TWFu"), Ok(b"Man".to_vec()));
    assert_eq!(base64_decode(""), Ok(Vec::new()));
    assert_eq!(base64_decode("AAAA////"), Ok(vec![0, 0, 0, 255, 255, 255]));
}

#[test]
fn base64_padding_is_optional() {
    assert_eq!(base64_decode("aGVsbG8="), Ok(b"hello".to_vec()));
    assert_eq!(base64_decode("aGVsbG8"), Ok(b"hello".to_vec()));
    assert_eq!(base64_decode("aGVsbA=="), Ok(b"hell".to_vec()));
    assert_eq!(base64_decode("aGVsbA"), Ok(b"hell".to_vec()));
}

#[test]
fn base64_filler_may_stand_anywhere() {
    assert_eq!(base64_decode(" aG\nVs\tbG\r8\u{c}= "), Ok(b"hello".to_vec()));
    assert_eq!(base64_decode("a=G=V=s"), Ok(b"hel".to_vec()));
}

#[test]
fn base64_drops_bits_that_fill_no_byte() {
    assert_eq!(base64_decode("A"), Ok(Vec::new()));
    assert_eq!(base64_decode("//"), Ok(vec![255]));
    assert_eq!(base64_decode("TWFuT"), Ok(b"Man".to_vec()));
}

#[test]
fn base64_knows_its_whole_alphabet() {
    let alphabet = "ABCDEFGHIJKLMNOPQRSTUVWXYZabcdefghijklmnopqrstuvwxyz0123456789+/";
    for (i, c) in alphabet.chars().enumerate() {
        let encoded = format!("A{}", c);
        let expected = (i / 16) as u8;
        assert_eq!(base64_decode(&encoded), Ok(vec![expected]), "{}", c);
        let encoded = format!("{}A", c);
        assert_eq!(base64_decode(&encoded), Ok(vec![(i * 4) as u8]), "{}", c);
    }
}

#[test]
fn base64_decoding_undoes_encoding() {
    let alphabet: Vec<char> =
        "ABCDEFGHIJKLMNOPQRSTUVWXYZabcdefghijklmnopqrstuvwxyz0123456789+/".chars().collect();
    for length in 0..70usize {
        let bytes: Vec<u8> = (0..length).map(|i| (i * 37 + length * 11) as u8).collect();
        let mut encoded = String::new();
        for group in bytes.chunks(3) {
            let mut n = 0u32;
            for i in 0..3 {
                n = n * 256 + *group.get(i).unwrap_or(&0) as u32;
            }
            for i in 0..4 {
                if i <= group.len() {
                    encoded.push(alphabet[(n >> (18 - 6 * i)) as usize % 64]);
                } else {
                    encoded.push('=');
                }
            }
        }
        assert_eq!(base64_decode(&encoded), Ok(bytes));
    }
}

#[test]
fn base64_reports_the_first_invalid_byte() {
    assert_eq!(base64_decode("TW!u?"), Err("invalid base64 byte: 33".to_string()));
    assert_eq!(base64_decode("-"), Err("invalid base64 byte: 45".to_string()));
    assert_eq!(base64_decode("é"), Err("invalid base64 byte: 195".to_string()));
    assert_eq!(base64_decode("\u{b}"), Err("invalid base64 byte: 11".to_string()));
}

#[test]
fn data_urls_carry_base64() {
    assert_eq!(data_url_bytes("data:image/png;base64,aGVsbG8="), Ok(b"hello".to_vec()));
    assert_eq!(data_url_bytes(";base64,"), Ok(Vec::new()));
}

#[test]
fn data_urls_are_split_at_the_first_marker() {
    assert_eq!(
        data_url_bytes("data:a;base64,aGk;base64,"),
        Err("invalid base64 byte: 59".to_string())
    );
}

#[test]
fn data_urls_without_the_marker_are_refused() {
    let refused = Err("host returned a non-base64 data URL".to_string());
    assert_eq!(data_url_bytes("data:text/plain,hello"), refused);
    assert_eq!(data_url_bytes("data:image/png;base64"), refused);
    assert_eq!(data_url_bytes(""), refused);
}
