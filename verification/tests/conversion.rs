use bin2c::convert::chunk_file_path;
use bin2c::convert::convert;
use bin2c::encode::encode_chunk;
use bin2c::header::render_header;
use bin2c::numerals::u64_to_string;
use bin2c::DEFAULT_MAX_CHUNK_BYTES;

#[test]
fn single_chunk_scenario() {
    // Ten bytes 0x00..0x09 under the default cap: exactly one chunk file.
    let data: Vec<u8> = (0u8..10).collect();
    let conv = convert("X", "X.h", "X", &data, DEFAULT_MAX_CHUNK_BYTES);
    assert_eq!(conv.total_len, 10);
    assert_eq!(conv.files.len(), 1);
    assert_eq!(conv.files[0].path, "X.1.c");
    assert_eq!(conv.files[0].len, 10);
    assert_eq!(
        conv.files[0].text,
        "#include \"X.h\"\n\nconst unsigned char X_1[] = \
         {0x00, 0x01, 0x02, 0x03, 0x04, 0x05, 0x06, 0x07, 0x08, 0x09};\n\
         const size_t X_1_SIZE = 10;\n"
    );
    let header = render_header("X", 1, 10, false);
    assert_eq!(
        header,
        "#include <stdlib.h>\n\n#ifdef __cplusplus\nextern \"C\"\n{\n#endif\n\n\
         extern const size_t X_1_SIZE;\nextern const unsigned char X_1[];\n\
         \n#ifdef __cplusplus\n}\n#endif\n\
         #define X_SIZE 10\n"
    );
    assert!(!header.contains("BLOCK"));
}

#[test]
fn two_full_chunks() {
    // An input of exactly twice the cap: two full chunk files, no third.
    let m = 4;
    let data = vec![0u8; 2 * m];
    let conv = convert("DATA", "OUT.h", "OUT", &data, m);
    assert_eq!(conv.total_len, 8);
    assert_eq!(conv.files.len(), 2);
    assert_eq!(conv.files[0].path, "OUT.1.c");
    assert_eq!(conv.files[1].path, "OUT.2.c");
    assert_eq!(conv.files[0].len, m);
    assert_eq!(conv.files[1].len, m);
    assert_eq!(
        conv.files[0].text,
        "#include \"OUT.h\"\n\nconst unsigned char DATA_1[] = \
         {0x00, 0x00, 0x00, 0x00};\nconst size_t DATA_1_SIZE = 4;\n"
    );
    assert_eq!(
        conv.files[1].text,
        "#include \"OUT.h\"\n\nconst unsigned char DATA_2[] = \
         {0x00, 0x00, 0x00, 0x00};\nconst size_t DATA_2_SIZE = 4;\n"
    );
    let header = render_header("DATA", 2, 8, false);
    assert!(header.contains("extern const size_t DATA_1_SIZE;"));
    assert!(header.contains("extern const size_t DATA_2_SIZE;"));
    assert!(!header.contains("DATA_3"));
    assert!(header.contains("#define DATA_SIZE 8\n"));
}

#[test]
fn partial_last_chunk() {
    // Ten bytes at a cap of four: two full chunks and a final short one,
    // whose byte counts sum to the input's length.
    let data: Vec<u8> = (1u8..=10).collect();
    let conv = convert("B", "b.h", "b", &data, 4);
    assert_eq!(conv.files.len(), 3);
    assert_eq!(conv.files[0].len, 4);
    assert_eq!(conv.files[1].len, 4);
    assert_eq!(conv.files[2].len, 2);
    assert_eq!(conv.files.iter().map(|f| f.len).sum::<usize>(), conv.total_len);
    assert_eq!(
        conv.files[2].text,
        "#include \"b.h\"\n\nconst unsigned char B_3[] = \
         {0x09, 0x0a};\nconst size_t B_3_SIZE = 2;\n"
    );
}

#[test]
fn chunks_reassemble_to_input() {
    // Scraping the byte literals back out of every chunk file reproduces
    // the input byte for byte, in order.
    let data: Vec<u8> = (0u8..=255).cycle().take(1000).collect();
    let conv = convert("R", "r.h", "r", &data, 300);
    assert_eq!(conv.files.len(), 4);
    let mut rebuilt: Vec<u8> = Vec::new();
    for f in &conv.files {
        let open = f.text.find('{').unwrap();
        let close = f.text.find('}').unwrap();
        let body = &f.text[open + 1..close];
        for lit in body.split(", ") {
            assert_eq!(&lit[0..2], "0x");
            assert_eq!(lit.len(), 4);
            rebuilt.push(u8::from_str_radix(&lit[2..4], 16).unwrap());
        }
    }
    assert_eq!(rebuilt, data);
}

#[test]
fn empty_input_writes_no_chunks() {
    // The declared policy for a zero-length input: no chunk files, and a
    // header that declares no symbols while recording a total of zero.
    let data: Vec<u8> = Vec::new();
    let conv = convert("E", "e.h", "e", &data, DEFAULT_MAX_CHUNK_BYTES);
    assert_eq!(conv.files.len(), 0);
    assert_eq!(conv.total_len, 0);
    let header = render_header("E", 0, 0, false);
    assert_eq!(
        header,
        "#include <stdlib.h>\n\n#ifdef __cplusplus\nextern \"C\"\n{\n#endif\n\n\
         \n#ifdef __cplusplus\n}\n#endif\n\
         #define E_SIZE 0\n"
    );
}

#[test]
fn chunk_file_path_format() {
    assert_eq!(chunk_file_path("dir/out", 1), "dir/out.1.c");
    assert_eq!(chunk_file_path("dir/out", 12), "dir/out.12.c");
}

#[test]
fn hex_literals_exact() {
    // Each byte becomes 0x and two lowercase hex digits, high nibble first.
    let data = vec![0x00u8, 0x0f, 0x10, 0x7a, 0xab, 0xff];
    let text = encode_chunk("h.h", "H", 1, &data);
    assert_eq!(
        text,
        "#include \"h.h\"\n\nconst unsigned char H_1[] = \
         {0x00, 0x0f, 0x10, 0x7a, 0xab, 0xff};\nconst size_t H_1_SIZE = 6;\n"
    );
}

#[test]
fn encode_chunk_of_no_bytes() {
    let text = encode_chunk("h.h", "H", 3, &[]);
    assert_eq!(
        text,
        "#include \"h.h\"\n\nconst unsigned char H_3[] = {};\nconst size_t H_3_SIZE = 0;\n"
    );
}

#[test]
fn decimal_rendering() {
    assert_eq!(u64_to_string(0), "0");
    assert_eq!(u64_to_string(9), "9");
    assert_eq!(u64_to_string(10), "10");
    assert_eq!(u64_to_string(255), "255");
    assert_eq!(u64_to_string(2097152), "2097152");
    assert_eq!(u64_to_string(u64::MAX), "18446744073709551615");
}
