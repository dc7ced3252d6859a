use bin2c::header::render_header;

#[test]
fn header_with_block_arrays() {
    // Block mode for three chunks: one declaration pair per chunk, the two
    // aggregate arrays index-aligned with no trailing separator, and both
    // macros at the end.
    let header = render_header("B", 3, 100, true);
    assert_eq!(
        header,
        "#include <stdlib.h>\n\n#ifdef __cplusplus\nextern \"C\"\n{\n#endif\n\n\
         extern const size_t B_1_SIZE;\nextern const unsigned char B_1[];\n\
         extern const size_t B_2_SIZE;\nextern const unsigned char B_2[];\n\
         extern const size_t B_3_SIZE;\nextern const unsigned char B_3[];\n\
         \nstatic const unsigned char *B_BLOCKS[] = {\n\
         \tB_1,\n\tB_2,\n\tB_3\n};\n\
         \nstatic const size_t *B_BLOCK_SIZES[] = {\n\
         \t&B_1_SIZE,\n\t&B_2_SIZE,\n\t&B_3_SIZE\n};\n\
         \n#ifdef __cplusplus\n}\n#endif\n\
         #define B_SIZE 100\n\
         #define B_BLOCK_COUNT 3\n"
    );
}

#[test]
fn header_for_one_chunk_with_blocks() {
    // A single entry takes no separator at all.
    let header = render_header("ONE", 1, 7, true);
    assert!(header.contains("static const unsigned char *ONE_BLOCKS[] = {\n\tONE_1\n};\n"));
    assert!(header.contains("static const size_t *ONE_BLOCK_SIZES[] = {\n\t&ONE_1_SIZE\n};\n"));
    assert!(header.contains("#define ONE_SIZE 7\n"));
    assert!(header.contains("#define ONE_BLOCK_COUNT 1\n"));
}

#[test]
fn size_macro_tracks_total_not_count() {
    // The _SIZE macro records the total length whatever the chunk count.
    let a = render_header("S", 1, 42, false);
    let b = render_header("S", 9, 42, false);
    assert!(a.contains("#define S_SIZE 42\n"));
    assert!(b.contains("#define S_SIZE 42\n"));
    assert!(a.ends_with("#define S_SIZE 42\n"));
    assert!(b.ends_with("#define S_SIZE 42\n"));
}

#[test]
fn block_count_macro_only_in_block_mode() {
    let plain = render_header("M", 4, 9, false);
    let blocks = render_header("M", 4, 9, true);
    assert!(!plain.contains("M_BLOCK_COUNT"));
    assert!(!plain.contains("M_BLOCKS"));
    assert!(blocks.contains("#define M_BLOCK_COUNT 4\n"));
}
