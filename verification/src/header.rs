//! The header synthesizer: given the chunk count and the total byte length
//! of one conversion, emits the single header text that declares the size
//! constant and byte array of every chunk, optionally aggregates them into
//! the two block-index arrays, and records the totals as two preprocessor
//! macros.
//!
//! `count` is throughout the number of chunk files actually written; the
//! ordinals declared run from 1 to `count` inclusive.

use vstd::prelude::*;
use vstd::string::*;
use crate::encode::chunk_symbol;
use crate::numerals::dec_of;
use crate::numerals::u64_to_string;

verus! {

/// The fixed opening of the header: the size-type include and the opening of
/// the C++ linkage guard.
pub open spec fn header_head() -> Seq<char> {
    "#include <stdlib.h>\n\n#ifdef __cplusplus\nextern \"C\"\n{\n#endif\n\n"@
}

/// The fixed closing of the C++ linkage guard.
pub open spec fn header_foot() -> Seq<char> {
    "\n#ifdef __cplusplus\n}\n#endif\n"@
}

/// The pair of declarations for the chunk with ordinal `i`: its size
/// constant and its unsized byte array.
pub open spec fn decl_pair(base: Seq<char>, i: nat) -> Seq<char> {
    "extern const size_t "@ + chunk_symbol(base, i) + "_SIZE;\nextern const unsigned char "@
        + chunk_symbol(base, i) + "[];\n"@
}

/// The declaration pairs for ordinals 1 through `count`, in order.
pub open spec fn decl_list(base: Seq<char>, count: nat) -> Seq<char>
    decreases count,
{
    if count == 0 {
        Seq::empty()
    } else {
        decl_list(base, (count - 1) as nat) + decl_pair(base, count)
    }
}

/// The symbols placed in the BLOCKS array, in order: entry `i` names the
/// byte array of the chunk with ordinal `i + 1`.
pub open spec fn blocks_entries(base: Seq<char>, count: nat) -> Seq<Seq<char>> {
    Seq::new(count, |i: int| chunk_symbol(base, (i + 1) as nat))
}

/// The expressions placed in the BLOCK_SIZES array, in order: entry `i`
/// takes the address of the size constant of the chunk with ordinal `i + 1`.
pub open spec fn sizes_entries(base: Seq<char>, count: nat) -> Seq<Seq<char>> {
    Seq::new(count, |i: int| "&"@ + chunk_symbol(base, (i + 1) as nat) + "_SIZE"@)
}

/// One line of the BLOCKS initializer, for ordinal `i` of `count`: the entry
/// behind a tab, with a comma on every line but the last.
pub open spec fn blocks_item(base: Seq<char>, count: nat, i: nat) -> Seq<char>
    recommends
        1 <= i <= count,
{
    "\t"@ + blocks_entries(base, count)[i - 1] + (if i == count {
        "\n"@
    } else {
        ",\n"@
    })
}

/// The BLOCKS initializer lines for ordinals 1 through `i`.
pub open spec fn blocks_items(base: Seq<char>, count: nat, i: nat) -> Seq<char>
    decreases i,
{
    if i == 0 {
        Seq::empty()
    } else {
        blocks_items(base, count, (i - 1) as nat) + blocks_item(base, count, i)
    }
}

/// One line of the BLOCK_SIZES initializer, for ordinal `i` of `count`.
pub open spec fn sizes_item(base: Seq<char>, count: nat, i: nat) -> Seq<char>
    recommends
        1 <= i <= count,
{
    "\t"@ + sizes_entries(base, count)[i - 1] + (if i == count {
        "\n"@
    } else {
        ",\n"@
    })
}

/// The BLOCK_SIZES initializer lines for ordinals 1 through `i`.
pub open spec fn sizes_items(base: Seq<char>, count: nat, i: nat) -> Seq<char>
    decreases i,
{
    if i == 0 {
        Seq::empty()
    } else {
        sizes_items(base, count, (i - 1) as nat) + sizes_item(base, count, i)
    }
}

/// The two aggregate arrays emitted in block mode: `<base>_BLOCKS`, one
/// pointer per chunk, then `<base>_BLOCK_SIZES`, one pointer to a size
/// constant per chunk, index-aligned with the first.
pub open spec fn blocks_section(base: Seq<char>, count: nat) -> Seq<char> {
    "\nstatic const unsigned char *"@ + base + "_BLOCKS[] = {\n"@ + blocks_items(
        base,
        count,
        count,
    ) + "};\n"@ + "\nstatic const size_t *"@ + base + "_BLOCK_SIZES[] = {\n"@ + sizes_items(
        base,
        count,
        count,
    ) + "};\n"@
}

/// The total-size macro line: `#define <base>_SIZE <total>`.  It depends on
/// the symbol base and the total length alone.
pub open spec fn size_line(base: Seq<char>, total: nat) -> Seq<char> {
    "#define "@ + base + "_SIZE "@ + dec_of(total) + "\n"@
}

/// The block-count macro line: `#define <base>_BLOCK_COUNT <count>`.
pub open spec fn block_count_line(base: Seq<char>, count: nat) -> Seq<char> {
    "#define "@ + base + "_BLOCK_COUNT "@ + dec_of(count) + "\n"@
}

/// Everything the header holds before the total-size macro line.
pub open spec fn header_prefix(base: Seq<char>, count: nat, blocks: bool) -> Seq<char> {
    header_head() + decl_list(base, count) + (if blocks {
        blocks_section(base, count)
    } else {
        Seq::empty()
    }) + header_foot()
}

/// Everything the header holds after the total-size macro line: the
/// block-count macro in block mode, nothing otherwise.
pub open spec fn header_suffix(base: Seq<char>, count: nat, blocks: bool) -> Seq<char> {
    if blocks {
        block_count_line(base, count)
    } else {
        Seq::empty()
    }
}

/// The complete header text for `count` chunks totalling `total` bytes.
pub open spec fn header_text(base: Seq<char>, count: nat, total: nat, blocks: bool) -> Seq<char> {
    header_prefix(base, count, blocks) + size_line(base, total) + header_suffix(base, count, blocks)
}

/// Renders the header for a conversion that wrote `count` chunks holding
/// `total_len` bytes in all, with the block-index arrays when `blocks` is
/// set.
pub fn render_header(base: &str, count: u32, total_len: usize, blocks: bool) -> (r: String)
    ensures
        r@ == header_text(base@, count as nat, total_len as nat, blocks),
{
    let mut out: String = "#include <stdlib.h>\n\n#ifdef __cplusplus\nextern \"C\"\n{\n#endif\n\n".to_owned();
    let mut i: u32 = 0;
    while i < count
        invariant
            i <= count,
            out@ == header_head() + decl_list(base@, i as nat),
        decreases count - i,
    {
        i += 1;
        let ord = u64_to_string(i as u64);
        out.append("extern const size_t ");
        out.append(base);
        out.append("_");
        out.append(ord.as_str());
        out.append("_SIZE;\nextern const unsigned char ");
        out.append(base);
        out.append("_");
        out.append(ord.as_str());
        out.append("[];\n");
        proof {
            assert(out@ =~= header_head() + decl_list(base@, i as nat));
        }
    }
    if blocks {
        out.append("\nstatic const unsigned char *");
        out.append(base);
        out.append("_BLOCKS[] = {\n");
        let ghost before = out@;
        let mut i: u32 = 0;
        while i < count
            invariant
                i <= count,
                out@ == before + blocks_items(base@, count as nat, i as nat),
            decreases count - i,
        {
            i += 1;
            let ord = u64_to_string(i as u64);
            out.append("\t");
            out.append(base);
            out.append("_");
            out.append(ord.as_str());
            if i == count {
                out.append("\n");
            } else {
                out.append(",\n");
            }
            proof {
                assert(out@ =~= before + blocks_items(base@, count as nat, i as nat));
            }
        }
        out.append("};\n");
        out.append("\nstatic const size_t *");
        out.append(base);
        out.append("_BLOCK_SIZES[] = {\n");
        let ghost before2 = out@;
        let mut i: u32 = 0;
        while i < count
            invariant
                i <= count,
                out@ == before2 + sizes_items(base@, count as nat, i as nat),
            decreases count - i,
        {
            i += 1;
            let ord = u64_to_string(i as u64);
            out.append("\t&");
            out.append(base);
            out.append("_");
            out.append(ord.as_str());
            out.append("_SIZE");
            if i == count {
                out.append("\n");
            } else {
                out.append(",\n");
            }
            proof {
                reveal_strlit("\t&");
                reveal_strlit("\t");
                reveal_strlit("&");
                assert(out@ =~= before2 + sizes_items(base@, count as nat, i as nat));
            }
        }
        out.append("};\n");
        proof {
            assert(out@ =~= header_head() + decl_list(base@, count as nat) + blocks_section(
                base@,
                count as nat,
            ));
        }
    }
    out.append("\n#ifdef __cplusplus\n}\n#endif\n");
    out.append("#define ");
    out.append(base);
    out.append("_SIZE ");
    let total = u64_to_string(total_len as u64);
    out.append(total.as_str());
    out.append("\n");
    if blocks {
        out.append("#define ");
        out.append(base);
        out.append("_BLOCK_COUNT ");
        let cnt = u64_to_string(count as u64);
        out.append(cnt.as_str());
        out.append("\n");
    }
    proof {
        assert(out@ =~= header_text(base@, count as nat, total_len as nat, blocks));
    }
    out
}

/// The `_SIZE` macro records the total input length alone: the header is the
/// text before the macro line, the line `#define <base>_SIZE <total>`, and
/// the text after it, where the parts before and after never depend on the
/// total.  Headers written for the same base and total thus carry the very
/// same macro line whatever the chunk count and the block flag.
pub proof fn lemma_size_macro_independent(base: Seq<char>, count: nat, total: nat, blocks: bool)
    ensures
        header_text(base, count, total, blocks) == header_prefix(base, count, blocks) + size_line(
            base,
            total,
        ) + header_suffix(base, count, blocks),
        header_text(base, count, total, blocks).subrange(
            header_prefix(base, count, blocks).len() as int,
            header_prefix(base, count, blocks).len() + size_line(base, total).len() as int,
        ) == size_line(base, total),
{
    let h = header_text(base, count, total, blocks);
    let p = header_prefix(base, count, blocks).len() as int;
    assert(h.subrange(p, p + size_line(base, total).len()) =~= size_line(base, total));
}

/// In block mode the two aggregate arrays carry exactly `count` entries each
/// and are index-aligned: the BLOCK_SIZES entry at index `i` takes the
/// address of the size constant of the very chunk whose byte array the
/// BLOCKS entry at index `i` names.
pub proof fn lemma_block_arrays_aligned(base: Seq<char>, count: nat)
    ensures
        blocks_entries(base, count).len() == count,
        sizes_entries(base, count).len() == count,
        forall|i: int|
            0 <= i < count ==> blocks_entries(base, count)[i] == chunk_symbol(
                base,
                (i + 1) as nat,
            ),
        forall|i: int|
            0 <= i < count ==> sizes_entries(base, count)[i] == "&"@ + blocks_entries(
                base,
                count,
            )[i] + "_SIZE"@,
{
}

} // verus!
