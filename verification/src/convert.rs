//! The conversion driver: splits the input bytes into chunks of at most a
//! configured cap, assigns each chunk its 1-based ordinal, and renders for
//! each the text of its output source file together with its file path
//! `<output_base>.<ordinal>.c`.
//!
//! A zero-length input is the one degenerate case, and the policy here is
//! explicit: it yields no chunk files at all, and a header written for chunk
//! count 0 declares no symbols while still recording a total size of 0.

use vstd::prelude::*;
use vstd::slice::slice_subrange;
use vstd::arithmetic::div_mod::lemma_div_plus_one;
use vstd::arithmetic::div_mod::lemma_fundamental_div_mod_converse;
use crate::encode::chunk_text;
use crate::encode::encode_chunk;
use crate::numerals::dec_of;
use crate::numerals::u64_to_string;

verus! {

/// One generated chunk file: where it goes, the text it holds, and how many
/// input bytes it covers.
pub struct ChunkFile {
    pub path: String,
    pub text: String,
    pub len: usize,
}

/// The aggregate of one conversion run: the chunk files in ordinal order and
/// the total number of input bytes they cover.
pub struct Conversion {
    pub files: Vec<ChunkFile>,
    pub total_len: usize,
}

/// The input split into chunks: full runs of `m` bytes, then one shorter
/// final run for whatever remains.  A zero-length input has no chunks.
pub open spec fn chunks_of(data: Seq<u8>, m: nat) -> Seq<Seq<u8>>
    recommends
        m >= 1,
    decreases data.len(),
{
    if m == 0 || data.len() == 0 {
        Seq::empty()
    } else if data.len() <= m {
        seq![data]
    } else {
        seq![data.take(m as int)] + chunks_of(data.skip(m as int), m)
    }
}

/// The byte counts of a run of chunks, summed.
pub open spec fn sum_lens(cs: Seq<Seq<u8>>) -> nat
    decreases cs.len(),
{
    if cs.len() == 0 {
        0
    } else {
        cs.first().len() + sum_lens(cs.drop_first())
    }
}

/// The path of the chunk file with the given ordinal:
/// `<output_base>.<ordinal>.c`.
pub open spec fn chunk_path(output_base: Seq<char>, ordinal: nat) -> Seq<char> {
    output_base + "."@ + dec_of(ordinal) + ".c"@
}

/// Renders the output path of the chunk with the given ordinal.
pub fn chunk_file_path(output_base: &str, ordinal: u32) -> (r: String)
    ensures
        r@ == chunk_path(output_base@, ordinal as nat),
{
    let mut out: String = output_base.to_owned();
    out.append(".");
    let ord = u64_to_string(ordinal as u64);
    out.append(ord.as_str());
    out.append(".c");
    proof {
        assert(out@ =~= chunk_path(output_base@, ordinal as nat));
    }
    out
}

/// Splitting loses nothing: the chunks of an input concatenate back to the
/// input byte for byte, and their byte counts sum to the input's exact
/// length.
pub proof fn lemma_chunks_reassemble(data: Seq<u8>, m: nat)
    requires
        m >= 1,
    ensures
        chunks_of(data, m).flatten() == data,
        sum_lens(chunks_of(data, m)) == data.len(),
    decreases data.len(),
{
    let cs = chunks_of(data, m);
    if data.len() == 0 {
        assert(cs.flatten() =~= data);
    } else if data.len() <= m {
        assert(cs =~= seq![data]);
        assert(cs.first() == data);
        assert(cs.drop_first() =~= Seq::<Seq<u8>>::empty());
        assert(Seq::<Seq<u8>>::empty().flatten() == Seq::<u8>::empty());
        assert(cs.flatten() == data + Seq::<u8>::empty());
        assert(cs.flatten() =~= data);
        assert(sum_lens(Seq::<Seq<u8>>::empty()) == 0);
        assert(sum_lens(cs) == data.len() + sum_lens(cs.drop_first()));
    } else {
        lemma_chunks_reassemble(data.skip(m as int), m);
        assert(cs.first() == data.take(m as int));
        assert(cs.drop_first() =~= chunks_of(data.skip(m as int), m));
        assert(cs.flatten() == data.take(m as int) + chunks_of(data.skip(m as int), m).flatten());
        assert(data.take(m as int) + data.skip(m as int) =~= data);
        assert(sum_lens(cs) == cs.first().len() + sum_lens(cs.drop_first()));
        assert(sum_lens(cs.drop_first()) == sum_lens(chunks_of(data.skip(m as int), m)));
    }
}

/// For a nonempty input, the number of chunks is exactly the rounded-up
/// quotient of the input's length by the chunk cap `m`.
pub proof fn lemma_chunk_count_is_ceil(data: Seq<u8>, m: nat)
    requires
        m >= 1,
        data.len() > 0,
    ensures
        chunks_of(data, m).len() == (data.len() + m - 1) as int / (m as int),
    decreases data.len(),
{
    let l = data.len() as int;
    if data.len() <= m {
        lemma_fundamental_div_mod_converse(l + m - 1, m as int, 1, l - 1);
    } else {
        lemma_chunk_count_is_ceil(data.skip(m as int), m);
        lemma_div_plus_one(l - 1, m as int);
    }
}

/// Every chunk holds at least one byte and at most `m`; every chunk but the
/// last holds exactly `m`.  Only the final chunk may fall short of the cap.
pub proof fn lemma_chunk_sizes(data: Seq<u8>, m: nat)
    requires
        m >= 1,
    ensures
        forall|i: int|
            0 <= i < chunks_of(data, m).len() ==> 0 < (#[trigger] chunks_of(data, m)[i]).len()
                <= m,
        forall|i: int|
            0 <= i < chunks_of(data, m).len() - 1 ==> (#[trigger] chunks_of(data, m)[i]).len()
                == m,
    decreases data.len(),
{
    let cs = chunks_of(data, m);
    if data.len() == 0 || data.len() <= m {
    } else {
        lemma_chunk_sizes(data.skip(m as int), m);
        let rest = chunks_of(data.skip(m as int), m);
        assert forall|i: int| 0 <= i < cs.len() implies 0 < (#[trigger] cs[i]).len() <= m by {
            if i > 0 {
                assert(cs[i] == rest[i - 1]);
            }
        }
        assert forall|i: int| 0 <= i < cs.len() - 1 implies (#[trigger] cs[i]).len() == m by {
            if i > 0 {
                assert(cs[i] == rest[i - 1]);
            }
        }
    }
}

/// Runs one conversion: splits `data` at the cap `max_chunk`, and renders
/// for each chunk its output path under `output_base` and its source text,
/// which includes `hfile` and derives its symbols from `base`.
///
/// The result covers every input byte: the files correspond one to one with
/// `chunks_of(data, max_chunk)`, in ordinal order starting at 1, and the
/// total length is exactly the input's length.  A zero-length input yields
/// no files.
pub fn convert(base: &str, hfile: &str, output_base: &str, data: &[u8], max_chunk: usize) -> (r:
    Conversion)
    requires
        max_chunk >= 1,
        chunks_of(data@, max_chunk as nat).len() <= u32::MAX,
    ensures
        r.total_len == data@.len(),
        r.files@.len() == chunks_of(data@, max_chunk as nat).len(),
        data@.len() == 0 ==> r.files@.len() == 0,
        data@.len() > 0 ==> r.files@.len() == (data@.len() + max_chunk - 1) as int / (
        max_chunk as int),
        forall|i: int|
            0 <= i < r.files@.len() ==> {
                &&& (#[trigger] r.files@[i]).path@ == chunk_path(output_base@, (i + 1) as nat)
                &&& r.files@[i].text@ == chunk_text(
                    hfile@,
                    base@,
                    (i + 1) as nat,
                    chunks_of(data@, max_chunk as nat)[i],
                )
                &&& r.files@[i].len == chunks_of(data@, max_chunk as nat)[i].len()
            },
{
    let ghost m = max_chunk as nat;
    let ghost cs = chunks_of(data@, m);
    let mut files: Vec<ChunkFile> = Vec::new();
    let mut off: usize = 0;
    proof {
        assert(data@.skip(0) =~= data@);
        assert(cs.skip(0) =~= cs);
    }
    while off < data.len()
        invariant
            max_chunk >= 1,
            m == max_chunk as nat,
            cs == chunks_of(data@, m),
            cs.len() <= u32::MAX,
            off <= data@.len(),
            files@.len() <= cs.len(),
            chunks_of(data@.skip(off as int), m) =~= cs.skip(files@.len() as int),
            forall|i: int|
                0 <= i < files@.len() ==> {
                    &&& (#[trigger] files@[i]).path@ == chunk_path(output_base@, (i + 1) as nat)
                    &&& files@[i].text@ == chunk_text(hfile@, base@, (i + 1) as nat, cs[i])
                    &&& files@[i].len == cs[i].len()
                },
        decreases data@.len() - off,
    {
        let ghost k = files@.len() as int;
        let ghost rest = data@.skip(off as int);
        proof {
            assert(rest.len() > 0);
            assert(chunks_of(rest, m).len() >= 1);
            assert(cs.skip(k).len() == cs.len() - k);
            assert(k < cs.len());
            assert(cs[k] == cs.skip(k)[0]);
        }
        let remaining = data.len() - off;
        let take = if remaining < max_chunk {
            remaining
        } else {
            max_chunk
        };
        proof {
            if rest.len() <= m {
                assert(chunks_of(rest, m)[0] =~= rest);
                assert(rest =~= data@.subrange(off as int, off + take));
            } else {
                assert(chunks_of(rest, m)[0] =~= rest.take(m as int));
                assert(rest.take(m as int) =~= data@.subrange(off as int, off + take));
            }
        }
        let part = slice_subrange(data, off, off + take);
        let ordinal = (files.len() as u32) + 1;
        let path = chunk_file_path(output_base, ordinal);
        let text = encode_chunk(hfile, base, ordinal, part);
        files.push(ChunkFile { path, text, len: take });
        off = off + take;
        proof {
            let rest2 = data@.skip(off as int);
            if rest.len() <= m {
                assert(chunks_of(rest, m) =~= seq![rest]);
                assert(rest2.len() == 0);
                assert(chunks_of(rest2, m) =~= cs.skip(k + 1));
            } else {
                assert(rest.skip(m as int) =~= rest2);
                assert(chunks_of(rest, m).skip(1) =~= chunks_of(rest2, m));
                assert(cs.skip(k).skip(1) =~= cs.skip(k + 1));
                assert(chunks_of(rest2, m) =~= cs.skip(k + 1));
            }
        }
    }
    proof {
        assert(data@.skip(off as int).len() == 0);
        assert(cs.skip(files@.len() as int).len() == 0);
        assert(files@.len() == cs.len());
        if data@.len() > 0 {
            lemma_chunk_count_is_ceil(data@, m);
        }
    }
    Conversion { files, total_len: data.len() }
}

} // verus!
