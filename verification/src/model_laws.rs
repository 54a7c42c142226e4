//! What the numbers, names and sizes of a weight file are.
use vstd::prelude::*;

use crate::bytes::le_unfold;
use crate::engine::{
    accepted_files_state_the_architecture, architecture_fault, constants, number_fault,
    stated_entries, stated_number, ArchitectureError, Constant,
};
use crate::gguf::{align32, layout, scalar_bytes, Failure, GgufFile, Layout};
use crate::model::{product, TensorType};

verus! {

/// An accepted file states, where it states them, these numbers under these keys, behind the name
/// of its architecture.
pub proof fn accepted_files_state_these_numbers(f: GgufFile)
    requires
        architecture_fault(f) is None,
    ensures
        ({
            &&& stated_number(f, ".block_count"@) matches Some(n) ==> n == 43
            &&& stated_number(f, ".embedding_length"@) matches Some(n) ==> n == 4096
            &&& stated_number(f, ".vocab_size"@) matches Some(n) ==> n == 129280
            &&& stated_number(f, ".attention.head_count"@) matches Some(n) ==> n == 64
            &&& stated_number(f, ".attention.head_count_kv"@) matches Some(n) ==> n == 1
            &&& stated_number(f, ".attention.key_length"@) matches Some(n) ==> n == 512
            &&& stated_number(f, ".attention.value_length"@) matches Some(n) ==> n == 512
            &&& stated_number(f, ".rope.dimension_count"@) matches Some(n) ==> n == 64
            &&& stated_number(f, ".attention.output_group_count"@) matches Some(n) ==> n == 8
            &&& stated_number(f, ".attention.q_lora_rank"@) matches Some(n) ==> n == 1024
            &&& stated_number(f, ".attention.output_lora_rank"@) matches Some(n) ==> n == 1024
            &&& stated_number(f, ".expert_count"@) matches Some(n) ==> n == 256
            &&& stated_number(f, ".expert_used_count"@) matches Some(n) ==> n == 6
            &&& stated_number(f, ".expert_shared_count"@) matches Some(n) ==> n == 1
            &&& stated_number(f, ".expert_feed_forward_length"@) matches Some(n) ==> n == 2048
            &&& stated_number(f, ".hash_layer_count"@) matches Some(n) ==> n == 3
            &&& stated_number(f, ".attention.sliding_window"@) matches Some(n) ==> n == 128
            &&& stated_number(f, ".attention.indexer.head_count"@) matches Some(n) ==> n == 64
            &&& stated_number(f, ".attention.indexer.key_length"@) matches Some(n) ==> n == 128
            &&& stated_number(f, ".attention.indexer.top_k"@) matches Some(n) ==> n == 512
            &&& stated_number(f, ".hyper_connection.count"@) matches Some(n) ==> n == 4
            &&& stated_number(
                f,
                ".hyper_connection.sinkhorn_iterations"@,
            ) matches Some(n) ==> n == 20
        }),
{
    accepted_files_state_the_architecture(f, Constant::Layers);
    accepted_files_state_the_architecture(f, Constant::Width);
    accepted_files_state_the_architecture(f, Constant::Vocabulary);
    accepted_files_state_the_architecture(f, Constant::Heads);
    accepted_files_state_the_architecture(f, Constant::KvHeads);
    accepted_files_state_the_architecture(f, Constant::KeyWidth);
    accepted_files_state_the_architecture(f, Constant::ValueWidth);
    accepted_files_state_the_architecture(f, Constant::Rotated);
    accepted_files_state_the_architecture(f, Constant::OutputGroups);
    accepted_files_state_the_architecture(f, Constant::QueryRank);
    accepted_files_state_the_architecture(f, Constant::OutputRank);
    accepted_files_state_the_architecture(f, Constant::Experts);
    accepted_files_state_the_architecture(f, Constant::ExpertsUsed);
    accepted_files_state_the_architecture(f, Constant::ExpertsShared);
    accepted_files_state_the_architecture(f, Constant::ExpertWidth);
    accepted_files_state_the_architecture(f, Constant::HashLayers);
    accepted_files_state_the_architecture(f, Constant::Window);
    accepted_files_state_the_architecture(f, Constant::IndexerHeads);
    accepted_files_state_the_architecture(f, Constant::IndexerKeyWidth);
    accepted_files_state_the_architecture(f, Constant::IndexerTopK);
    accepted_files_state_the_architecture(f, Constant::Streams);
    accepted_files_state_the_architecture(f, Constant::SinkhornIterations);
}

/// A fault names a number that the file states and that differs, or the length of a vocabulary
/// that is not empty and has not 129280 entries.
pub proof fn faults_name_what_differs(f: GgufFile)
    ensures
        match architecture_fault(f) {
            Some(ArchitectureError::Number(c, n)) => stated_number(f, c.suffix()) == Some(n) && n
                != c.fixed(),
            Some(ArchitectureError::VocabularyList(n)) => stated_entries(f) as usize == n
                && stated_entries(f) != 0 && stated_entries(f) != 129280,
            None => stated_entries(f) == 0 || stated_entries(f) == 129280,
        },
{
    number_faults_differ(f, constants());
}

/// Of several numbers that differ, the one that is first in the list of constants is named.
pub proof fn the_first_fault_is_named(f: GgufFile, c: Constant, n: u32)
    requires
        architecture_fault(f) == Some(ArchitectureError::Number(c, n)),
    ensures
        exists|i: int|
            0 <= i < constants().len() && #[trigger] constants()[i] == c && forall|j: int|
                0 <= j < i ==> (stated_number(f, (#[trigger] constants()[j]).suffix()) matches Some(
                    m,
                ) ==> m == constants()[j].fixed()),
{
    earlier_numbers_agree(f, constants(), c, n);
}

proof fn earlier_numbers_agree(f: GgufFile, cs: Seq<Constant>, c: Constant, n: u32)
    requires
        number_fault(f, cs) == Some(ArchitectureError::Number(c, n)),
    ensures
        exists|i: int|
            0 <= i < cs.len() && #[trigger] cs[i] == c && forall|j: int|
                0 <= j < i ==> (stated_number(f, (#[trigger] cs[j]).suffix()) matches Some(m)
                    ==> m == cs[j].fixed()),
    decreases cs.len(),
{
    let stated = stated_number(f, cs[0].suffix());
    if stated is Some && stated->0 != cs[0].fixed() {
        assert(cs[0] == c);
    } else {
        let rest = cs.drop_first();
        earlier_numbers_agree(f, rest, c, n);
        let i = choose|i: int|
            0 <= i < rest.len() && #[trigger] rest[i] == c && forall|j: int|
                0 <= j < i ==> (stated_number(f, (#[trigger] rest[j]).suffix()) matches Some(m)
                    ==> m == rest[j].fixed());
        assert(cs[i + 1] == c);
        assert forall|j: int| 0 <= j < i + 1 implies (stated_number(
            f,
            (#[trigger] cs[j]).suffix(),
        ) matches Some(m) ==> m == cs[j].fixed()) by {
            if j > 0 {
                assert(rest[j - 1] == cs[j]);
            }
        }
    }
}

proof fn number_faults_differ(f: GgufFile, cs: Seq<Constant>)
    ensures
        match number_fault(f, cs) {
            Some(ArchitectureError::Number(c, n)) => stated_number(f, c.suffix()) == Some(n) && n
                != c.fixed(),
            Some(ArchitectureError::VocabularyList(_)) => false,
            None => true,
        },
    decreases cs.len(),
{
    if cs.len() > 0 {
        number_faults_differ(f, cs.drop_first());
    }
}

/// These are the numbers of the types in a file.
pub proof fn types_have_the_numbers_of_files(t: TensorType)
    ensures
        t.id() == 0 <==> t is F32,
        t.id() == 1 <==> t is F16,
        t.id() == 8 <==> t is Q8_0,
        t.id() == 10 <==> t is Q2K,
        t.id() == 12 <==> t is Q4K,
        t.id() == 16 <==> t is Iq2Xxs,
        t.id() == 26 <==> t is I32,
{
}

/// Bits of an element in a block.
pub open spec fn element_bits(t: TensorType) -> int {
    match t {
        TensorType::F32 | TensorType::I32 => 32,
        TensorType::F16 => 16,
        TensorType::Q8_0 => 8,
        TensorType::Q4K => 4,
        TensorType::Q2K | TensorType::Iq2Xxs => 2,
    }
}

/// Bytes of a block that are no elements: 16-bit factors, and the scales of its groups: one byte
/// for each 16 elements, or a pair of six bits for each 32.
pub open spec fn factor_bytes(t: TensorType) -> int {
    match t {
        TensorType::F32 | TensorType::I32 | TensorType::F16 => 0,
        TensorType::Q8_0 | TensorType::Iq2Xxs => 2,
        TensorType::Q2K => 20,
        TensorType::Q4K => 16,
    }
}

/// A block holds its elements and its factors, and nothing else; blocks are of 32 elements, of 256
/// or of one.
pub proof fn blocks_hold_elements_and_factors(t: TensorType)
    ensures
        8 * (t.spec_block_bytes() - factor_bytes(t)) == t.spec_elems_per_block() * element_bits(t),
        t.spec_elems_per_block() == if factor_bytes(t) == 0 {
            1
        } else if t is Q8_0 {
            32
        } else {
            256int
        },
{
}

/// Elements in whole blocks take the bytes of those blocks, and one more element one block more.
pub proof fn whole_blocks_take_their_bytes(t: TensorType, blocks: int)
    requires
        blocks >= 0,
    ensures
        t.spec_byte_size(blocks * t.spec_elems_per_block()) == blocks * t.spec_block_bytes(),
        t.spec_byte_size(blocks * t.spec_elems_per_block() + 1) == (blocks + 1)
            * t.spec_block_bytes(),
{
    let d = t.spec_elems_per_block() as int;
    let n = blocks * d;
    vstd::arithmetic::div_mod::lemma_fundamental_div_mod_converse(n + d - 1, d, blocks, d - 1);
    assert(n + d == (blocks + 1) * d) by (nonlinear_arith)
        requires
            n == blocks * d,
    ;
    vstd::arithmetic::div_mod::lemma_fundamental_div_mod_converse(n + 1 + d - 1, d, blocks + 1, 0);
}

/// The elements of dimensions put together are those of the one times those of the other; one
/// dimension has as many as it says.
pub proof fn dimensions_multiply(a: Seq<u64>, b: Seq<u64>, n: u64)
    ensures
        product(a + b) == product(a) * product(b),
        product(seq![n]) == n,
    decreases b.len(),
{
    assert(seq![n].drop_last() =~= Seq::<u64>::empty());
    assert(product(Seq::<u64>::empty()) == 1);
    if b.len() == 0 {
        assert(a + b =~= a);
    } else {
        assert((a + b).drop_last() =~= a + b.drop_last());
        dimensions_multiply(a, b.drop_last(), n);
        vstd::arithmetic::mul::lemma_mul_is_associative(
            product(a),
            product(b.drop_last()),
            b.last() as int,
        );
    }
}

/// Values of these types have one, two, four and eight bytes; no other type has a fixed size.
pub proof fn scalars_take_their_bytes(vtype: u32)
    ensures
        scalar_bytes(vtype) == Some(1int) <==> vtype == 0 || vtype == 1 || vtype == 7,
        scalar_bytes(vtype) == Some(2int) <==> vtype == 2 || vtype == 3,
        scalar_bytes(vtype) == Some(4int) <==> vtype == 4 || vtype == 5 || vtype == 6,
        scalar_bytes(vtype) == Some(8int) <==> vtype == 10 || vtype == 11 || vtype == 12,
        scalar_bytes(vtype) is None <==> vtype == 8 || vtype == 9 || vtype > 12,
{
}

/// The data starts at the next multiple of 32.
pub proof fn data_starts_at_a_multiple(at: int)
    ensures
        align32(at) % 32 == 0,
        at <= align32(at) < at + 32,
{
}

/// A file starts with the letters `GGUF` and version 2 or 3; it is refused for the first of these
/// that it lacks, and for being too short to hold them and the two counts.
pub proof fn other_files_are_refused(d: Seq<u8>)
    ensures
        d.len() < 4 ==> layout(d) == Err::<Layout, Failure>(Failure::Truncated),
        d.len() >= 4 && !(d[0] == 'G' as u8 && d[1] == 'G' as u8 && d[2] == 'U' as u8 && d[3]
            == 'F' as u8) ==> layout(d) == Err::<Layout, Failure>(
            Failure::BadMagic(
                (d[0] + 0x100 * d[1] + 0x1_0000 * d[2] + 0x100_0000 * d[3]) as u32,
            ),
        ),
        layout(d) is Ok ==> {
            &&& d.len() >= 24
            &&& d[0] == 'G' as u8 && d[1] == 'G' as u8 && d[2] == 'U' as u8 && d[3] == 'F' as u8
            &&& d[4] == 2 || d[4] == 3
            &&& d[5] == 0 && d[6] == 0 && d[7] == 0
        },
        d.len() >= 8 && d[0] == 'G' as u8 && d[1] == 'G' as u8 && d[2] == 'U' as u8 && d[3]
            == 'F' as u8 ==> {
            let v = d[4] + 0x100 * d[5] + 0x1_0000 * d[6] + 0x100_0000 * d[7];
            &&& v < 2 || v > 3 ==> layout(d) == Err::<Layout, Failure>(
                Failure::UnsupportedVersion(v as u32),
            )
            &&& (v == 2 || v == 3) && d.len() < 24 ==> layout(d) == Err::<Layout, Failure>(
                Failure::Truncated,
            )
        },
{
    le_unfold(d, 0);
    le_unfold(d, 4);
}

} // verus!
