//! Weight files built in memory and parsed.
use deepseek_engine::engine::{
    bind_weights, check_architecture, weight_label, ArchitectureError, Constant, Engine,
};
use deepseek_engine::gguf::{kv_read_str, kv_read_u32, kv_read_u64, skip_value, GgufError, GgufFile};
use deepseek_engine::model::{LayerSlot, ModelSlot, ModelWeights, TensorType, Weight};
use deepseek_engine::tokenizer::{Tokenizer, TokenizerError};

struct GgufBuilder {
    buf: Vec<u8>,
}

impl GgufBuilder {
    fn new() -> Self {
        let mut b = Self { buf: Vec::new() };
        b.write_u32(0x46554747); // "GGUF" magic
        b.write_u32(3); // version 3
        b
    }

    fn write_u32(&mut self, v: u32) {
        self.buf.extend_from_slice(&v.to_le_bytes());
    }
    fn write_u64(&mut self, v: u64) {
        self.buf.extend_from_slice(&v.to_le_bytes());
    }
    fn write_str(&mut self, s: &str) {
        self.write_u64(s.len() as u64);
        self.buf.extend_from_slice(s.as_bytes());
    }

    /// Inserts the two counts behind the magic and the version.
    fn finish_header(&mut self, n_tensors: u64, n_kv: u64) {
        let counts: Vec<u8> = [n_tensors.to_le_bytes(), n_kv.to_le_bytes()].concat();
        self.buf.splice(8..8, counts);
    }

    fn add_tensor(&mut self, name: &str, type_id: u32, dims: &[u64], offset: u64) {
        self.write_str(name);
        self.write_u32(dims.len() as u32);
        for &d in dims {
            self.write_u64(d);
        }
        self.write_u32(type_id);
        self.write_u64(offset);
    }

    /// Pads to 32-byte alignment for the data section.
    fn align_data(&mut self) -> usize {
        let aligned = (self.buf.len() + 31) & !31;
        self.buf.resize(aligned, 0u8);
        aligned
    }

    fn build(self) -> Vec<u8> {
        self.buf
    }
}

fn synthetic(build_fn: impl FnOnce(&mut GgufBuilder)) -> Vec<u8> {
    let mut b = GgufBuilder::new();
    build_fn(&mut b);
    b.build()
}

fn parse(bytes: &[u8]) -> GgufFile<'_> {
    GgufFile::parse(bytes).expect("parse")
}

#[test]
fn parse_single_f16_tensor() {
    let bytes = synthetic(|b| {
        b.finish_header(1, 0);
        b.add_tensor("blk.0.ffn_gate_inp.weight", 1 /*F16*/, &[4096, 256], 0);
        b.align_data();
        // 4096 * 256 * 2 bytes (f16) of data
        b.buf.extend(vec![0u8; 4096 * 256 * 2]);
    });
    let gguf = parse(&bytes);

    assert_eq!(gguf.tensors.len(), 1);
    let t = &gguf.tensors[0];
    assert_eq!(t.name, "blk.0.ffn_gate_inp.weight");
    assert_eq!(t.ty, TensorType::F16);
    assert_eq!(t.dims, vec![4096u64, 256]);
    assert_eq!(t.offset, 0);
    // byte_size: 4096 * 256 * 2 = 2_097_152
    assert_eq!(t.byte_size(), 4096 * 256 * 2);
}

#[test]
fn parse_single_q8_0_tensor() {
    let bytes = synthetic(|b| {
        b.finish_header(1, 0);
        b.add_tensor("blk.0.attn_kv.weight", 8 /*Q8_0*/, &[4096, 512], 0);
        b.align_data();
        let n_blocks = (4096 * 512 + 31) / 32;
        b.buf.extend(vec![0u8; n_blocks * 34]);
    });
    let gguf = parse(&bytes);

    let t = &gguf.tensors[0];
    assert_eq!(t.name, "blk.0.attn_kv.weight");
    assert_eq!(
        t.ty,
        TensorType::Q8_0,
        "Q8_0 type_id=8 must parse as Q8_0, not F16"
    );
    assert_eq!(t.dims, vec![4096u64, 512]);
}

#[test]
fn parse_iq2_xxs_tensor() {
    let bytes = synthetic(|b| {
        b.finish_header(1, 0);
        b.add_tensor(
            "blk.0.ffn_gate_exps.weight",
            16, /*IQ2_XXS*/
            &[4096, 2048],
            0,
        );
        b.align_data();
        // IQ2_XXS: 66 bytes per 256-element block
        let n_elems: usize = 4096 * 2048;
        let n_blocks = (n_elems + 255) / 256;
        b.buf.extend(vec![0u8; n_blocks * 66]);
    });
    let gguf = parse(&bytes);

    let t = &gguf.tensors[0];
    assert_eq!(t.ty, TensorType::Iq2Xxs);
}

#[test]
fn parse_multiple_tensors_with_offsets() {
    // Two tensors: second starts right after first (offset = byte_size of first).
    let size0: u64 = 64; // 32 f32 elements × 2 bytes each (F16)
    let size1: u64 = 128;
    let bytes = synthetic(|b| {
        b.finish_header(2, 0);
        b.add_tensor("tensor0", 1 /*F16*/, &[4, 8], 0); // 4*8*2=64 bytes
        b.add_tensor("tensor1", 1 /*F16*/, &[8, 8], size0); // starts at 64
        b.align_data();
        b.buf.extend(vec![0u8; (size0 + size1) as usize]);
    });
    let gguf = parse(&bytes);

    assert_eq!(gguf.tensors.len(), 2);
    assert_eq!(gguf.tensors[0].offset, 0);
    assert_eq!(gguf.tensors[1].offset, size0);

    // tensor_data slices must be non-overlapping and correct size.
    let d0 = gguf.tensor_data(&gguf.tensors[0]);
    let d1 = gguf.tensor_data(&gguf.tensors[1]);
    assert_eq!(d0.len(), size0 as usize);
    assert_eq!(d1.len(), size1 as usize);
}

#[test]
fn tensor_data_slice_contains_written_bytes() {
    // Write a recognisable pattern into the data section and verify it comes back.
    let bytes = synthetic(|b| {
        b.finish_header(1, 0);
        b.add_tensor("w", 1 /*F16*/, &[1, 4], 0); // 4 f16 = 8 bytes
        b.align_data();
        // f16 1.0 = 0x3C00 → bytes [0x00, 0x3C]
        for _ in 0..4 {
            b.buf.push(0x00);
            b.buf.push(0x3C);
        }
    });
    let gguf = parse(&bytes);

    let data = gguf.tensor_data(&gguf.tensors[0]);
    assert_eq!(data.len(), 8);
    for i in 0..4 {
        assert_eq!(data[i * 2], 0x00, "lo byte of f16 1.0");
        assert_eq!(data[i * 2 + 1], 0x3C, "hi byte of f16 1.0");
    }
}

#[test]
fn find_by_name() {
    let bytes = synthetic(|b| {
        b.finish_header(2, 0);
        b.add_tensor("alpha", 0 /*F32*/, &[4], 0);
        b.add_tensor("beta", 0 /*F32*/, &[4], 16);
        b.align_data();
        b.buf.extend(vec![0u8; 32]);
    });
    let gguf = parse(&bytes);

    assert!(gguf.find("alpha").is_some());
    assert!(gguf.find("beta").is_some());
    assert!(gguf.find("gamma").is_none());
    assert_eq!(gguf.find("beta").unwrap().offset, 16);
}

#[test]
fn type_id_1_is_f16_not_q8_0() {
    // type_id=1 (F16) must NOT parse as Q8_0 (id=8).
    let bytes = synthetic(|b| {
        b.finish_header(1, 0);
        b.add_tensor("router", 1, &[4096, 256], 0);
        b.align_data();
        b.buf.extend(vec![0u8; 4096 * 256 * 2]);
    });
    let gguf = parse(&bytes);
    let t = &gguf.tensors[0];
    assert_eq!(t.ty, TensorType::F16, "type_id=1 must be F16");
    assert_ne!(t.ty, TensorType::Q8_0, "type_id=1 must NOT be Q8_0");
}

#[test]
fn tensor_types_have_their_ids_and_sizes() {
    let known = [
        (0u32, TensorType::F32, 4usize, 1usize),
        (1, TensorType::F16, 2, 1),
        (8, TensorType::Q8_0, 34, 32),
        (10, TensorType::Q2K, 84, 256),
        (16, TensorType::Iq2Xxs, 66, 256),
        (26, TensorType::I32, 4, 1),
    ];
    for &(id, ty, bytes, elems) in &known {
        assert_eq!(TensorType::from_u32(id), Some(ty));
        assert_eq!(ty.to_u32(), id);
        assert_eq!(ty.block_bytes(), bytes);
        assert_eq!(ty.elems_per_block(), elems);
        // A last block that is not full takes a whole block.
        assert_eq!(ty.byte_size(elems + 1), 2 * bytes);
        assert_eq!(ty.byte_size(0), 0);
    }
    assert_eq!(TensorType::from_u32(2), None);
}

#[test]
fn bad_magic_is_refused() {
    let mut bytes = synthetic(|b| b.finish_header(0, 0));
    bytes[0] = 0;
    assert!(matches!(GgufFile::parse(&bytes), Err(GgufError::BadMagic(0x46554700))));
}

#[test]
fn versions_other_than_two_and_three_are_refused() {
    let mut bytes = synthetic(|b| b.finish_header(0, 0));
    bytes[4] = 4;
    assert!(matches!(GgufFile::parse(&bytes), Err(GgufError::UnsupportedVersion(4))));
    bytes[4] = 1;
    assert!(matches!(GgufFile::parse(&bytes), Err(GgufError::UnsupportedVersion(1))));
    bytes[4] = 2;
    assert!(GgufFile::parse(&bytes).is_ok());
}

#[test]
fn unknown_tensor_type_is_refused_with_its_name() {
    let bytes = synthetic(|b| {
        b.finish_header(1, 0);
        b.add_tensor("odd", 7, &[4], 0);
    });
    match GgufFile::parse(&bytes) {
        Err(GgufError::UnknownTensorType { ty, name }) => {
            assert_eq!(ty, 7);
            assert_eq!(name, "odd");
        }
        other => panic!("unexpected {:?}", other.is_ok()),
    }
}

#[test]
fn names_that_are_not_utf8_are_refused() {
    let bytes = synthetic(|b| {
        b.finish_header(1, 0);
        b.write_u64(2);
        b.buf.extend_from_slice(&[0xC3, 0x28]);
        b.write_u32(0);
        b.write_u32(0);
        b.write_u64(0);
    });
    assert!(matches!(GgufFile::parse(&bytes), Err(GgufError::InvalidUtf8)));
}

#[test]
fn unknown_metadata_type_is_refused() {
    let bytes = synthetic(|b| {
        b.finish_header(0, 1);
        b.write_str("key");
        b.write_u32(99);
    });
    assert!(matches!(GgufFile::parse(&bytes), Err(GgufError::UnknownMetadataType(99))));
}

#[test]
fn truncated_files_are_refused() {
    let whole = synthetic(|b| {
        b.finish_header(1, 0);
        b.add_tensor("alpha", 0, &[4], 0);
    });
    for n in 0..whole.len() {
        assert!(matches!(GgufFile::parse(&whole[..n]), Err(GgufError::Truncated)), "at {n}");
    }
    assert!(GgufFile::parse(&whole).is_ok());
}

fn with_metadata() -> Vec<u8> {
    synthetic(|b| {
        b.finish_header(1, 5);
        b.write_str("general.flag");
        b.write_u32(7); // bool
        b.buf.push(1);
        b.write_str("answer");
        b.write_u32(4); // u32
        b.write_u32(42);
        b.write_str("words");
        b.write_u32(9); // array
        b.write_u32(8); // of strings
        b.write_u64(2);
        b.write_str("Grüße");
        b.write_str("");
        b.write_str("numbers");
        b.write_u32(9);
        b.write_u32(5); // of i32
        b.write_u64(3);
        b.write_u32(1);
        b.write_u32(0xFFFF_FFFF);
        b.write_u32(0x8000_0000);
        b.write_str("answer");
        b.write_u32(4);
        b.write_u32(7);
        b.add_tensor("token_embd.weight", 1, &[2, 2], 0);
        b.align_data();
        b.buf.extend(vec![0u8; 8]);
    })
}

#[test]
fn metadata_reads_back() {
    let bytes = with_metadata();
    let gguf = parse(&bytes);
    // The first of two entries with one key counts.
    assert_eq!(gguf.read_kv_u32("answer"), Some(42));
    assert_eq!(gguf.read_kv_u32("general.flag"), None);
    assert_eq!(gguf.read_kv_u32("missing"), None);
    assert_eq!(gguf.read_kv_string_array("words"), vec!["Grüße".to_string(), String::new()]);
    assert_eq!(gguf.read_kv_i32_array("numbers"), vec![1, -1, i32::MIN]);
    // An array of another type reads as empty.
    assert!(gguf.read_kv_string_array("numbers").is_empty());
    assert!(gguf.read_kv_i32_array("words").is_empty());
}

#[test]
fn values_are_skipped_by_their_type() {
    let data = vec![0u8; 64];
    assert_eq!(skip_value(&data, 3, 0).unwrap(), 4);
    assert_eq!(skip_value(&data, 3, 2).unwrap(), 5);
    assert_eq!(skip_value(&data, 3, 6).unwrap(), 7);
    assert_eq!(skip_value(&data, 3, 12).unwrap(), 11);
    // An empty string and an empty array.
    assert_eq!(skip_value(&data, 3, 8).unwrap(), 11);
    assert_eq!(skip_value(&data, 3, 9).unwrap(), 15);
    assert!(matches!(skip_value(&data, 3, 13), Err(GgufError::UnknownMetadataType(13))));
    assert!(matches!(skip_value(&data, 60, 8), Err(GgufError::Truncated)));
}

#[test]
fn cursor_reads_move_on() {
    let mut data = Vec::new();
    data.extend_from_slice(&7u32.to_le_bytes());
    data.extend_from_slice(&9u64.to_le_bytes());
    data.extend_from_slice(&2u64.to_le_bytes());
    data.extend_from_slice(b"ok");
    let mut cur = 0usize;
    assert_eq!(kv_read_u32(&data, &mut cur), 7);
    assert_eq!(kv_read_u64(&data, &mut cur), 9);
    assert_eq!(kv_read_str(&data, &mut cur), "ok");
    assert_eq!(cur, data.len());
}

#[test]
fn weights_are_bound_by_name() {
    let bytes = synthetic(|b| {
        b.finish_header(3, 0);
        b.add_tensor("blk.7.attn_kv.weight", 8, &[32], 0);
        b.add_tensor("token_embd.weight", 1, &[4], 64);
        b.add_tensor("blk.42.ffn_down_exps.weight", 10, &[256], 96);
        b.align_data();
    });
    let engine = Engine::new(parse(&bytes)).unwrap();
    let w: ModelWeights = bind_weights(&engine.gguf);
    for weights in [&engine.weights, &w] {
        assert_eq!(weights.get(Weight::Model(ModelSlot::TokenEmbd)).as_ref().unwrap().offset, 64);
        assert_eq!(
            weights.get(Weight::Layer(7, LayerSlot::AttnKv)).as_ref().unwrap().ty,
            TensorType::Q8_0
        );
        assert!(weights.get(Weight::Layer(6, LayerSlot::AttnKv)).is_none());
        assert_eq!(
            weights.get(Weight::Layer(42, LayerSlot::FfnDownExps)).as_ref().unwrap().name,
            "blk.42.ffn_down_exps.weight"
        );
        assert!(weights.get(Weight::Model(ModelSlot::Output)).is_none());
    }
    assert!(weight_label(Weight::Layer(7, LayerSlot::AttnNorm)).contains("attn_norm"));
}

#[test]
fn launches_cover_their_elements() {
    let c = Engine::cfg1d(1000, 256);
    assert_eq!(c.grid_dim, (4, 1, 1));
    assert_eq!(c.block_dim, (256, 1, 1));
    assert_eq!(c.shared_mem_bytes, 0);
    let c = Engine::cfg_warp8(129, 3);
    assert_eq!(c.grid_dim, (17, 3, 1));
    assert_eq!(c.block_dim, (256, 1, 1));
    let c = Engine::cfg2d(33, 64, 32, 32);
    assert_eq!(c.grid_dim, (2, 2, 1));
    assert_eq!(c.block_dim, (32, 32, 1));
}

/// A file that names its architecture, and states its layers and width under it.
fn stating(layers: u32, width: u32, entries: u64) -> Vec<u8> {
    synthetic(|b| {
        b.finish_header(0, 4);
        b.write_str("general.architecture");
        b.write_u32(8);
        b.write_str("flash");
        b.write_str("flash.block_count");
        b.write_u32(4);
        b.write_u32(layers);
        b.write_str("flash.embedding_length");
        b.write_u32(4);
        b.write_u32(width);
        b.write_str("tokenizer.ggml.tokens");
        b.write_u32(9);
        b.write_u32(8);
        b.write_u64(entries);
        for _ in 0..entries {
            b.write_str("");
        }
    })
}

#[test]
fn other_architectures_are_refused() {
    let check = |bytes: &[u8]| check_architecture(&parse(bytes));
    assert_eq!(check(&stating(43, 4096, 129280)), Ok(()));
    assert_eq!(check(&stating(43, 4096, 0)), Ok(()));
    assert_eq!(
        check(&stating(42, 4096, 129280)),
        Err(ArchitectureError::Number(Constant::Layers, 42))
    );
    assert_eq!(
        check(&stating(43, 7168, 129280)),
        Err(ArchitectureError::Number(Constant::Width, 7168))
    );
    assert_eq!(check(&stating(43, 4096, 3)), Err(ArchitectureError::VocabularyList(3)));
    let bytes = stating(61, 7168, 3);
    assert!(matches!(
        Engine::new(parse(&bytes)),
        Err(ArchitectureError::Number(Constant::Layers, 61))
    ));
    let file = parse(&bytes);
    assert_eq!(file.read_kv_string("general.architecture").as_deref(), Some("flash"));
    assert_eq!(file.read_kv_string("flash.block_count"), None);
    // Numbers under another name state nothing.
    let bytes = synthetic(|b| {
        b.finish_header(0, 1);
        b.write_str("flash.block_count");
        b.write_u32(4);
        b.write_u32(1);
    });
    assert_eq!(check(&bytes), Ok(()));
}

/// A file that states one number under the given end of its key.
fn stating_one(suffix: &str, n: u32) -> Vec<u8> {
    synthetic(|b| {
        b.finish_header(0, 2);
        b.write_str("general.architecture");
        b.write_u32(8);
        b.write_str("flash");
        b.write_str(&format!("flash{suffix}"));
        b.write_u32(4);
        b.write_u32(n);
    })
}

#[test]
fn every_stated_number_is_checked() {
    let all = [
        (Constant::Layers, ".block_count", 43),
        (Constant::Width, ".embedding_length", 4096),
        (Constant::Vocabulary, ".vocab_size", 129280),
        (Constant::Heads, ".attention.head_count", 64),
        (Constant::KvHeads, ".attention.head_count_kv", 1),
        (Constant::KeyWidth, ".attention.key_length", 512),
        (Constant::ValueWidth, ".attention.value_length", 512),
        (Constant::Rotated, ".rope.dimension_count", 64),
        (Constant::OutputGroups, ".attention.output_group_count", 8),
        (Constant::QueryRank, ".attention.q_lora_rank", 1024),
        (Constant::OutputRank, ".attention.output_lora_rank", 1024),
        (Constant::Experts, ".expert_count", 256),
        (Constant::ExpertsUsed, ".expert_used_count", 6),
        (Constant::ExpertsShared, ".expert_shared_count", 1),
        (Constant::ExpertWidth, ".expert_feed_forward_length", 2048),
        (Constant::HashLayers, ".hash_layer_count", 3),
        (Constant::Window, ".attention.sliding_window", 128),
        (Constant::IndexerHeads, ".attention.indexer.head_count", 64),
        (Constant::IndexerKeyWidth, ".attention.indexer.key_length", 128),
        (Constant::IndexerTopK, ".attention.indexer.top_k", 512),
        (Constant::Streams, ".hyper_connection.count", 4),
        (Constant::SinkhornIterations, ".hyper_connection.sinkhorn_iterations", 20),
    ];
    for (c, suffix, n) in all {
        assert_eq!(c.key_suffix(), suffix);
        assert_eq!(c.number(), n as usize);
        assert_eq!(check_architecture(&parse(&stating_one(suffix, n))), Ok(()));
        assert_eq!(
            check_architecture(&parse(&stating_one(suffix, n + 1))),
            Err(ArchitectureError::Number(c, n + 1))
        );
    }
}

/// A file without tensors whose last value is cut off.
fn cut_off() -> Vec<u8> {
    let mut bytes = synthetic(|b| {
        b.finish_header(0, 4);
        b.write_str("general.architecture");
        b.write_u32(8);
        b.write_str("flash");
        b.write_str("words");
        b.write_u32(9);
        b.write_u32(8);
        b.write_u64(1);
        b.write_str("one");
        b.write_str("answer");
        b.write_u32(4);
        b.write_u32(42);
        b.write_str("flash.block_count");
        b.write_u32(4);
        b.write_u32(1);
    });
    bytes.truncate(bytes.len() - 2);
    bytes
}

#[test]
fn earlier_values_are_read_where_the_last_is_cut_off() {
    let bytes = cut_off();
    let file = parse(&bytes);
    assert_eq!(file.kv_section_end, bytes.len() + 2);
    assert!(file.can_read_value("answer", 4));
    assert_eq!(file.read_kv_u32("answer"), Some(42));
    assert!(file.can_read_array("words", 8));
    assert_eq!(file.read_kv_string_array("words"), vec!["one".to_string()]);
    assert!(file.can_read_value("missing", 4));
    assert_eq!(file.read_kv_u32("missing"), None);
    assert!(!file.can_read_value("flash.block_count", 4));
    // The number is not stated whole, so that it does not differ.
    assert_eq!(check_architecture(&file), Ok(()));
    assert!(Engine::new(parse(&bytes)).is_ok());
    // Nothing is read behind the number that is missing.
    assert!(Tokenizer::can_read(&file));
    assert!(matches!(Tokenizer::from_gguf(&file), Err(TokenizerError::MissingBosId)));
}

#[test]
fn a_tokenizer_that_is_cut_off_is_not_read() {
    let mut bytes = synthetic(|b| {
        b.finish_header(0, 2);
        b.write_str("tokenizer.ggml.bos_token_id");
        b.write_u32(4);
        b.write_u32(1);
        b.write_str("tokenizer.ggml.eos_token_id");
        b.write_u32(4);
        b.write_u32(2);
    });
    assert!(Tokenizer::can_read(&parse(&bytes)));
    bytes.pop();
    assert!(!Tokenizer::can_read(&parse(&bytes)));
}

#[test]
fn anything_may_follow_the_descriptions() {
    let bytes = synthetic(|b| {
        b.finish_header(1, 1);
        b.write_str("answer");
        b.write_u32(4);
        b.write_u32(42);
        b.add_tensor("output.weight", 0, &[3], 0);
    });
    let end = bytes.len();
    for rest in [0usize, 1, 31, 32, 100] {
        let mut bytes = bytes.clone();
        bytes.extend((0..rest).map(|i| 0xA5u8.wrapping_add(i as u8)));
        let file = parse(&bytes);
        assert_eq!(file.tensors.len(), 1);
        assert_eq!(file.tensors[0].name, "output.weight");
        assert_eq!(file.n_kv, 1);
        assert_eq!(file.kv_section_start, 24);
        assert_eq!(file.data_offset as usize % 32, 0);
        assert!(end <= file.data_offset as usize && (file.data_offset as usize) < end + 32);
        assert_eq!(file.data, &bytes[..]);
        assert_eq!(file.read_kv_u32("answer"), Some(42));
    }
}
