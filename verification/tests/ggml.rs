use ratchet::ggml::error::LoadError;
use ratchet::ggml::format::{
    GGMLFormat, MAGIC_GGJT, MAGIC_GGLA, MAGIC_GGMF, MAGIC_GGML, MAGIC_GGSN,
};
use ratchet::ggml::loader::{GGMLLoader, LoadAction, LoadOutcome, LoadStep};
use ratchet::ggml::model::{GGMLCompatible, GGMLModel};
use ratchet::ggml::tensor::{GgmlDType, TensorHeader};
use ratchet::shape::Shape;
use std::io::{Cursor, Read, Seek, SeekFrom};

const F32: GgmlDType = GgmlDType { code: 0, type_size: 4, block_size: 1 };
const BLOCKS: GgmlDType = GgmlDType { code: 2, type_size: 18, block_size: 32 };

fn dtypes() -> Vec<GgmlDType> {
    vec![F32, BLOCKS]
}

fn words(words: &[u32]) -> Vec<u8> {
    words.iter().flat_map(|w| w.to_le_bytes()).collect()
}

/// A tensor with its extents given innermost first, as they stand in a file.
fn tensor(name: &[u8], code: u32, dims: &[u32], data: &[u8]) -> Vec<u8> {
    let mut bytes = words(&[dims.len() as u32, name.len() as u32, code]);
    bytes.extend(words(dims));
    bytes.extend_from_slice(name);
    bytes.extend_from_slice(data);
    bytes
}

fn load(data: &[u8]) -> LoadOutcome<vstd::hash_map::StringHashMap<TensorHeader>> {
    GGMLLoader::load_tensors(data, 0, dtypes())
}

fn failure(data: &[u8]) -> LoadError {
    match load(data) {
        LoadOutcome::Failed(e) => e,
        _ => panic!("the file can be loaded"),
    }
}

#[test]
fn formats_by_magic_and_version() {
    let read = |w: &[u32]| GGMLFormat::read(&words(w)).unwrap();
    assert_eq!(read(&[MAGIC_GGML]), (GGMLFormat::GGML(MAGIC_GGML), 4));
    assert_eq!(read(&[MAGIC_GGML, 9]), (GGMLFormat::GGML(MAGIC_GGML), 4));
    for version in 1..=3u32 {
        assert_eq!(
            read(&[MAGIC_GGJT, version, 5]),
            (GGMLFormat::GGJT(MAGIC_GGJT, version), 8)
        );
    }
    assert_eq!(read(&[MAGIC_GGLA, 1]), (GGMLFormat::GGLA(MAGIC_GGLA, 1), 8));
    assert_eq!(read(&[MAGIC_GGMF, 1]), (GGMLFormat::GGMF(MAGIC_GGMF, 1), 8));
    assert_eq!(GGMLFormat::read(b"lmgg").unwrap().0, GGMLFormat::GGML(0x67676d6c));
}

#[test]
fn unsupported_formats() {
    let cases: [(u32, u32); 7] = [
        (MAGIC_GGJT, 0),
        (MAGIC_GGJT, 4),
        (MAGIC_GGLA, 2),
        (MAGIC_GGMF, 0),
        (MAGIC_GGSN, 1),
        (0, 1),
        (0x6c6d6767, 1),
    ];
    for (magic, version) in cases {
        match GGMLFormat::read(&words(&[magic, version])) {
            Err(LoadError::InvalidFormat(m)) => assert_eq!(m, magic),
            other => panic!("{:?}", other),
        }
    }
}

#[test]
fn short_files_have_no_format() {
    for n in 0..4 {
        assert!(matches!(
            GGMLFormat::read(&words(&[MAGIC_GGML])[..n]),
            Err(LoadError::UnexpectedEof)
        ));
    }
    // The version is read before an unknown magic number is judged.
    for n in 4..8 {
        assert!(matches!(
            GGMLFormat::read(&words(&[0, 0])[..n]),
            Err(LoadError::UnexpectedEof)
        ));
    }
}

#[test]
fn alignment_of_formats() {
    assert!(!GGMLFormat::GGML(MAGIC_GGML).align32());
    assert!(GGMLFormat::GGJT(MAGIC_GGJT, 1).align32());
}

#[test]
fn data_sizes_count_blocks() {
    let header = |dims: &[usize], dtype: GgmlDType| {
        TensorHeader::new("t".to_string(), Shape::new(dims.to_vec()), dtype, 0)
    };
    assert_eq!(header(&[2, 3], F32).data_size(), 24);
    assert_eq!(header(&[2, 32], BLOCKS).data_size(), 36);
    assert_eq!(header(&[31], BLOCKS).data_size(), 17);
    assert_eq!(header(&[], F32).data_size(), 4);
    assert_eq!(header(&[2, 3], F32).numel, 6);
}

#[test]
fn tensors_are_found_by_name() {
    let mut file = tensor(b"first", 0, &[3, 2], &[1; 24]);
    let second_at = file.len();
    file.extend(tensor("zweite \u{e4}".as_bytes(), 2, &[32], &[2; 18]));
    let tensors = match load(&file) {
        LoadOutcome::Loaded(tensors) => tensors,
        _ => panic!("not loaded"),
    };
    assert_eq!(tensors.len(), 2);

    let first = tensors.get("first").unwrap();
    assert_eq!(first.name, "first");
    assert_eq!(first.shape, Shape::new(vec![2, 3]));
    assert_eq!(first.dtype, F32);
    assert_eq!(first.numel, 6);
    assert_eq!(first.start_offset, 12 + 8 + 5);
    assert_eq!(first.read_data(&file).unwrap(), vec![1u8; 24]);

    let second = tensors.get("zweite \u{e4}").unwrap();
    assert_eq!(second.shape, Shape::new(vec![32]));
    assert_eq!(second.dtype, BLOCKS);
    assert_eq!(second.start_offset as usize, second_at + 12 + 4 + 9);
    assert_eq!(second.read_data(&file).unwrap(), vec![2u8; 18]);
    assert_eq!(second.clone().data_size(), 18);

    // The data of the two tensors does not overlap and ends with the file.
    assert!(first.start_offset + 24 <= second.start_offset);
    assert_eq!(second.start_offset as usize + 18, file.len());
}

#[test]
fn empty_files_hold_no_tensors() {
    match load(&[]) {
        LoadOutcome::Loaded(tensors) => assert!(tensors.is_empty()),
        _ => panic!("not loaded"),
    }
}

#[test]
fn later_tensor_of_a_name_replaces_the_earlier() {
    let mut file = tensor(b"t", 0, &[1], &[1; 4]);
    let at = file.len() as u64;
    file.extend(tensor(b"t", 0, &[2], &[2; 8]));
    match load(&file) {
        LoadOutcome::Loaded(tensors) => {
            assert_eq!(tensors.len(), 1);
            let t = tensors.get("t").unwrap();
            assert_eq!(t.start_offset, at + 12 + 4 + 1);
            assert_eq!(t.read_data(&file).unwrap(), vec![2u8; 8]);
        }
        _ => panic!("not loaded"),
    }
}

#[test]
fn negative_dimension_counts_are_refused_at_once() {
    assert!(matches!(failure(&words(&[u32::MAX])), LoadError::InvalidInteger));
    assert!(matches!(failure(&words(&[0x8000_0000, 1, 0])), LoadError::InvalidInteger));
}

#[test]
fn truncated_headers_and_data() {
    let whole = tensor(b"name", 0, &[2], &[0; 8]);
    for n in 1..whole.len() {
        assert!(matches!(failure(&whole[..n]), LoadError::UnexpectedEof), "{}", n);
    }
}

#[test]
fn names_that_are_not_text() {
    let file = tensor(&[0xff, 0xfe], 99, &[], &[]);
    assert!(matches!(failure(&file), LoadError::InvalidUtf8));
}

#[test]
fn unsupported_types_name_the_tensor() {
    match failure(&tensor(b"odd", 77, &[1], &[])) {
        LoadError::UnsupportedDType { name, dtype } => {
            assert_eq!(name, "odd");
            assert_eq!(dtype, 77);
        }
        other => panic!("{:?}", other),
    }
}

#[test]
fn sizes_out_of_range() {
    // A name of negative length, reached only once the extents are read.
    assert!(matches!(load(&words(&[1, u32::MAX, 0, 5])), LoadOutcome::Oversized));
    assert!(matches!(failure(&words(&[1, u32::MAX, 0])), LoadError::UnexpectedEof));
    // More elements than can be counted.
    let huge = tensor(b"h", 0, &[u32::MAX, u32::MAX, u32::MAX], &[]);
    assert!(matches!(load(&huge), LoadOutcome::Oversized));
    // More bytes than can be counted.
    let wide = tensor(b"w", 0, &[u32::MAX, u32::MAX], &[]);
    assert!(matches!(load(&wide), LoadOutcome::Oversized));
    // A block of no elements.
    let none = GgmlDType { code: 0, type_size: 1, block_size: 0 };
    let file = tensor(b"n", 0, &[1], &[0]);
    assert!(matches!(GGMLLoader::load_tensors(&file, 0, vec![none]), LoadOutcome::Oversized));
}

#[test]
fn first_type_of_a_code_is_taken() {
    let other = GgmlDType { code: 0, type_size: 2, block_size: 1 };
    assert_eq!(GgmlDType::find(&[BLOCKS, other, F32], 0), Some(other));
    assert_eq!(GgmlDType::find(&[BLOCKS], 0), None);
}

#[test]
fn data_outside_the_file() {
    let header = TensorHeader::new("t".to_string(), Shape::new(vec![2]), F32, 4);
    assert!(matches!(header.read_data(&[0; 11]), Err(LoadError::UnexpectedEof)));
    assert_eq!(header.read_data(&[7; 12]).unwrap(), vec![7u8; 8]);
    let empty = TensorHeader::new("e".to_string(), Shape::new(vec![0]), F32, 99);
    assert_eq!(empty.read_data(&[]).unwrap(), Vec::<u8>::new());
    let far = TensorHeader::new("f".to_string(), Shape::new(vec![2]), F32, u64::MAX);
    assert!(matches!(far.read_data(&[0; 11]), Err(LoadError::UnexpectedEof)));
}

struct Model;

impl GGMLCompatible for Model {
    type ModelHeader = u32;

    fn load_header(data: &[u8]) -> Result<(u32, u64), LoadError> {
        let (format, n) = GGMLFormat::read(data)?;
        match format {
            GGMLFormat::GGML(magic) => Ok((magic, n as u64)),
            other => panic!("{:?}", other),
        }
    }
}

#[test]
fn models_have_a_header_and_tensors() {
    let mut file = words(&[MAGIC_GGML]);
    file.extend(tensor(b"t", 0, &[1], &[3; 4]));
    match GGMLLoader::load::<Model>(&file, dtypes()) {
        LoadOutcome::Loaded(GGMLModel { header, tensors }) => {
            assert_eq!(header, MAGIC_GGML);
            assert_eq!(tensors.get("t").unwrap().start_offset, 4 + 12 + 4 + 1);
        }
        _ => panic!("not loaded"),
    }
    assert!(matches!(
        GGMLLoader::load::<Model>(&[1, 2, 3], dtypes()),
        LoadOutcome::Failed(LoadError::UnexpectedEof)
    ));
    assert!(matches!(
        GGMLLoader::load::<Model>(&file[..file.len() - 1], dtypes()),
        LoadOutcome::Failed(LoadError::UnexpectedEof)
    ));
    assert!(matches!(
        GGMLLoader::load_after_header::<Model>(&[], Err(LoadError::InvalidInteger), dtypes()),
        LoadOutcome::Failed(LoadError::InvalidInteger)
    ));
}

#[test]
fn loader_drives_a_seekable_reader() {
    let mut file = tensor(b"a", 0, &[2], &[1; 8]);
    file.extend(tensor(b"", 0, &[], &[2; 4]));
    let mut reader = Cursor::new(file.clone());
    let end = reader.seek(SeekFrom::End(0)).unwrap();
    reader.seek(SeekFrom::Start(0)).unwrap();
    let mut loader = GGMLLoader::start(end, dtypes());
    let mut input: Vec<u8> = Vec::new();
    let mut actions = Vec::new();
    let tensors = loop {
        let position = reader.stream_position().unwrap();
        match loader.step(&input, position) {
            LoadStep::Next(next, action) => {
                actions.push(action);
                loader = next;
                match action {
                    LoadAction::Read(n) => {
                        input = vec![0; n as usize];
                        reader.read_exact(&mut input).unwrap();
                    }
                    LoadAction::Seek(target) => {
                        input.clear();
                        reader.seek(SeekFrom::Start(target)).unwrap();
                    }
                    LoadAction::Finish => break loader.into_tensors(),
                }
            }
            LoadStep::Failed(e) => panic!("{:?}", e),
            LoadStep::Oversized => panic!("oversized"),
        }
    };
    assert_eq!(
        actions,
        vec![
            LoadAction::Read(4),
            LoadAction::Read(4),
            LoadAction::Read(4),
            LoadAction::Read(4),
            LoadAction::Read(1),
            LoadAction::Seek(25),
            LoadAction::Read(4),
            LoadAction::Read(4),
            LoadAction::Read(4),
            LoadAction::Read(0),
            LoadAction::Read(0),
            LoadAction::Seek(41),
            LoadAction::Finish,
        ]
    );
    assert_eq!(tensors.len(), 2);
    assert_eq!(tensors.get("a").unwrap().start_offset, 17);
    assert_eq!(tensors.get("").unwrap().numel, 1);
}
