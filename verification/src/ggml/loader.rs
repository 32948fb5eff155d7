//! Finding the tensors of a GGML file.
//!
//! After a model's own header, a file holds its tensors one after the other until it ends. Each
//! starts with the number of dimensions, the length of its name and the code of its type, followed
//! by its extents, innermost first, its name and its data. All integers have four bytes and are
//! little-endian.

use crate::bytes::{i32_at, lemma_integers_in_subrange, read_i32, read_u32, read_u32_into, u32_at};
use crate::ggml::error::{LoadError, LoadFailure};
use crate::ggml::tensor::{find_dtype, GgmlDType, TensorHeader, TensorView};
use crate::shape::{product, product_fits, Shape};
use vstd::hash_map::StringHashMap;
use vstd::prelude::*;
use vstd::slice::{slice_subrange, slice_to_vec};
use vstd::utf8::{decode_utf8, valid_utf8};

verus! {

/// What stands in a file where a tensor should start.
pub enum Parsed {
    /// A tensor, and where the next one starts.
    Tensor(TensorView, nat),
    /// No tensor that can be loaded.
    Failed(LoadFailure),
    /// A tensor with a size that is negative or that the machine's integers cannot hold.
    Oversized,
}

/// The `n` extents at `pos`, outermost first. In the file they stand innermost first.
pub open spec fn dims_at(data: Seq<u8>, pos: int, n: int) -> Seq<u32> {
    Seq::new(n as nat, |i: int| u32_at(data, pos + 4 * (n - 1 - i)))
}

/// The extents of a shape with the given dimensions.
pub open spec fn extents(dims: Seq<u32>) -> Seq<usize> {
    dims.map_values(|d: u32| d as usize)
}

/// What its name, the code of its type and its extents make of a tensor whose data starts at
/// `position`.
pub open spec fn tensor_from(
    name: Seq<u8>,
    code: u32,
    dims: Seq<u32>,
    position: u64,
    dtypes: Seq<GgmlDType>,
) -> Parsed {
    if !valid_utf8(name) {
        Parsed::Failed(LoadFailure::InvalidUtf8)
    } else {
        match find_dtype(dtypes, code) {
            None => Parsed::Failed(
                LoadFailure::UnsupportedDType { name: decode_utf8(name), dtype: code },
            ),
            Some(dtype) => {
                let tensor = TensorView {
                    name: decode_utf8(name),
                    dims: extents(dims),
                    dtype,
                    start_offset: position,
                    numel: product(extents(dims)) as usize,
                };
                if product_fits(extents(dims)) && tensor.size_fits() && position
                    + tensor.byte_size() <= u64::MAX {
                    Parsed::Tensor(tensor, position as nat + tensor.byte_size())
                } else {
                    Parsed::Oversized
                }
            },
        }
    }
}

/// What stands at `pos` in a file with the given contents.
pub open spec fn tensor_at(data: Seq<u8>, pos: nat, dtypes: Seq<GgmlDType>) -> Parsed {
    let start = pos as int;
    let n_dims = i32_at(data, start) as int;
    let name_len = i32_at(data, start + 4) as int;
    let code = u32_at(data, start + 8);
    let name_pos = start + 12 + 4 * n_dims;
    let end = name_pos + name_len;
    if data.len() < start + 4 {
        Parsed::Failed(LoadFailure::UnexpectedEof)
    } else if n_dims < 0 {
        Parsed::Failed(LoadFailure::InvalidInteger)
    } else if data.len() < start + 12 {
        Parsed::Failed(LoadFailure::UnexpectedEof)
    } else if 4 * n_dims > isize::MAX {
        Parsed::Oversized
    } else if data.len() < name_pos {
        Parsed::Failed(LoadFailure::UnexpectedEof)
    } else if name_len < 0 {
        Parsed::Oversized
    } else if data.len() < end {
        Parsed::Failed(LoadFailure::UnexpectedEof)
    } else if end > u64::MAX {
        Parsed::Oversized
    } else {
        tensor_from(
            data.subrange(name_pos, end),
            code,
            dims_at(data, start + 12, n_dims),
            end as u64,
            dtypes,
        )
    }
}

/// What loading the tensors of a file comes to.
pub enum Loaded {
    /// The tensors by name.
    Tensors(Map<Seq<char>, TensorView>),
    /// The tensors cannot be loaded.
    Failed(LoadFailure),
    /// A tensor has a size that is negative or that the machine's integers cannot hold.
    Oversized,
}

/// What loading the tensors from `pos` to the end of a file comes to, after `tensors` have been
/// loaded. A tensor replaces an earlier one of the same name.
pub open spec fn tensors_from(
    data: Seq<u8>,
    pos: nat,
    dtypes: Seq<GgmlDType>,
    tensors: Map<Seq<char>, TensorView>,
) -> Loaded
    decreases (if pos < data.len() { data.len() - pos } else { 0 }),
{
    if pos == data.len() {
        Loaded::Tensors(tensors)
    } else {
        match tensor_at(data, pos, dtypes) {
            Parsed::Failed(failure) => Loaded::Failed(failure),
            Parsed::Oversized => Loaded::Oversized,
            Parsed::Tensor(tensor, next) => tensors_from(
                data,
                next,
                dtypes,
                tensors.insert(tensor.name, tensor),
            ),
        }
    }
}

/// How much of the next tensor has been read.
#[derive(Debug, Copy, Clone, PartialEq, Eq, Structural)]
pub enum LoadStage {
    /// Nothing: the file's position is where a tensor ends.
    Boundary,
    /// The number of dimensions is awaited.
    DimCount,
    /// The length of the name is awaited.
    NameLength { n_dims: usize },
    /// The code of the type is awaited.
    TypeCode { n_dims: usize, name_len: i32 },
    /// The extents are awaited.
    Extents { n_dims: usize, name_len: i32, code: u32 },
    /// The name is awaited.
    Name { n_bytes: usize, code: u32 },
}

/// What the loader asks of the file next.
#[derive(Debug, Copy, Clone, PartialEq, Eq, Structural)]
pub enum LoadAction {
    /// Read exactly this many bytes from the current position.
    Read(u64),
    /// Go to this position.
    Seek(u64),
    /// Nothing more: all tensors are loaded.
    Finish,
}

/// The state of a loader, with collections as mathematical values.
pub struct LoaderState {
    pub last_position: u64,
    pub dtypes: Seq<GgmlDType>,
    pub stage: LoadStage,
    pub dims: Seq<u32>,
    pub tensors: Map<Seq<char>, TensorView>,
}

/// What one step of a loader comes to.
pub enum StepView {
    Next(LoaderState, LoadAction),
    Failed(LoadFailure),
    Oversized,
}

impl LoaderState {
    /// The number of bytes that the next step takes.
    pub open spec fn awaited(self) -> int {
        match self.stage {
            LoadStage::Boundary => 0,
            LoadStage::DimCount => 4,
            LoadStage::NameLength { .. } => 4,
            LoadStage::TypeCode { .. } => 4,
            LoadStage::Extents { n_dims, .. } => 4 * n_dims,
            LoadStage::Name { n_bytes, .. } => n_bytes as int,
        }
    }

    /// The same state at another stage.
    pub open spec fn at(self, stage: LoadStage) -> LoaderState {
        LoaderState { stage, ..self }
    }

    /// What follows from the bytes that were awaited, when the file's position after them is
    /// `position`.
    pub open spec fn step(self, input: Seq<u8>, position: u64) -> StepView {
        match self.stage {
            LoadStage::Boundary => if position == self.last_position {
                StepView::Next(self, LoadAction::Finish)
            } else {
                StepView::Next(self.at(LoadStage::DimCount), LoadAction::Read(4))
            },
            LoadStage::DimCount => {
                let n_dims = i32_at(input, 0);
                if n_dims < 0 {
                    StepView::Failed(LoadFailure::InvalidInteger)
                } else {
                    StepView::Next(
                        self.at(LoadStage::NameLength { n_dims: n_dims as usize }),
                        LoadAction::Read(4),
                    )
                }
            },
            LoadStage::NameLength { n_dims } => StepView::Next(
                self.at(LoadStage::TypeCode { n_dims, name_len: i32_at(input, 0) }),
                LoadAction::Read(4),
            ),
            LoadStage::TypeCode { n_dims, name_len } => if 4 * n_dims > isize::MAX {
                StepView::Oversized
            } else {
                StepView::Next(
                    self.at(LoadStage::Extents { n_dims, name_len, code: u32_at(input, 0) }),
                    LoadAction::Read((4 * n_dims) as u64),
                )
            },
            LoadStage::Extents { n_dims, name_len, code } => if name_len < 0 {
                StepView::Oversized
            } else {
                StepView::Next(
                    LoaderState {
                        dims: dims_at(input, 0, n_dims as int),
                        ..self.at(LoadStage::Name { n_bytes: name_len as usize, code })
                    },
                    LoadAction::Read(name_len as u64),
                )
            },
            LoadStage::Name { code, .. } => match tensor_from(
                input,
                code,
                self.dims,
                position,
                self.dtypes,
            ) {
                Parsed::Failed(failure) => StepView::Failed(failure),
                Parsed::Oversized => StepView::Oversized,
                Parsed::Tensor(tensor, next) => StepView::Next(
                    LoaderState {
                        dims: Seq::empty(),
                        tensors: self.tensors.insert(tensor.name, tensor),
                        ..self.at(LoadStage::Boundary)
                    },
                    LoadAction::Seek(next as u64),
                ),
            },
        }
    }
}

/// Finds the tensors of a file without reading it: the loader says what to do with the file, and
/// is given what came of it.
pub struct GGMLLoader {
    last_position: u64,
    dtypes: Vec<GgmlDType>,
    stage: LoadStage,
    dims: Vec<u32>,
    tensors: StringHashMap<TensorHeader>,
}

/// A map of headers as a map of what they say.
pub open spec fn headers_view(headers: Map<Seq<char>, TensorHeader>) -> Map<Seq<char>, TensorView> {
    headers.map_values(|header: TensorHeader| header@)
}

impl View for GGMLLoader {
    type V = LoaderState;

    closed spec fn view(&self) -> LoaderState {
        LoaderState {
            last_position: self.last_position,
            dtypes: self.dtypes@,
            stage: self.stage,
            dims: self.dims@,
            tensors: headers_view(self.tensors@),
        }
    }
}

/// What one step of a loader comes to.
pub enum LoadStep {
    /// The loader, and what it asks of the file next.
    Next(GGMLLoader, LoadAction),
    /// The tensors cannot be loaded.
    Failed(LoadError),
    /// A tensor has a size that is negative or that the machine's integers cannot hold.
    Oversized,
}

impl View for LoadStep {
    type V = StepView;

    open spec fn view(&self) -> StepView {
        match *self {
            LoadStep::Next(loader, action) => StepView::Next(loader@, action),
            LoadStep::Failed(e) => StepView::Failed(e@),
            LoadStep::Oversized => StepView::Oversized,
        }
    }
}

/// The integers in `bytes`, last to first.
fn read_dims(bytes: &[u8], n: usize) -> (dims: Vec<u32>)
    requires
        bytes@.len() == 4 * n,
    ensures
        dims@ == dims_at(bytes@, 0, n as int),
        dims@.len() == n,
        forall|i: int| 0 <= i < n ==> #[trigger] dims@[i] == u32_at(bytes@, 4 * (n - 1 - i)),
{
    let mut stored: Vec<u32> = vec![0u32; n];
    read_u32_into(bytes, &mut stored);
    let mut dims: Vec<u32> = Vec::new();
    let mut i: usize = 0;
    while i < n
        invariant
            i <= n,
            stored@ == Seq::new(n as nat, |j: int| u32_at(bytes@, 4 * j)),
            dims@ == dims_at(bytes@, 0, n as int).take(i as int),
        decreases n - i,
    {
        dims.push(stored[n - 1 - i]);
        i = i + 1;
        assert(dims@ =~= dims_at(bytes@, 0, n as int).take(i as int));
    }
    assert(dims@ =~= dims_at(bytes@, 0, n as int));
    dims
}

/// What loading from a file comes to.
pub enum LoadOutcome<T> {
    /// What was loaded.
    Loaded(T),
    /// Nothing can be loaded from the file.
    Failed(LoadError),
    /// A tensor has a size that is negative or that the machine's integers cannot hold.
    Oversized,
}

/// Whether `out` holds what loading the tensors comes to.
pub open spec fn loads_tensors(
    out: LoadOutcome<StringHashMap<TensorHeader>>,
    loaded: Loaded,
) -> bool {
    match loaded {
        Loaded::Tensors(tensors) => out matches LoadOutcome::Loaded(headers) && headers_view(
            headers@,
        ) == tensors,
        Loaded::Failed(failure) => out matches LoadOutcome::Failed(e) && e@ == failure,
        Loaded::Oversized => out is Oversized,
    }
}

impl LoadStage {
    /// How many more steps the current tensor takes at most.
    spec fn remaining(self) -> int {
        match self {
            LoadStage::Boundary => 5,
            LoadStage::DimCount => 4,
            LoadStage::NameLength { .. } => 3,
            LoadStage::TypeCode { .. } => 2,
            LoadStage::Extents { .. } => 1,
            LoadStage::Name { .. } => 0,
        }
    }
}

/// Whether a loader at `pos`, about to be given `input`, is reading the tensor at `start`.
spec fn reading_tensor(
    state: LoaderState,
    data: Seq<u8>,
    start: int,
    input: Seq<u8>,
    pos: u64,
) -> bool {
    let n = i32_at(data, start) as int;
    let name_pos = start + 12 + 4 * n;
    &&& match state.stage {
        LoadStage::Boundary => pos == start && input.len() == 0,
        LoadStage::DimCount => {
            &&& pos == start + 4 <= data.len()
            &&& input == data.subrange(start, start + 4)
        },
        LoadStage::NameLength { n_dims } => {
            &&& pos == start + 8 <= data.len()
            &&& n_dims == n >= 0
            &&& input == data.subrange(start + 4, start + 8)
        },
        LoadStage::TypeCode { n_dims, name_len } => {
            &&& pos == start + 12 <= data.len()
            &&& n_dims == n >= 0
            &&& name_len == i32_at(data, start + 4)
            &&& input == data.subrange(start + 8, start + 12)
        },
        LoadStage::Extents { n_dims, name_len, code } => {
            &&& pos == name_pos <= data.len()
            &&& n_dims == n >= 0
            &&& 4 * n <= isize::MAX
            &&& name_len == i32_at(data, start + 4)
            &&& code == u32_at(data, start + 8)
            &&& input == data.subrange(start + 12, name_pos)
        },
        LoadStage::Name { n_bytes, code } => {
            &&& pos == name_pos + n_bytes <= data.len()
            &&& n >= 0
            &&& 4 * n <= isize::MAX
            &&& n_bytes == i32_at(data, start + 4) >= 0
            &&& code == u32_at(data, start + 8)
            &&& input == data.subrange(name_pos, name_pos + n_bytes)
            &&& state.dims == dims_at(data, start + 12, n)
        },
    }
    &&& start < data.len() || state.stage is Boundary
}

/// The header fields of the tensor at `start`, read from the parts of the file that hold them.
proof fn lemma_tensor_fields(data: Seq<u8>, start: int)
    requires
        0 <= start,
    ensures
        start + 4 <= data.len() ==> i32_at(data.subrange(start, start + 4), 0) == i32_at(
            data,
            start,
        ),
        start + 8 <= data.len() ==> i32_at(data.subrange(start + 4, start + 8), 0) == i32_at(
            data,
            start + 4,
        ),
        start + 12 <= data.len() ==> u32_at(data.subrange(start + 8, start + 12), 0) == u32_at(
            data,
            start + 8,
        ),
        ({
            let n = i32_at(data, start) as int;
            0 <= n && start + 12 + 4 * n <= data.len() ==> dims_at(
                data.subrange(start + 12, start + 12 + 4 * n),
                0,
                n,
            ) == dims_at(data, start + 12, n)
        }),
{
    if start + 4 <= data.len() {
        lemma_integers_in_subrange(data, start, start + 4, 0);
    }
    if start + 8 <= data.len() {
        lemma_integers_in_subrange(data, start + 4, start + 8, 0);
    }
    if start + 12 <= data.len() {
        lemma_integers_in_subrange(data, start + 8, start + 12, 0);
    }
    let n = i32_at(data, start) as int;
    if 0 <= n && start + 12 + 4 * n <= data.len() {
        let part = data.subrange(start + 12, start + 12 + 4 * n);
        assert forall|i: int| 0 <= i < n implies #[trigger] dims_at(part, 0, n)[i] == dims_at(
            data,
            start + 12,
            n,
        )[i] by {
            lemma_integers_in_subrange(
                data,
                start + 12,
                start + 12 + 4 * n,
                4 * (n - 1 - i),
            );
        }
        assert(dims_at(part, 0, n) =~= dims_at(data, start + 12, n));
    }
}

impl GGMLLoader {
    /// A loader for a file that ends at `last_position` and whose data is of the given types. It
    /// starts where the file's first tensor does.
    pub fn start(last_position: u64, dtypes: Vec<GgmlDType>) -> (loader: Self)
        ensures
            loader@ == (LoaderState {
                last_position,
                dtypes: dtypes@,
                stage: LoadStage::Boundary,
                dims: Seq::empty(),
                tensors: Map::empty(),
            }),
    {
        let tensors: StringHashMap<TensorHeader> = StringHashMap::new();
        assert(headers_view(tensors@) =~= Map::empty());
        GGMLLoader { last_position, dtypes, stage: LoadStage::Boundary, dims: Vec::new(), tensors }
    }

    /// Takes the bytes that were awaited, and the file's position after them.
    pub fn step(self, input: &[u8], position: u64) -> (step: LoadStep)
        requires
            input@.len() == self@.awaited(),
        ensures
            step@ == self@.step(input@, position),
    {
        match self.stage {
            LoadStage::Boundary => if position == self.last_position {
                LoadStep::Next(self, LoadAction::Finish)
            } else {
                LoadStep::Next(
                    GGMLLoader { stage: LoadStage::DimCount, ..self },
                    LoadAction::Read(4),
                )
            },
            LoadStage::DimCount => {
                match usize::try_from(read_i32(input)) {
                    Err(_) => LoadStep::Failed(LoadError::InvalidInteger),
                    Ok(n_dims) => LoadStep::Next(
                        GGMLLoader { stage: LoadStage::NameLength { n_dims }, ..self },
                        LoadAction::Read(4),
                    ),
                }
            },
            LoadStage::NameLength { n_dims } => {
                let name_len = read_i32(input);
                LoadStep::Next(
                    GGMLLoader { stage: LoadStage::TypeCode { n_dims, name_len }, ..self },
                    LoadAction::Read(4),
                )
            },
            LoadStage::TypeCode { n_dims, name_len } => {
                let code = read_u32(input);
                if n_dims > isize::MAX as usize / 4 {
                    LoadStep::Oversized
                } else {
                    LoadStep::Next(
                        GGMLLoader { stage: LoadStage::Extents { n_dims, name_len, code }, ..self },
                        LoadAction::Read(4 * n_dims as u64),
                    )
                }
            },
            LoadStage::Extents { n_dims, name_len, code } => {
                let dims = read_dims(input, n_dims);
                if name_len < 0 {
                    LoadStep::Oversized
                } else {
                    LoadStep::Next(
                        GGMLLoader {
                            stage: LoadStage::Name { n_bytes: name_len as usize, code },
                            dims,
                            ..self
                        },
                        LoadAction::Read(name_len as u64),
                    )
                }
            },
            LoadStage::Name { code, .. } => self.name_read(input, code, position),
        }
    }

    /// Takes a tensor's name, the last of what stands before its data.
    fn name_read(self, input: &[u8], code: u32, position: u64) -> (step: LoadStep)
        requires
            self@.stage is Name,
            self@.stage->Name_code == code,
        ensures
            step@ == self@.step(input@, position),
    {
        let name = match String::from_utf8(slice_to_vec(input)) {
            Ok(name) => name,
            Err(_) => {
                return LoadStep::Failed(LoadError::InvalidUtf8);
            },
        };
        let dtype = match GgmlDType::find(self.dtypes.as_slice(), code) {
            Some(dtype) => dtype,
            None => {
                return LoadStep::Failed(LoadError::UnsupportedDType { name, dtype: code });
            },
        };
        let shape = Shape::from_u32s(self.dims.as_slice());
        match shape.checked_numel() {
            None => {
                return LoadStep::Oversized;
            },
            Some(numel) => {
                if dtype.block_size == 0 || numel.checked_mul(dtype.type_size).is_none() {
                    return LoadStep::Oversized;
                }
            },
        }
        let header = TensorHeader::new(name, shape, dtype, position);
        let data_size = header.data_size() as u64;
        match position.checked_add(data_size) {
            None => LoadStep::Oversized,
            Some(next) => {
                let ghost before = self.tensors@;
                let ghost tensor = header@;
                let mut tensors = self.tensors;
                tensors.insert(header.name.clone(), header);
                assert(headers_view(tensors@) =~= headers_view(before).insert(tensor.name, tensor));
                LoadStep::Next(
                    GGMLLoader {
                        last_position: self.last_position,
                        dtypes: self.dtypes,
                        stage: LoadStage::Boundary,
                        dims: Vec::new(),
                        tensors,
                    },
                    LoadAction::Seek(next),
                )
            },
        }
    }

    /// Loads the tensors that stand from `position` to the end of a file with the given contents.
    pub fn load_tensors(data: &[u8], position: u64, dtypes: Vec<GgmlDType>) -> (out: LoadOutcome<
        StringHashMap<TensorHeader>,
    >)
        ensures
            loads_tensors(out, tensors_from(data@, position as nat, dtypes@, Map::empty())),
            match tensors_from(data@, position as nat, dtypes@, Map::empty()) {
                Loaded::Tensors(tensors) => out matches LoadOutcome::Loaded(headers)
                    && headers_view(headers@) == tensors,
                Loaded::Failed(failure) => out matches LoadOutcome::Failed(e) && e@ == failure,
                Loaded::Oversized => out is Oversized,
            },
    {
        let len = data.len() as u64;
        let mut loader = GGMLLoader::start(len, dtypes);
        let mut pos = position;
        let mut from: usize = 0;
        let mut to: usize = 0;
        let ghost mut tensor_pos = position as nat;
        loop
            invariant
                len == data@.len() <= usize::MAX,
                from <= to <= data@.len(),
                loader@.last_position == len,
                loader@.dtypes == dtypes@,
                reading_tensor(
                    loader@,
                    data@,
                    tensor_pos as int,
                    data@.subrange(from as int, to as int),
                    pos,
                ),
                tensors_from(data@, tensor_pos, dtypes@, loader@.tensors) == tensors_from(
                    data@,
                    position as nat,
                    dtypes@,
                    Map::empty(),
                ),
            decreases
                (if tensor_pos < data@.len() {
                    data@.len() - tensor_pos
                } else {
                    0
                }),
                loader@.stage.remaining(),
        {
            let input = slice_subrange(data, from, to);
            proof {
                lemma_tensor_fields(data@, tensor_pos as int);
            }
            match loader.step(input, pos) {
                LoadStep::Failed(e) => {
                    return LoadOutcome::Failed(e);
                },
                LoadStep::Oversized => {
                    return LoadOutcome::Oversized;
                },
                LoadStep::Next(next, action) => {
                    match action {
                        LoadAction::Finish => {
                            return LoadOutcome::Loaded(next.into_tensors());
                        },
                        LoadAction::Seek(target) => {
                            proof {
                                tensor_pos = target as nat;
                            }
                            pos = target;
                            from = 0;
                            to = 0;
                        },
                        LoadAction::Read(n) => {
                            if pos > len || n > len - pos {
                                return LoadOutcome::Failed(LoadError::UnexpectedEof);
                            }
                            from = pos as usize;
                            pos = pos + n;
                            to = pos as usize;
                        },
                    }
                    loader = next;
                },
            }
        }
    }

    /// The tensors loaded so far, by name.
    pub fn into_tensors(self) -> (tensors: StringHashMap<TensorHeader>)
        ensures
            headers_view(tensors@) == self@.tensors,
    {
        self.tensors
    }
}

} // verus!
