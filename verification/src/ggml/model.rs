//! Models in GGML files.

use crate::ggml::error::LoadError;
use crate::ggml::loader::{headers_view, tensors_from, GGMLLoader, LoadOutcome, Loaded};
use crate::ggml::tensor::{GgmlDType, TensorHeader};
use vstd::hash_map::StringHashMap;
use vstd::prelude::*;

verus! {

/// # GGML Compatible
///
/// Implement this for your model if you want to load it from a GGML file.
pub trait GGMLCompatible: Sized {
    /// What the model's own header holds.
    type ModelHeader;

    /// Reads the model's own header from a file with the given contents, and says where it ends.
    fn load_header(data: &[u8]) -> (res: Result<(Self::ModelHeader, u64), LoadError>);
}

/// A model: its own header, and the headers of its tensors by name.
pub struct GGMLModel<M: GGMLCompatible> {
    pub header: M::ModelHeader,
    pub tensors: StringHashMap<TensorHeader>,
}

impl<M: GGMLCompatible> GGMLModel<M> {
    /// The model with the given header and tensors.
    pub fn new(header: M::ModelHeader, tensors: StringHashMap<TensorHeader>) -> (model: Self)
        ensures
            model.header == header,
            model.tensors == tensors,
    {
        GGMLModel { header, tensors }
    }
}

/// Whether `out` is what loading a model comes to, once its own header has been read with the
/// result `header`.
pub open spec fn loads_model<M: GGMLCompatible>(
    out: LoadOutcome<GGMLModel<M>>,
    header: Result<(M::ModelHeader, u64), LoadError>,
    data: Seq<u8>,
    dtypes: Seq<GgmlDType>,
) -> bool {
    match header {
        Err(e) => out == LoadOutcome::<GGMLModel<M>>::Failed(e),
        Ok((model_header, end)) => match tensors_from(data, end as nat, dtypes, Map::empty()) {
            Loaded::Tensors(tensors) => {
                &&& out matches LoadOutcome::Loaded(model)
                &&& model.header == model_header
                &&& headers_view(model.tensors@) == tensors
            },
            Loaded::Failed(failure) => out matches LoadOutcome::Failed(e) && e@ == failure,
            Loaded::Oversized => out is Oversized,
        },
    }
}

impl GGMLLoader {
    /// Loads a model from a file with the given contents, whose data is of the given types.
    pub fn load<M: GGMLCompatible>(data: &[u8], dtypes: Vec<GgmlDType>) -> (out: LoadOutcome<
        GGMLModel<M>,
    >)
        ensures
            exists|header: Result<(M::ModelHeader, u64), LoadError>|
                {
                    &&& #[trigger] call_ensures(M::load_header, (data,), header)
                    &&& loads_model(out, header, data@, dtypes@)
                },
    {
        let header = M::load_header(data);
        assert(call_ensures(M::load_header, (data,), header));
        Self::load_after_header(data, header, dtypes)
    }

    /// Loads what follows a model's own header, given the result of reading that.
    pub fn load_after_header<M: GGMLCompatible>(
        data: &[u8],
        header: Result<(M::ModelHeader, u64), LoadError>,
        dtypes: Vec<GgmlDType>,
    ) -> (out: LoadOutcome<GGMLModel<M>>)
        ensures
            loads_model(out, header, data@, dtypes@),
            header matches Err(e) ==> out == LoadOutcome::<GGMLModel<M>>::Failed(e),
            header matches Ok((model_header, end)) ==> match tensors_from(
                data@,
                end as nat,
                dtypes@,
                Map::empty(),
            ) {
                Loaded::Tensors(tensors) => {
                    &&& out matches LoadOutcome::Loaded(model)
                    &&& model.header == model_header
                    &&& headers_view(model.tensors@) == tensors
                },
                Loaded::Failed(failure) => out matches LoadOutcome::Failed(e) && e@ == failure,
                Loaded::Oversized => out is Oversized,
            },
    {
        match header {
            Err(e) => LoadOutcome::Failed(e),
            Ok((model_header, end)) => match Self::load_tensors(data, end, dtypes) {
                LoadOutcome::Loaded(tensors) => LoadOutcome::Loaded(
                    GGMLModel::new(model_header, tensors),
                ),
                LoadOutcome::Failed(e) => LoadOutcome::Failed(e),
                LoadOutcome::Oversized => LoadOutcome::Oversized,
            },
        }
    }
}

} // verus!
