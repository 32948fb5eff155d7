//! What holds of every GGML file that is loaded.

use crate::bytes::{i32_at, u32_at};
use crate::ggml::error::LoadFailure;
use crate::ggml::loader::{
    dims_at, extents, headers_view, tensor_at, tensors_from, LoadAction, Loaded, LoaderState,
    Parsed, StepView,
};
use crate::ggml::tensor::{
    find_dtype, law_data_size_counts_blocks, law_dtype_is_first_match, GgmlDType, TensorHeader,
    TensorView,
};
use crate::shape::{law_product_fits_step_by_step, product, product_fits};
use vstd::prelude::*;
use vstd::utf8::{decode_utf8_encode_utf8, encode_utf8, valid_utf8};

verus! {

/// A loader asks for exactly the bytes that its next step takes: none after it has moved in the
/// file, and it asks for nothing more only where the file ends.
pub proof fn law_loader_asks_for_what_it_awaits(state: LoaderState, input: Seq<u8>, position: u64)
    requires
        input.len() == state.awaited(),
    ensures
        state.step(input, position) matches StepView::Next(next, action) ==> match action {
            LoadAction::Read(n) => n == next.awaited(),
            LoadAction::Seek(_) => next.awaited() == 0,
            LoadAction::Finish => next == state && position == state.last_position,
        },
{
}

/// A step changes neither the end of the file nor the types that are supported, and no tensor that
/// was loaded but one of the same name as that whose name was just read.
pub proof fn law_step_keeps_other_tensors(
    state: LoaderState,
    input: Seq<u8>,
    position: u64,
    name: Seq<char>,
)
    requires
        input.len() == state.awaited(),
    ensures
        state.step(input, position) matches StepView::Next(next, _) ==> {
            &&& next.last_position == state.last_position
            &&& next.dtypes == state.dtypes
            &&& !(state.stage is Name) ==> next.tensors == state.tensors
            &&& state.tensors.contains_key(name) ==> {
                &&& next.tensors.contains_key(name)
                &&& encode_utf8(name) != input ==> next.tensors[name] == state.tensors[name]
            }
        },
{
    if state.stage is Name && valid_utf8(input) {
        decode_utf8_encode_utf8(input);
    }
}

/// A tensor that is read has the name, the number of dimensions, the extents and the type that the
/// file states; its data starts right after its name, and the next tensor right after its data.
pub proof fn law_tensor_is_what_file_states(data: Seq<u8>, pos: nat, dtypes: Seq<GgmlDType>)
    ensures
        tensor_at(data, pos, dtypes) matches Parsed::Tensor(tensor, next) ==> {
            let n_dims = i32_at(data, pos as int);
            let name_len = i32_at(data, pos as int + 4);
            let name_pos = pos + 12 + 4 * n_dims;
            &&& n_dims >= 0
            &&& name_len >= 0
            &&& tensor.start_offset == name_pos + name_len <= data.len()
            &&& encode_utf8(tensor.name) == data.subrange(name_pos, name_pos + name_len)
            &&& tensor.dims == extents(dims_at(data, pos as int + 12, n_dims as int))
            &&& tensor.dims.len() == n_dims
            &&& find_dtype(dtypes, u32_at(data, pos as int + 8)) == Some(tensor.dtype)
            &&& next == tensor.start_offset + tensor.byte_size()
            &&& tensor.size_fits()
            &&& tensor.wf()
        },
{
    let n_dims = i32_at(data, pos as int);
    let name_len = i32_at(data, pos as int + 4);
    let name_pos = pos + 12 + 4 * n_dims;
    if let Parsed::Tensor(tensor, next) = tensor_at(data, pos, dtypes) {
        decode_utf8_encode_utf8(data.subrange(name_pos, name_pos + name_len));
        assert(tensor.dims.take(tensor.dims.len() as int) =~= tensor.dims);
    }
}

/// Where a tensor's data ends.
pub open spec fn data_end(tensor: TensorView) -> int {
    tensor.start_offset + tensor.byte_size()
}

/// Whether every tensor stands under its own name, counts its elements right, and has its data
/// between `from` and `to`.
pub open spec fn tensors_within(
    tensors: Map<Seq<char>, TensorView>,
    from: int,
    to: int,
) -> bool {
    forall|name: Seq<char>| #[trigger]
        tensors.contains_key(name) ==> {
            let tensor = tensors[name];
            &&& tensor.name == name
            &&& tensor.wf()
            &&& tensor.size_fits()
            &&& from <= tensor.start_offset
            &&& data_end(tensor) <= to
        }
}

/// Whether the data of no two tensors overlap.
pub open spec fn data_disjoint(tensors: Map<Seq<char>, TensorView>) -> bool {
    forall|a: Seq<char>, b: Seq<char>|
        #![trigger tensors.contains_key(a), tensors.contains_key(b)]
        tensors.contains_key(a) && tensors.contains_key(b) && a != b ==> data_end(tensors[a])
            <= tensors[b].start_offset || data_end(tensors[b]) <= tensors[a].start_offset
}

proof fn lemma_tensors_from(
    data: Seq<u8>,
    first: nat,
    pos: nat,
    dtypes: Seq<GgmlDType>,
    tensors: Map<Seq<char>, TensorView>,
)
    requires
        first <= pos,
        tensors_within(tensors, first as int, pos as int),
        data_disjoint(tensors),
    ensures
        tensors_from(data, pos, dtypes, tensors) matches Loaded::Tensors(all) ==> tensors_within(
            all,
            first as int,
            data.len() as int,
        ) && data_disjoint(all),
    decreases (if pos < data.len() { data.len() - pos } else { 0 }),
{
    if pos != data.len() {
        law_tensor_is_what_file_states(data, pos, dtypes);
        if let Parsed::Tensor(tensor, next) = tensor_at(data, pos, dtypes) {
            let more = tensors.insert(tensor.name, tensor);
            assert(tensors_within(more, first as int, next as int));
            assert(data_disjoint(more));
            lemma_tensors_from(data, first, next, dtypes, more);
        }
    }
}

/// The tensors loaded from a file stand each under its own name with the right count of elements,
/// and their data lies in the file after the place where loading began.
pub proof fn law_loaded_tensors_lie_in_file(data: Seq<u8>, pos: nat, dtypes: Seq<GgmlDType>)
    ensures
        tensors_from(data, pos, dtypes, Map::empty()) matches Loaded::Tensors(tensors)
            ==> tensors_within(tensors, pos as int, data.len() as int),
{
    lemma_tensors_from(data, pos, pos, dtypes, Map::empty());
}

/// The data of no two tensors loaded from a file overlap.
pub proof fn law_loaded_data_is_disjoint(data: Seq<u8>, pos: nat, dtypes: Seq<GgmlDType>)
    ensures
        tensors_from(data, pos, dtypes, Map::empty()) matches Loaded::Tensors(tensors)
            ==> data_disjoint(tensors),
{
    lemma_tensors_from(data, pos, pos, dtypes, Map::empty());
}

/// The data of every tensor loaded from a file can be read from it, and is the part of the file
/// that its header states.
pub proof fn law_loaded_data_can_be_read(
    data: Seq<u8>,
    pos: nat,
    dtypes: Seq<GgmlDType>,
    name: Seq<char>,
)
    ensures
        tensors_from(data, pos, dtypes, Map::empty()) matches Loaded::Tensors(tensors)
            ==> tensors.contains_key(name) ==> {
            let tensor = tensors[name];
            &&& tensor.size_fits()
            &&& tensor.data_in(data) == Some(
                data.subrange(tensor.start_offset as int, data_end(tensor)),
            )
        },
{
    law_loaded_tensors_lie_in_file(data, pos, dtypes);
    if let Loaded::Tensors(tensors) = tensors_from(data, pos, dtypes, Map::empty()) {
        if tensors.contains_key(name) {
            let tensor = tensors[name];
            assert(tensor.byte_size() == 0 ==> data.subrange(
                tensor.start_offset as int,
                data_end(tensor),
            ) =~= Seq::empty());
        }
    }
}

/// Of several tensors of one name, the last is the one that is loaded: whatever was loaded before
/// it under its name, what is loaded from there on is the same.
pub proof fn law_later_tensor_replaces_earlier(
    data: Seq<u8>,
    pos: nat,
    dtypes: Seq<GgmlDType>,
    tensors: Map<Seq<char>, TensorView>,
    earlier: TensorView,
)
    requires
        pos != data.len(),
        tensor_at(data, pos, dtypes) matches Parsed::Tensor(tensor, _) && tensor.name
            == earlier.name,
    ensures
        tensors_from(data, pos, dtypes, tensors.insert(earlier.name, earlier)) == tensors_from(
            data,
            pos,
            dtypes,
            tensors,
        ),
{
    if let Parsed::Tensor(tensor, _) = tensor_at(data, pos, dtypes) {
        assert(tensors.insert(earlier.name, earlier).insert(tensor.name, tensor)
            =~= tensors.insert(tensor.name, tensor));
    }
}

/// A tensor has as many extents as the file states, and they are those that the file holds from
/// the last to the first: that of dimension `i` is the integer before which as many others stand
/// as there are dimensions after it.
pub proof fn law_extents_are_stored_innermost_first(
    data: Seq<u8>,
    pos: nat,
    dtypes: Seq<GgmlDType>,
)
    ensures
        tensor_at(data, pos, dtypes) matches Parsed::Tensor(tensor, _) ==> {
            let n = i32_at(data, pos as int) as int;
            &&& tensor.dims.len() == n
            &&& forall|i: int|
                0 <= i < n ==> #[trigger] tensor.dims[i] == u32_at(
                    data,
                    pos + 12 + 4 * (n - 1 - i),
                )
        },
{
}

/// Whether all that stands before a tensor's data is in the file, from the number of dimensions at
/// `pos` to the end of the name, with counts that the machine's integers can hold.
pub open spec fn header_is_whole(data: Seq<u8>, pos: nat) -> bool {
    let n_dims = i32_at(data, pos as int);
    let name_len = i32_at(data, pos as int + 4);
    let end = pos + 12 + 4 * n_dims + name_len;
    &&& pos + 12 <= data.len()
    &&& 0 <= 4 * n_dims <= isize::MAX
    &&& 0 <= name_len
    &&& end <= data.len()
    &&& end <= u64::MAX
}

/// The bytes of the name of the tensor at `pos`.
pub open spec fn name_bytes(data: Seq<u8>, pos: nat) -> Seq<u8> {
    let name_pos = pos + 12 + 4 * i32_at(data, pos as int);
    data.subrange(name_pos, name_pos + i32_at(data, pos as int + 4))
}

/// Which failure is reported where no tensor can be loaded. A negative number of dimensions is an
/// invalid integer. A file that ends too early is reported where it ends, unless a count before
/// that is not one to read by. Of a header that is whole, a name that is not UTF-8 comes first,
/// and then a type that no entry of the list has the code of, reported with name and code.
pub proof fn law_failure_at_position(data: Seq<u8>, pos: nat, dtypes: Seq<GgmlDType>)
    ensures
        ({
            let n_dims = i32_at(data, pos as int);
            let name_len = i32_at(data, pos as int + 4);
            let code = u32_at(data, pos as int + 8);
            let name_pos = pos + 12 + 4 * n_dims;
            let whole = header_is_whole(data, pos);
            let name = name_bytes(data, pos);
            let out = tensor_at(data, pos, dtypes);
            &&& out == Parsed::Failed(LoadFailure::InvalidInteger) <==> pos + 4 <= data.len()
                && n_dims < 0
            &&& out == Parsed::Failed(LoadFailure::UnexpectedEof) <==> {
                ||| pos + 4 > data.len()
                ||| n_dims >= 0 && pos + 12 > data.len()
                ||| 0 <= 4 * n_dims <= isize::MAX && name_pos > data.len()
                ||| 0 <= 4 * n_dims <= isize::MAX && 0 <= name_len && name_pos + name_len
                    > data.len()
            }
            &&& out == Parsed::Failed(LoadFailure::InvalidUtf8) <==> whole && !valid_utf8(name)
            &&& out matches Parsed::Failed(LoadFailure::UnsupportedDType { name: text, dtype })
                ==> encode_utf8(text) == name && dtype == code
            &&& (out matches Parsed::Failed(failure) && failure is UnsupportedDType) <==> whole
                && valid_utf8(name) && forall|i: int|
                0 <= i < dtypes.len() ==> (#[trigger] dtypes[i]).code != code
            &&& out matches Parsed::Failed(failure) ==> !(failure is InvalidFormat)
            &&& out is Tensor ==> whole
        }),
{
    law_dtype_is_first_match(dtypes, u32_at(data, pos as int + 8));
    if header_is_whole(data, pos) && valid_utf8(name_bytes(data, pos)) {
        decode_utf8_encode_utf8(name_bytes(data, pos));
    }
}

/// What a whole header with a name in UTF-8 makes of a tensor, where `dims` are the extents that
/// it holds, the first type of its code is that at `t` in the list, and `size` is the size of the
/// data in bytes. It is loaded with just these, its data right after the name and the next tensor
/// right after the data, unless the number of elements, the size or the end of the data is more
/// than the machine's integers can hold.
pub proof fn law_tensor_of_whole_header(
    data: Seq<u8>,
    pos: nat,
    dtypes: Seq<GgmlDType>,
    dims: Seq<usize>,
    t: int,
    size: int,
)
    requires
        header_is_whole(data, pos),
        valid_utf8(name_bytes(data, pos)),
        dims.len() == i32_at(data, pos as int),
        forall|i: int|
            0 <= i < dims.len() ==> #[trigger] dims[i] == u32_at(
                data,
                pos + 12 + 4 * (dims.len() - 1 - i),
            ),
        0 <= t < dtypes.len(),
        dtypes[t].code == u32_at(data, pos as int + 8),
        forall|j: int| 0 <= j < t ==> (#[trigger] dtypes[j]).code != dtypes[t].code,
    ensures
        ({
            let dtype = dtypes[t];
            let bytes = product(dims) * dtype.type_size;
            let end = pos + 12 + 4 * i32_at(data, pos as int) + i32_at(data, pos as int + 4);
            let out = tensor_at(data, pos, dtypes);
            if dtype.block_size == 0 || !product_fits(dims) || bytes > usize::MAX {
                out is Oversized
            } else {
                size * dtype.block_size <= bytes < (size + 1) * dtype.block_size ==> if end + size
                    <= u64::MAX {
                    &&& out matches Parsed::Tensor(tensor, next)
                    &&& encode_utf8(tensor.name) == name_bytes(data, pos)
                    &&& tensor.dims == dims
                    &&& tensor.dtype == dtype
                    &&& tensor.start_offset == end
                    &&& tensor.numel == product(dims)
                    &&& next == end + size
                } else {
                    out is Oversized
                }
            }
        }),
{
    let dtype = dtypes[t];
    let n_dims = i32_at(data, pos as int);
    let end = pos + 12 + 4 * n_dims + i32_at(data, pos as int + 4);
    law_dtype_is_first_match(dtypes, dtype.code);
    assert(find_dtype(dtypes, dtype.code) == Some(dtype));
    assert(extents(dims_at(data, pos as int + 12, n_dims as int)) =~= dims);
    decode_utf8_encode_utf8(name_bytes(data, pos));
    law_product_fits_step_by_step(dims, 0);
    if dtype.block_size > 0 && product_fits(dims) {
        law_data_size_counts_blocks(
            TensorView {
                name: vstd::utf8::decode_utf8(name_bytes(data, pos)),
                dims,
                dtype,
                start_offset: end as u64,
                numel: product(dims) as usize,
            },
            size,
        );
    }
}

/// Tensors by name, where a later one replaces an earlier one of the same name.
spec fn by_name(found: Seq<TensorView>) -> Map<Seq<char>, TensorView>
    decreases found.len(),
{
    if found.len() == 0 {
        Map::empty()
    } else {
        by_name(found.drop_last()).insert(found.last().name, found.last())
    }
}

proof fn lemma_names_are_of_tensors(found: Seq<TensorView>, name: Seq<char>)
    requires
        by_name(found).contains_key(name),
    ensures
        exists|i: int| 0 <= i < found.len() && (#[trigger] found[i]).name == name,
    decreases found.len(),
{
    if found.last().name != name {
        let rest = found.drop_last();
        lemma_names_are_of_tensors(rest, name);
        let i = choose|i: int| 0 <= i < rest.len() && (#[trigger] rest[i]).name == name;
        assert(found[i].name == name);
    } else {
        assert(found[found.len() - 1].name == name);
    }
}

proof fn lemma_every_name_is_there(found: Seq<TensorView>, i: int)
    requires
        0 <= i < found.len(),
    ensures
        by_name(found).contains_key(found[i].name),
    decreases found.len(),
{
    if i < found.len() - 1 {
        lemma_every_name_is_there(found.drop_last(), i);
    }
}

proof fn lemma_last_of_a_name(found: Seq<TensorView>, i: int)
    requires
        0 <= i < found.len(),
        forall|j: int| i < j < found.len() ==> (#[trigger] found[j]).name != found[i].name,
    ensures
        by_name(found)[found[i].name] == found[i],
    decreases found.len(),
{
    if i < found.len() - 1 {
        assert(found[found.len() - 1].name != found[i].name);
        lemma_last_of_a_name(found.drop_last(), i);
    }
}

/// Whether the tensors `found` stand one after the other in a file, the one at `i` from
/// `starts[i]` to `starts[i + 1]`.
pub open spec fn stand_in_a_row(
    data: Seq<u8>,
    dtypes: Seq<GgmlDType>,
    starts: Seq<nat>,
    found: Seq<TensorView>,
) -> bool {
    &&& starts.len() == found.len() + 1
    &&& forall|i: int|
        0 <= i < found.len() ==> {
            &&& starts[i] != data.len()
            &&& tensor_at(data, starts[i], dtypes) == Parsed::Tensor(
                #[trigger] found[i],
                starts[i + 1],
            )
        }
}

proof fn lemma_tensors_in_a_row(
    data: Seq<u8>,
    dtypes: Seq<GgmlDType>,
    starts: Seq<nat>,
    found: Seq<TensorView>,
    k: int,
)
    requires
        stand_in_a_row(data, dtypes, starts, found),
        0 <= k <= found.len(),
    ensures
        tensors_from(data, starts[0], dtypes, Map::empty()) == tensors_from(
            data,
            starts[k],
            dtypes,
            by_name(found.take(k)),
        ),
    decreases k,
{
    if k == 0 {
        assert(by_name(found.take(0)) == Map::<Seq<char>, TensorView>::empty());
    } else {
        lemma_tensors_in_a_row(data, dtypes, starts, found, k - 1);
        let tensor = found[k - 1];
        assert(found.take(k).drop_last() =~= found.take(k - 1));
        assert(found.take(k).last() == tensor);
        assert(tensor_at(data, starts[k - 1], dtypes) == Parsed::Tensor(
            tensor,
            starts[(k - 1) + 1],
        ));
    }
}

/// Of tensors that stand one after the other to the end of a file, exactly their names are loaded,
/// and under each name the last tensor that has it.
pub proof fn law_all_tensors_to_the_end_are_loaded(
    data: Seq<u8>,
    dtypes: Seq<GgmlDType>,
    starts: Seq<nat>,
    found: Seq<TensorView>,
    name: Seq<char>,
)
    requires
        stand_in_a_row(data, dtypes, starts, found),
        starts.last() == data.len(),
    ensures
        tensors_from(data, starts[0], dtypes, Map::empty()) matches Loaded::Tensors(tensors) && {
            &&& tensors.contains_key(name) <==> exists|i: int|
                0 <= i < found.len() && (#[trigger] found[i]).name == name
            &&& forall|i: int|
                {
                    &&& 0 <= i < found.len()
                    &&& (#[trigger] found[i]).name == name
                    &&& forall|j: int| i < j < found.len() ==> (#[trigger] found[j]).name != name
                } ==> tensors[name] == found[i]
        },
{
    let k = found.len() as int;
    lemma_tensors_in_a_row(data, dtypes, starts, found, k);
    assert(found.take(k) =~= found);
    let tensors = by_name(found);
    if tensors.contains_key(name) {
        lemma_names_are_of_tensors(found, name);
    }
    assert forall|i: int| 0 <= i < found.len() implies tensors.contains_key(
        (#[trigger] found[i]).name,
    ) by {
        lemma_every_name_is_there(found, i);
    }
    assert forall|i: int|
        {
            &&& 0 <= i < found.len()
            &&& (#[trigger] found[i]).name == name
            &&& forall|j: int| i < j < found.len() ==> (#[trigger] found[j]).name != name
        } implies tensors[name] == found[i] by {
        lemma_last_of_a_name(found, i);
    }
}

/// Where no tensor stands after others and the file has not ended, nothing is loaded, and the
/// reason is that of this place.
pub proof fn law_first_failure_is_reported(
    data: Seq<u8>,
    dtypes: Seq<GgmlDType>,
    starts: Seq<nat>,
    found: Seq<TensorView>,
)
    requires
        stand_in_a_row(data, dtypes, starts, found),
        starts.last() != data.len(),
        !(tensor_at(data, starts.last(), dtypes) is Tensor),
    ensures
        match tensor_at(data, starts.last(), dtypes) {
            Parsed::Failed(failure) => tensors_from(data, starts[0], dtypes, Map::empty())
                == Loaded::Failed(failure),
            _ => tensors_from(data, starts[0], dtypes, Map::empty()) is Oversized,
        },
{
    lemma_tensors_in_a_row(data, dtypes, starts, found, found.len() as int);
}

/// A map of headers is viewed name by name, and each header field by field.
pub proof fn law_headers_are_viewed_by_name(
    headers: Map<Seq<char>, TensorHeader>,
    name: Seq<char>,
)
    ensures
        headers_view(headers).contains_key(name) <==> headers.contains_key(name),
        headers.contains_key(name) ==> {
            let header = headers[name];
            let view = headers_view(headers)[name];
            &&& view.name == header.name@
            &&& view.dims == header.shape@
            &&& view.dtype == header.dtype
            &&& view.start_offset == header.start_offset
            &&& view.numel == header.numel
        },
{
}

} // verus!
