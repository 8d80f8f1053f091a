use vstd::prelude::*;

use crate::model::loader::{is_tied, widen_u16};
use crate::quant::qtensor::{signed, QuantTensor};
use crate::quant::table::NamedTable;
use crate::tensor::device::Device;
use crate::tensor::tensor::product;
use crate::text::{join2, text_eq};

verus! {

/// A tensor of a file, with the file's word for its element type.
#[derive(Debug, Clone)]
pub struct FileTensor {
    pub name: String,
    pub dtype: String,
    pub shape: Vec<usize>,
    pub data: Vec<u8>,
}

/// A tensor of a file.
#[verifier::ext_equal]
pub struct FileTensorView {
    pub dtype: Seq<char>,
    pub shape: Seq<usize>,
    pub data: Seq<u8>,
}

impl FileTensor {
    pub open spec fn view(&self) -> FileTensorView {
        FileTensorView { dtype: self.dtype@, shape: self.shape@, data: self.data@ }
    }
}

/// The tensors by their names.
pub open spec fn by_name(list: Seq<FileTensor>) -> Map<Seq<char>, FileTensorView>
    decreases list.len(),
{
    if list.len() == 0 {
        Map::empty()
    } else {
        by_name(list.drop_last()).insert(list.last().name@, list.last()@)
    }
}

/// No two tensors have the same name.
pub open spec fn names_differ(list: Seq<FileTensor>) -> bool {
    forall|i: int, j: int|
        0 <= i < j < list.len() ==> (#[trigger] list[i]).name@ != (#[trigger] list[j]).name@
}

/// The number of bytes that the length of a header takes.
pub const LENGTH_BYTES: usize = 8;

/// The longest header that a file may have.
pub const MAX_HEADER_BYTES: u64 = 100_000_000;

/// The number of bytes of data that a header declares, if it is in the format.
pub uninterp spec fn declared_len(header: Seq<u8>) -> Option<usize>;

/// `safetensors::tensor::Metadata`, read by `serde_json::from_slice`, and its
/// `data_len`: where the data that a header declares ends, or nothing where the header
/// is not in the format. What is in the format, and what it declares, is left to the
/// name.
#[verifier::external_body]
fn read_declared_len(header: &[u8]) -> (result: Option<usize>)
    requires
        header@.len() <= MAX_HEADER_BYTES,
    ensures
        result == declared_len(header@),
{
    let metadata = serde_json::from_slice::<safetensors::tensor::Metadata>(header);
    metadata.ok().map(|metadata| metadata.data_len())
}

/// The length of the header that the first bytes of a file give.
pub open spec fn header_len(bytes: Seq<u8>) -> int {
    vstd::bytes::spec_u64_from_le_bytes(bytes.take(LENGTH_BYTES as int)) as int
}

/// The file has a whole header of an allowed length.
pub open spec fn has_header(bytes: Seq<u8>) -> bool {
    &&& bytes.len() >= LENGTH_BYTES
    &&& header_len(bytes) <= MAX_HEADER_BYTES
    &&& LENGTH_BYTES + header_len(bytes) <= bytes.len()
}

/// The data that the header declares ends no later than the file. A file without a
/// header that can be read declares none.
pub open spec fn end_fits(bytes: Seq<u8>) -> bool {
    has_header(bytes) ==> match declared_len(
        bytes.subrange(LENGTH_BYTES as int, LENGTH_BYTES + header_len(bytes)),
    ) {
        Some(end) => end <= bytes.len(),
        None => true,
    }
}

/// Whether the data that a file declares ends no later than the file.
pub fn data_end_fits(bytes: &[u8]) -> (fits: bool)
    ensures
        fits == end_fits(bytes@),
{
    let total: usize = bytes.len();
    if total < LENGTH_BYTES {
        return true;
    }
    let first = vstd::slice::slice_subrange(bytes, 0, LENGTH_BYTES);
    assert(first@ =~= bytes@.take(LENGTH_BYTES as int));
    let length: u64 = vstd::bytes::u64_from_le_bytes(first);
    if length > MAX_HEADER_BYTES || length > (total - LENGTH_BYTES) as u64 {
        return true;
    }
    let header = vstd::slice::slice_subrange(
        bytes,
        LENGTH_BYTES,
        LENGTH_BYTES + length as usize,
    );
    match read_declared_len(header) {
        Some(end) => end <= total,
        None => true,
    }
}

/// The tensors of a file whose declared data fits into it, if its bytes are in the
/// format.
pub uninterp spec fn parsed_tensors(bytes: Seq<u8>) -> Option<Map<Seq<char>, FileTensorView>>;

/// The tensors of a file: none where its bytes are not in the format, or where it
/// declares more data than it has.
pub open spec fn file_tensors(bytes: Seq<u8>) -> Option<Map<Seq<char>, FileTensorView>> {
    if end_fits(bytes) {
        parsed_tensors(bytes)
    } else {
        None
    }
}

/// `safetensors::SafeTensors::deserialize` and `tensors`: the tensors of a file, each
/// once and in an order of its own, or nothing where the bytes are not in the format.
/// What is in the format, and what it holds, is left to the name; a tensor of signed
/// bytes has as many of them as its shape has elements. The end of the declared data is
/// added to the length of the header there, so it has to lie within the file.
#[verifier::external_body]
fn read_tensors(bytes: &[u8]) -> (result: Option<Vec<FileTensor>>)
    requires
        end_fits(bytes@),
    ensures
        match result {
            Some(list) => {
                &&& parsed_tensors(bytes@) == Some(by_name(list@))
                &&& names_differ(list@)
                &&& forall|i: int|
                    0 <= i < list@.len() && (#[trigger] list@[i]).dtype@ == "I8"@ ==> product(
                        list@[i].shape@,
                    ) == list@[i].data@.len()
            },
            None => parsed_tensors(bytes@) is None,
        },
{
    let file = safetensors::SafeTensors::deserialize(bytes).ok()?;
    let convert = |(name, view): (String, safetensors::tensor::TensorView)| FileTensor {
        name,
        dtype: view.dtype().to_string(),
        shape: view.shape().to_vec(),
        data: view.data().to_vec(),
    };
    Some(file.tensors().into_iter().map(convert).collect())
}

/// The element types that tensors are loaded with.
#[derive(Debug, Clone, Copy, PartialEq, Eq, Structural)]
pub enum ElementType {
    U8,
    U32,
    I16,
    I32,
    I64,
    BF16,
    F16,
    F32,
    F64,
    F8E4M3,
    F6E2M3,
    F6E3M2,
    F4,
    F8E8M0,
}

/// The element type of tensors that are loaded as they are.
pub open spec fn raw_type(word: Seq<char>) -> Option<ElementType> {
    if word == "U8"@ {
        Some(ElementType::U8)
    } else if word == "U32"@ {
        Some(ElementType::U32)
    } else if word == "I16"@ {
        Some(ElementType::I16)
    } else if word == "I32"@ {
        Some(ElementType::I32)
    } else if word == "I64"@ {
        Some(ElementType::I64)
    } else if word == "BF16"@ {
        Some(ElementType::BF16)
    } else if word == "F16"@ {
        Some(ElementType::F16)
    } else if word == "F32"@ {
        Some(ElementType::F32)
    } else if word == "F64"@ {
        Some(ElementType::F64)
    } else if word == "F8_E4M3"@ {
        Some(ElementType::F8E4M3)
    } else if word == "F6_E2M3"@ {
        Some(ElementType::F6E2M3)
    } else if word == "F6_E3M2"@ {
        Some(ElementType::F6E3M2)
    } else if word == "F4"@ {
        Some(ElementType::F4)
    } else if word == "F8_E8M0"@ {
        Some(ElementType::F8E8M0)
    } else {
        None
    }
}

fn find_raw_type(word: &str) -> (found: Option<ElementType>)
    ensures
        found == raw_type(word@),
{
    if text_eq(word, "U8") {
        Some(ElementType::U8)
    } else if text_eq(word, "U32") {
        Some(ElementType::U32)
    } else if text_eq(word, "I16") {
        Some(ElementType::I16)
    } else if text_eq(word, "I32") {
        Some(ElementType::I32)
    } else if text_eq(word, "I64") {
        Some(ElementType::I64)
    } else if text_eq(word, "BF16") {
        Some(ElementType::BF16)
    } else if text_eq(word, "F16") {
        Some(ElementType::F16)
    } else if text_eq(word, "F32") {
        Some(ElementType::F32)
    } else if text_eq(word, "F64") {
        Some(ElementType::F64)
    } else if text_eq(word, "F8_E4M3") {
        Some(ElementType::F8E4M3)
    } else if text_eq(word, "F6_E2M3") {
        Some(ElementType::F6E2M3)
    } else if text_eq(word, "F6_E3M2") {
        Some(ElementType::F6E3M2)
    } else if text_eq(word, "F4") {
        Some(ElementType::F4)
    } else if text_eq(word, "F8_E8M0") {
        Some(ElementType::F8E8M0)
    } else {
        None
    }
}

/// The elements of a tensor: bytes as they are, or numbers that were widened.
#[derive(Debug, Clone)]
pub enum Elements {
    Raw(ElementType, Vec<u8>),
    Words(Vec<u32>),
}

/// A tensor that is ready to be put on a device.
#[derive(Debug, Clone)]
pub struct LoadedTensor {
    pub elements: Elements,
    pub shape: Vec<usize>,
}

/// The tensor holds what the file holds. Unsigned numbers of sixteen bits become
/// numbers of thirty-two.
pub open spec fn holds(loaded: LoadedTensor, file: FileTensorView) -> bool {
    &&& loaded.shape@ == file.shape
    &&& match loaded.elements {
        Elements::Raw(dtype, bytes) => raw_type(file.dtype) == Some(dtype) && bytes@ == file.data,
        Elements::Words(words) => {
            &&& file.dtype == "U16"@
            &&& words@.len() == file.data.len() / 2
            &&& forall|i: int|
                0 <= i < words@.len() ==> #[trigger] words@[i] == file.data[2 * i] + 256
                    * file.data[2 * i + 1]
        },
    }
}

/// The element type can be loaded.
pub open spec fn loadable(word: Seq<char>) -> bool {
    word == "I8"@ || word == "U16"@ || raw_type(word) is Some
}

/// An element type that cannot be loaded, with the tensor that has it.
#[derive(Debug, Clone, PartialEq, Eq)]
pub struct UnsupportedType {
    pub name: String,
    pub dtype: String,
}

impl UnsupportedType {
    pub fn message(&self) -> (text: String)
        ensures
            text@ == "unsupported SafeTensors dtype "@ + self.dtype@,
    {
        join2("unsupported SafeTensors dtype ", self.dtype.as_str())
    }
}

fn load_non_i8(tensor: FileTensor) -> (result: Result<LoadedTensor, UnsupportedType>)
    requires
        tensor.dtype@ != "I8"@,
    ensures
        match result {
            Ok(loaded) => loadable(tensor.dtype@) && holds(loaded, tensor@),
            Err(error) => {
                &&& !loadable(tensor.dtype@)
                &&& error.name@ == tensor.name@
                &&& error.dtype@ == tensor.dtype@
            },
        },
{
    if text_eq(tensor.dtype.as_str(), "U16") {
        proof {
            reveal_strlit("U16");
            reveal_strlit("I8");
        }
        let words = widen_u16(tensor.data.as_slice());
        return Ok(LoadedTensor { elements: Elements::Words(words), shape: tensor.shape });
    }
    match find_raw_type(tensor.dtype.as_str()) {
        Some(dtype) => Ok(
            LoadedTensor { elements: Elements::Raw(dtype, tensor.data), shape: tensor.shape },
        ),
        None => Err(UnsupportedType { name: tensor.name, dtype: tensor.dtype }),
    }
}

/// The tensors of a checkpoint: those of signed bytes apart from the others.
pub struct Checkpoint {
    pub weights: NamedTable<LoadedTensor>,
    pub quantized: NamedTable<QuantTensor>,
}

/// The tensor is the one of signed bytes that the file holds.
pub open spec fn holds_signed(tensor: QuantTensor, file: FileTensorView, device: Device) -> bool {
    &&& tensor.wf()
    &&& tensor.bytes() == file.data.map_values(|b: u8| signed(b))
    &&& tensor.dims() == file.shape
    &&& tensor.place() == device
}

impl Checkpoint {
    pub open spec fn wf(&self) -> bool {
        self.weights.wf() && self.quantized.wf()
    }

    /// The checkpoint is the other one with the tensors of a file, which take the place
    /// of those with the same names: tensors of signed bytes among their like.
    pub open spec fn extends(
        &self,
        before: Checkpoint,
        tensors: Map<Seq<char>, FileTensorView>,
        device: Device,
    ) -> bool {
        &&& forall|name: Seq<char>| #[trigger]
            self.weights@.contains_key(name) <==> before.weights@.contains_key(name) || (
            tensors.contains_key(name) && tensors[name].dtype != "I8"@)
        &&& forall|name: Seq<char>| #[trigger]
            self.weights@.contains_key(name) ==> if tensors.contains_key(name)
                && tensors[name].dtype != "I8"@ {
                holds(self.weights@[name], tensors[name])
            } else {
                self.weights@[name] == before.weights@[name]
            }
        &&& forall|name: Seq<char>| #[trigger]
            self.quantized@.contains_key(name) <==> before.quantized@.contains_key(name) || (
            tensors.contains_key(name) && tensors[name].dtype == "I8"@)
        &&& forall|name: Seq<char>| #[trigger]
            self.quantized@.contains_key(name) ==> if tensors.contains_key(name)
                && tensors[name].dtype == "I8"@ {
                holds_signed(self.quantized@[name], tensors[name], device)
            } else {
                self.quantized@[name] == before.quantized@[name]
            }
    }

    pub fn new() -> (checkpoint: Self)
        ensures
            checkpoint.wf(),
            checkpoint.weights@ == Map::<Seq<char>, LoadedTensor>::empty(),
            checkpoint.quantized@ == Map::<Seq<char>, QuantTensor>::empty(),
    {
        Checkpoint { weights: NamedTable::new(), quantized: NamedTable::new() }
    }
}

/// Why a file is refused.
#[derive(Debug, Clone, PartialEq, Eq)]
pub enum ShardFault {
    /// The bytes are not in the format.
    Malformed,
    Unsupported(UnsupportedType),
}

/// Every tensor can be loaded.
pub open spec fn all_loadable(tensors: Map<Seq<char>, FileTensorView>) -> bool {
    forall|name: Seq<char>| #[trigger] tensors.contains_key(name) ==> loadable(tensors[name].dtype)
}

proof fn lemma_by_name(list: Seq<FileTensor>, i: int)
    requires
        names_differ(list),
        0 <= i < list.len(),
    ensures
        by_name(list).contains_key(list[i].name@),
        by_name(list)[list[i].name@] == list[i]@,
    decreases list.len(),
{
    if i < list.len() - 1 {
        lemma_by_name(list.drop_last(), i);
        assert(list.drop_last()[i] == list[i]);
        assert(list[i].name@ != list[list.len() - 1].name@);
    }
}

fn sort_in(start: Checkpoint, list: Vec<FileTensor>, device: &Device) -> (result: Result<
    Checkpoint,
    UnsupportedType,
>)
    requires
        start.wf(),
        names_differ(list@),
        forall|i: int|
            0 <= i < list@.len() && (#[trigger] list@[i]).dtype@ == "I8"@ ==> product(
                list@[i].shape@,
            ) == list@[i].data@.len(),
    ensures
        match result {
            Ok(checkpoint) => checkpoint.wf() && all_loadable(by_name(list@)) && checkpoint.extends(
                start,
                by_name(list@),
                *device,
            ),
            Err(error) => {
                &&& by_name(list@).contains_key(error.name@)
                &&& by_name(list@)[error.name@].dtype == error.dtype@
                &&& !loadable(error.dtype@)
            },
        },
{
    let ghost all = list@;
    let ghost given = start;
    let mut checkpoint = start;
    assert(all.take(0) =~= Seq::<FileTensor>::empty());
    for tensor in it: list.into_iter()
        invariant
            it.seq() == all,
            names_differ(all),
            forall|i: int|
                0 <= i < all.len() && (#[trigger] all[i]).dtype@ == "I8"@ ==> product(
                    all[i].shape@,
                ) == all[i].data@.len(),
            checkpoint.wf(),
            all_loadable(by_name(all.take(it.index()))),
            checkpoint.extends(given, by_name(all.take(it.index())), *device),
    {
        let ghost at = it.index();
        let ghost before = by_name(all.take(at));
        let ghost after = by_name(all.take(at + 1));
        let ghost file = tensor@;
        let ghost name = tensor.name@;
        proof {
            assert(tensor == all[at]);
            assert(all.take(at + 1).drop_last() =~= all.take(at));
            assert(after == before.insert(name, file));
            lemma_by_name(all, at);
            lemma_absent(all, at);
        }
        if text_eq(tensor.dtype.as_str(), "I8") {
            let key = tensor.name;
            let length: usize = tensor.data.len();
            assert(product(tensor.shape@) == length);
            match QuantTensor::from_i8_bytes(tensor.data.as_slice(), tensor.shape, device) {
                Ok(signed_bytes) => {
                    checkpoint.quantized.insert(key, signed_bytes);
                },
                Err(_) => {
                    assert(false);
                },
            }
        } else {
            let key = tensor.name.clone();
            match load_non_i8(tensor) {
                Ok(loaded) => {
                    checkpoint.weights.insert(key, loaded);
                },
                Err(error) => {
                    return Err(error);
                },
            }
        }
    }
    assert(all.take(all.len() as int) =~= all);
    Ok(checkpoint)
}

/// A name that comes later is not there yet.
proof fn lemma_absent(list: Seq<FileTensor>, at: int)
    requires
        names_differ(list),
        0 <= at < list.len(),
    ensures
        !by_name(list.take(at)).contains_key(list[at].name@),
{
    if by_name(list.take(at)).contains_key(list[at].name@) {
        let i = lemma_named(list.take(at), list[at].name@);
        assert(list[i].name@ == list[at].name@);
    }
}

proof fn lemma_named(list: Seq<FileTensor>, name: Seq<char>) -> (i: int)
    requires
        by_name(list).contains_key(name),
    ensures
        0 <= i < list.len(),
        list[i].name@ == name,
    decreases list.len(),
{
    if list.last().name@ == name {
        list.len() - 1
    } else {
        let i = lemma_named(list.drop_last(), name);
        assert(list.drop_last()[i] == list[i]);
        i
    }
}

impl Checkpoint {
    /// The checkpoint with the tensors of a file, from its bytes. Where the file has an
    /// element type that cannot be loaded, one of its tensors with such a type is
    /// reported.
    pub fn load_safetensors_shard(self, bytes: &[u8], device: &Device) -> (result: Result<
        Self,
        ShardFault,
    >)
        requires
            self.wf(),
        ensures
            match result {
                Ok(checkpoint) => {
                    &&& checkpoint.wf()
                    &&& file_tensors(bytes@) is Some
                    &&& all_loadable(file_tensors(bytes@)->0)
                    &&& checkpoint.extends(self, file_tensors(bytes@)->0, *device)
                },
                Err(ShardFault::Malformed) => file_tensors(bytes@) is None,
                Err(ShardFault::Unsupported(error)) => {
                    &&& file_tensors(bytes@) is Some
                    &&& file_tensors(bytes@)->0.contains_key(error.name@)
                    &&& file_tensors(bytes@)->0[error.name@].dtype == error.dtype@
                    &&& !loadable(error.dtype@)
                },
            },
    {
        if !data_end_fits(bytes) {
            return Err(ShardFault::Malformed);
        }
        match read_tensors(bytes) {
            None => Err(ShardFault::Malformed),
            Some(list) => match sort_in(self, list, device) {
                Ok(checkpoint) => Ok(checkpoint),
                Err(error) => Err(ShardFault::Unsupported(error)),
            },
        }
    }

    /// Whether the model's head is tied to its embedding: the checkpoint has the
    /// embedding and no head.
    pub fn has_tied_head(&self) -> (r: bool)
        ensures
            r == (!self.weights@.contains_key("lm_head.weight"@) && self.weights@.contains_key(
                "model.embed_tokens.weight"@,
            )),
    {
        is_tied(
            self.weights.contains("lm_head.weight"),
            self.weights.contains("model.embed_tokens.weight"),
        )
    }
}

/// Of two files the later one counts for a name that it has, and the earlier one for
/// the others.
pub proof fn lemma_later_file_counts(
    first: Checkpoint,
    second: Checkpoint,
    third: Checkpoint,
    a: Map<Seq<char>, FileTensorView>,
    b: Map<Seq<char>, FileTensorView>,
    device: Device,
    name: Seq<char>,
)
    requires
        second.extends(first, a, device),
        third.extends(second, b, device),
    ensures
        b.contains_key(name) && b[name].dtype != "I8"@ ==> third.weights@.contains_key(name)
            && holds(third.weights@[name], b[name]),
        !b.contains_key(name) && a.contains_key(name) && a[name].dtype != "I8"@
            ==> third.weights@.contains_key(name) && holds(third.weights@[name], a[name]),
{
    if second.weights@.contains_key(name) {
    }
    if third.weights@.contains_key(name) {
    }
}

/// Each word for an element type that a file can hold names the type of that name.
pub proof fn lemma_raw_types()
    ensures
        raw_type("U8"@) == Some(ElementType::U8),
        raw_type("U32"@) == Some(ElementType::U32),
        raw_type("I16"@) == Some(ElementType::I16),
        raw_type("I32"@) == Some(ElementType::I32),
        raw_type("I64"@) == Some(ElementType::I64),
        raw_type("BF16"@) == Some(ElementType::BF16),
        raw_type("F16"@) == Some(ElementType::F16),
        raw_type("F32"@) == Some(ElementType::F32),
        raw_type("F64"@) == Some(ElementType::F64),
        raw_type("F8_E4M3"@) == Some(ElementType::F8E4M3),
        raw_type("F6_E2M3"@) == Some(ElementType::F6E2M3),
        raw_type("F6_E3M2"@) == Some(ElementType::F6E3M2),
        raw_type("F4"@) == Some(ElementType::F4),
        raw_type("F8_E8M0"@) == Some(ElementType::F8E8M0),
        raw_type("I8"@) is None,
        raw_type("U16"@) is None,
        loadable("I8"@) && loadable("U16"@),
{
    reveal_strlit("U8");
    reveal_strlit("U16");
    reveal_strlit("U32");
    reveal_strlit("I8");
    reveal_strlit("I16");
    reveal_strlit("I32");
    reveal_strlit("I64");
    reveal_strlit("BF16");
    reveal_strlit("F16");
    reveal_strlit("F32");
    reveal_strlit("F64");
    reveal_strlit("F8_E4M3");
    reveal_strlit("F6_E2M3");
    reveal_strlit("F6_E3M2");
    reveal_strlit("F4");
    reveal_strlit("F8_E8M0");
    assert("U8"@.len() == 2 && "I8"@.len() == 2 && "F4"@.len() == 2 && "BF16"@.len() == 4);
    assert("U8"@[0] == 'U' && "I8"@[0] == 'I' && "F4"@[0] == 'F');
    assert("U16"@.len() == 3 && "U32"@.len() == 3 && "I16"@.len() == 3 && "I32"@.len() == 3
        && "I64"@.len() == 3 && "F16"@.len() == 3 && "F32"@.len() == 3 && "F64"@.len() == 3);
    assert("U16"@[0] == 'U' && "U32"@[0] == 'U' && "I16"@[0] == 'I' && "I32"@[0] == 'I'
        && "I64"@[0] == 'I' && "F16"@[0] == 'F' && "F32"@[0] == 'F' && "F64"@[0] == 'F');
    assert("U16"@[1] == '1' && "U32"@[1] == '3' && "I16"@[1] == '1' && "I32"@[1] == '3'
        && "I64"@[1] == '6' && "F16"@[1] == '1' && "F32"@[1] == '3' && "F64"@[1] == '6');
    assert("F8_E4M3"@.len() == 7 && "F6_E2M3"@.len() == 7 && "F6_E3M2"@.len() == 7
        && "F8_E8M0"@.len() == 7);
    assert("F8_E4M3"@[4] == '4' && "F6_E2M3"@[4] == '2' && "F6_E3M2"@[4] == '3' && "F8_E8M0"@[4]
        == '8');
}

} // verus!
