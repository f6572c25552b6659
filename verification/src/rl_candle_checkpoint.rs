//! Stored policy tensors: their names, their layout, and the order of their restore.
use crate::integer::decimal_digits;
use crate::metric_snapshot::{increasing, insert_sorted, texts};
use crate::ordered::{has_name, read_after_write, value_of, write_keeps_others, OrderedMap};
use crate::rl_policy_weight::PolicyWeightLoadError;
use crate::text::{append_chars, decimal_chars, from_chars, same_text, to_chars};
use safetensors::tensor::{Metadata, TensorInfo, TensorView};
use safetensors::SafeTensors;
use vstd::prelude::*;

verus! {

/// A tensor as it is stored: the name of its type, its shape and its bytes.
#[derive(Debug)]
pub struct StoredTensor {
    pub dtype: String,
    pub shape: Vec<usize>,
    pub data: Vec<u8>,
}

/// A tensor as it is stored.
pub type TensorModel = (Seq<char>, Seq<usize>, Seq<u8>);

impl View for StoredTensor {
    type V = TensorModel;

    open spec fn view(&self) -> TensorModel {
        (self.dtype@, self.shape@, self.data@)
    }
}

/// The tensors that `SafeTensors::deserialize` finds in bytes, by name; none in bytes that are no
/// container.
pub uninterp spec fn container_tensors(bytes: Seq<u8>) -> Option<Map<Seq<char>, TensorModel>>;

/// The notes that `SafeTensors::read_metadata` finds in bytes, by key; none in bytes that are no
/// container.
pub uninterp spec fn container_notes(bytes: Seq<u8>) -> Option<Map<Seq<char>, Seq<char>>>;

/// The bytes of data that the header of a container claims: the end of the last tensor of what
/// `serde_json::from_slice` reads as a `Metadata` of `safetensors`; none in a text that is no header.
pub uninterp spec fn header_extent(header: Seq<u8>) -> Option<nat>;

/// The length of the header of a container: the first eight bytes, the lowest first.
pub open spec fn header_length(bytes: Seq<u8>) -> nat {
    let low = bytes[0] + 0x100 * bytes[1] + 0x1_0000 * bytes[2] + 0x100_0000 * bytes[3];
    let high = bytes[4] + 0x100 * bytes[5] + 0x1_0000 * bytes[6] + 0x100_0000 * bytes[7];
    (low + 0x1_0000_0000 * high) as nat
}

/// The header of a container, if it is there and within its limit.
pub open spec fn header_of(bytes: Seq<u8>) -> Option<Seq<u8>> {
    if bytes.len() >= 8 && header_length(bytes) <= header_limit() && 8 + header_length(bytes) <= bytes.len() {
        Some(bytes.subrange(8, 8 + header_length(bytes) as int))
    } else {
        None
    }
}

/// Whether the length of a container that its header claims can be counted in a machine word.
pub open spec fn lengths_fit(bytes: Seq<u8>) -> bool {
    match header_of(bytes) {
        Some(header) => match header_extent(header) {
            Some(extent) => extent + 8 + header.len() <= usize::MAX,
            None => true,
        },
        None => true,
    }
}

/// `serde_json::from_slice` into a `Metadata` of `safetensors`, and its `data_len`: the bytes of
/// data that a header claims.
#[verifier::external_body]
fn claimed_extent(header: &[u8]) -> (result: Option<usize>)
    ensures
        match result {
            Some(extent) => header_extent(header@) == Some(extent as nat),
            None => header_extent(header@) is None,
        },
{
    serde_json::from_slice::<Metadata>(header).ok().map(|metadata| metadata.data_len())
}

/// Whether the lengths in a container can be added up.
fn check_lengths(bytes: &[u8]) -> (result: bool)
    ensures
        result == lengths_fit(bytes@),
{
    let total: usize = bytes.len();
    if total < 8 || bytes[4] != 0 || bytes[5] != 0 || bytes[6] != 0 || bytes[7] != 0 {
        return true;
    }
    let low: u64 = bytes[0] as u64 + 0x100 * bytes[1] as u64 + 0x1_0000 * bytes[2] as u64 + 0x100_0000 * bytes[3] as u64;
    if low > 100_000_000 || low > (total - 8) as u64 {
        return true;
    }
    let length: usize = low as usize;
    let header = vstd::slice::slice_subrange(bytes, 8, 8 + length);
    match claimed_extent(header) {
        Some(extent) => extent <= usize::MAX - 8 - length,
        None => true,
    }
}

/// What is said of a container whose lengths cannot be added up.
fn lengths_message() -> (result: String)
    ensures
        result@ == "incomplete metadata, file not fully covered"@,
{
    "incomplete metadata, file not fully covered".to_owned()
}

/// Whether a list holds exactly the tensors of a container, each once.
pub open spec fn lists_all(list: Seq<(String, StoredTensor)>, tensors: Map<Seq<char>, TensorModel>) -> bool {
    &&& forall|i: int, j: int| 0 <= i < j < list.len() ==> (#[trigger] list[i]).0@ != (#[trigger] list[j]).0@
    &&& forall|i: int|
        0 <= i < list.len() ==> tensors.dom().contains((#[trigger] list[i]).0@) && tensors[list[i].0@] == list[i].1@
    &&& forall|name: Seq<char>| #[trigger]
        tensors.dom().contains(name) ==> exists|i: int| 0 <= i < list.len() && (#[trigger] list[i]).0@ == name
}

/// `SafeTensors::deserialize` of `safetensors` and its `iter`: the tensors of a container in any
/// order, each once. It adds the lengths in the header up, which must fit. What is said of bytes
/// that are no container is not stated.
#[verifier::external_body]
fn read_tensors(bytes: &[u8]) -> (result: Result<Vec<(String, StoredTensor)>, String>)
    requires
        lengths_fit(bytes@),
    ensures
        match result {
            Ok(list) => container_tensors(bytes@) is Some && lists_all(list@, container_tensors(bytes@)->Some_0),
            Err(_) => container_tensors(bytes@) is None,
        },
{
    let tensors = SafeTensors::deserialize(bytes).map_err(|error| error.to_string())?;
    let list = tensors.iter().map(|(name, view)| {
        let dtype = format!("{:?}", view.dtype());
        (name.to_owned(), StoredTensor { dtype, shape: view.shape().to_vec(), data: view.data().to_vec() })
    });
    Ok(list.collect())
}

/// `SafeTensors::read_metadata` of `safetensors`: the note under a key, if there is one. It adds
/// the lengths in the header up, which must fit. What is said of bytes that are no container is not
/// stated.
#[verifier::external_body]
fn read_note(bytes: &[u8], key: &str) -> (result: Result<Option<String>, String>)
    requires
        lengths_fit(bytes@),
    ensures
        match result {
            Ok(Some(note)) => container_notes(bytes@) is Some && container_notes(bytes@)->Some_0.dom().contains(key@)
                && container_notes(bytes@)->Some_0[key@] == note@,
            Ok(None) => container_notes(bytes@) is Some && !container_notes(bytes@)->Some_0.dom().contains(key@),
            Err(_) => container_notes(bytes@) is None,
        },
{
    let (_, metadata) = SafeTensors::read_metadata(bytes).map_err(|error| error.to_string())?;
    Ok(metadata.metadata().as_ref().and_then(|notes| notes.get(key)).cloned())
}

/// Whether a list holds exactly the notes of a container, each once.
pub open spec fn notes_all(list: Seq<(String, String)>, notes: Map<Seq<char>, Seq<char>>) -> bool {
    &&& forall|i: int|
        0 <= i < list.len() ==> notes.dom().contains((#[trigger] list[i]).0@) && notes[list[i].0@] == list[i].1@
    &&& forall|key: Seq<char>| #[trigger]
        notes.dom().contains(key) ==> exists|i: int| 0 <= i < list.len() && (#[trigger] list[i]).0@ == key
}

/// The bits that an element of a type takes, by the type's name; none for a name of no type.
pub open spec fn element_bits(dtype: Seq<char>) -> Option<nat> {
    if dtype == "F4"@ {
        Some(4)
    } else if dtype == "F6_E2M3"@ || dtype == "F6_E3M2"@ {
        Some(6)
    } else if dtype == "BOOL"@ || dtype == "U8"@ || dtype == "I8"@ || dtype == "F8_E5M2"@ || dtype == "F8_E4M3"@ || dtype
        == "F8_E8M0"@ {
        Some(8)
    } else if dtype == "I16"@ || dtype == "U16"@ || dtype == "F16"@ || dtype == "BF16"@ {
        Some(16)
    } else if dtype == "I32"@ || dtype == "U32"@ || dtype == "F32"@ {
        Some(32)
    } else if dtype == "I64"@ || dtype == "U64"@ || dtype == "F64"@ || dtype == "C64"@ {
        Some(64)
    } else {
        None
    }
}

/// The number of elements of a shape.
pub open spec fn element_count(shape: Seq<usize>) -> nat
    decreases shape.len(),
{
    if shape.len() == 0 {
        1
    } else {
        element_count(shape.drop_last()) * (shape.last() as nat)
    }
}

/// Whether the elements of a shape can be counted, extent by extent, in a machine word.
pub open spec fn can_be_counted(shape: Seq<usize>) -> bool {
    forall|n: int| 0 <= n <= shape.len() ==> element_count(#[trigger] shape.take(n)) <= usize::MAX
}

/// Whether a tensor can be stored: it has a known type, and its bytes are those of all elements of
/// its shape, whose bits can be counted in a machine word.
pub open spec fn fills_shape(tensor: TensorModel) -> bool {
    &&& element_bits(tensor.0) is Some
    &&& can_be_counted(tensor.1)
    &&& element_count(tensor.1) * element_bits(tensor.0)->Some_0 <= usize::MAX
    &&& element_count(tensor.1) * element_bits(tensor.0)->Some_0 == 8 * tensor.2.len()
}

/// Whether every tensor of a list can be stored.
pub open spec fn all_fill(list: Seq<(String, StoredTensor)>) -> bool {
    forall|k: int| 0 <= k < list.len() ==> fills_shape((#[trigger] list[k]).1@)
}

/// `Metadata::new` of `safetensors`, for one tensor that starts the data: it takes exactly the
/// tensors that can be stored. The type is found by its name as `serde_json::from_value` finds a
/// variant of `Dtype`. What is said of another tensor is not stated.
#[verifier::external_body]
fn check_size(tensor: &StoredTensor) -> (result: Result<(), String>)
    ensures
        result is Ok <==> fills_shape(tensor@),
{
    let named = serde_json::Value::String(tensor.dtype.clone());
    let dtype = serde_json::from_value(named).map_err(|error| error.to_string())?;
    let info = TensorInfo { dtype, shape: tensor.shape.clone(), data_offsets: (0, tensor.data.len()) };
    Metadata::new(None, vec![(String::new(), info)]).map_err(|error| error.to_string())?;
    Ok(())
}

/// The letters of the names of tensors, as they are written.
pub open spec fn name_letters(list: Seq<(String, StoredTensor)>, encoded: bool) -> nat
    decreases list.len(),
{
    if list.len() == 0 {
        0
    } else {
        name_letters(list.drop_last(), encoded) + written_name(encoded, list.last().0@).len()
    }
}

/// The extents of the shapes of tensors.
pub open spec fn extents(list: Seq<(String, StoredTensor)>) -> nat
    decreases list.len(),
{
    if list.len() == 0 {
        0
    } else {
        extents(list.drop_last()) + list.last().1@.1.len()
    }
}

/// The letters of notes, of keys and values.
pub open spec fn note_letters(notes: Seq<(String, String)>) -> nat
    decreases notes.len(),
{
    if notes.len() == 0 {
        0
    } else {
        note_letters(notes.drop_last()) + notes.last().0@.len() + notes.last().1@.len()
    }
}

/// The bytes that the header of a container may have.
pub open spec fn header_limit() -> nat {
    100_000_000
}

/// A number of bytes that no header exceeds: a letter takes at most six, an extent at most twenty
/// digits and a comma, and what stands round a tensor or a note is bounded.
pub open spec fn largest_header(letters: nat, tensors: nat, extents: nat, notes: nat) -> nat {
    24 + 6 * letters + 96 * tensors + 21 * extents + 6 * notes
}

/// `safetensors::serialize`: a container in which `SafeTensors::deserialize` finds the tensors and
/// `SafeTensors::read_metadata` finds the notes. It fails where the header is longer than its
/// limit, and only there: it is so where the letters alone are more, and is not where the largest
/// header of so many letters, tensors, extents and notes is within the limit. On which headers
/// between these it fails, and what it then says, is not stated. The header claims the bytes of data
/// that follow it.
#[verifier::external_body]
fn write_tensors(list: &Vec<(String, StoredTensor)>, notes: &Vec<(String, String)>) -> (result: Result<Vec<u8>, String>)
    requires
        forall|i: int, j: int| 0 <= i < j < list@.len() ==> (#[trigger] list@[i]).0@ != (#[trigger] list@[j]).0@,
        forall|i: int, j: int| 0 <= i < j < notes@.len() ==> (#[trigger] notes@[i]).0@ != (#[trigger] notes@[j]).0@,
        forall|i: int| 0 <= i < list@.len() ==> (#[trigger] list@[i]).0@.len() > 0 && list@[i].0@[0] == 'p',
        all_fill(list@),
        notes@.len() > 0,
    ensures
        largest_header(
            name_letters(list@, false) + note_letters(notes@),
            list@.len(),
            extents(list@),
            notes@.len(),
        ) <= header_limit() ==> result is Ok,
        name_letters(list@, false) + note_letters(notes@) > header_limit() ==> result is Err,
        result matches Ok(bytes) ==> lengths_fit(bytes@),
        result matches Ok(bytes) ==> container_tensors(bytes@) is Some && lists_all(
            list@,
            container_tensors(bytes@)->Some_0,
        ),
        result matches Ok(bytes) ==> container_notes(bytes@) is Some && notes_all(
            notes@,
            container_notes(bytes@)->Some_0,
        ),
{
    let views = list.iter().map(|(name, tensor)| {
        let named = serde_json::Value::String(tensor.dtype.clone());
        let dtype = serde_json::from_value(named).map_err(|error| error.to_string())?;
        let view = TensorView::new(dtype, tensor.shape.clone(), &tensor.data).map_err(|error| error.to_string())?;
        Ok((name.clone(), view))
    });
    let tensors = views.collect::<Result<Vec<_>, String>>()?;
    safetensors::serialize(tensors, Some(notes.iter().cloned().collect())).map_err(|error| error.to_string())
}

// ---- names ------------------------------------------------------------------------------------

/// The key of the note on how names are written.
pub open spec fn name_encoding_key() -> Seq<char> {
    "core.candle_policy.tensor_names"@
}

/// How names are written: behind the letter `p`, so that no name is one that the container keeps
/// for itself.
pub open spec fn name_encoding_version() -> Seq<char> {
    "prefix-p-v1"@
}

/// A name as it is written.
pub open spec fn written_name(encoded: bool, name: Seq<char>) -> Seq<char> {
    if encoded {
        seq!['p'] + name
    } else {
        name
    }
}

/// A name as it is written into a new container.
pub fn encode_name(name: &str) -> (result: String)
    ensures
        result@ == written_name(true, name@),
{
    let mut text: Vec<char> = Vec::new();
    text.push('p');
    assert(text@ =~= seq!['p']);
    append_chars(&mut text, to_chars(name).as_slice());
    from_chars(text.as_slice())
}

/// The name that was written, if it was written so.
pub fn decode_name(written: &str, encoded: bool) -> (result: Option<String>)
    ensures
        match result {
            Some(name) => written@ == written_name(encoded, name@),
            None => encoded && (written@.len() == 0 || written@[0] != 'p'),
        },
{
    if !encoded {
        return Some(written.to_owned());
    }
    let chars = to_chars(written);
    if chars.len() == 0 || chars[0] != 'p' {
        return None;
    }
    let rest = crate::text::sub_chars(chars.as_slice(), 1, chars.len());
    let name = from_chars(rest.as_slice());
    assert(written@ =~= seq!['p'] + name@);
    Some(name)
}

/// Names that are written alike are the same.
pub proof fn written_names_differ(encoded: bool, a: Seq<char>, b: Seq<char>)
    requires
        written_name(encoded, a) == written_name(encoded, b),
    ensures
        a == b,
{
    if encoded {
        assert((seq!['p'] + a).skip(1) =~= a);
        assert((seq!['p'] + b).skip(1) =~= b);
    }
}

/// Whether names are written behind a letter; none where they are written in an unknown way.
pub open spec fn encoding_of(notes: Map<Seq<char>, Seq<char>>) -> Option<bool> {
    if !notes.dom().contains(name_encoding_key()) {
        Some(false)
    } else if notes[name_encoding_key()] == name_encoding_version() {
        Some(true)
    } else {
        None
    }
}

/// Whether entries hold exactly the tensors of a container under the names that were written.
pub open spec fn decoded_as(
    entries: Seq<(Seq<char>, StoredTensor)>,
    tensors: Map<Seq<char>, TensorModel>,
    encoded: bool,
) -> bool {
    forall|name: Seq<char>|
        match #[trigger] value_of(entries, name) {
            Some(tensor) => tensors.dom().contains(written_name(encoded, name)) && tensors[written_name(encoded, name)]
                == tensor@,
            None => !tensors.dom().contains(written_name(encoded, name)),
        }
}

/// Whether a container holds a name that was not written behind the letter.
pub open spec fn holds_unencoded(tensors: Map<Seq<char>, TensorModel>) -> bool {
    exists|name: Seq<char>| #[trigger] tensors.dom().contains(name) && (name.len() == 0 || name[0] != 'p')
}

/// The tensors of a container under their names. A container without the note on names keeps them
/// as they are.
pub fn decode_tensors(bytes: &[u8]) -> (result: Result<OrderedMap<StoredTensor>, String>)
    ensures
        !lengths_fit(bytes@) ==> result is Err && result->Err_0@ == "incomplete metadata, file not fully covered"@,
        lengths_fit(bytes@) ==> match (container_notes(bytes@), container_tensors(bytes@)) {
            (Some(notes), Some(tensors)) => match encoding_of(notes) {
                None => result matches Err(message) && message@ == "unsupported tensor-name encoding:"@
                    + notes[name_encoding_key()],
                Some(encoded) => if exists|name: Seq<char>| #[trigger]
                    tensors.dom().contains(name) && encoded && (name.len() == 0 || name[0] != 'p') {
                    result matches Err(message) && exists|name: Seq<char>| #[trigger]
                        tensors.dom().contains(name) && (name.len() == 0 || name[0] != 'p') && message@
                            == "invalid encoded tensor name:"@ + name
                } else {
                    result matches Ok(map) && decoded_as(map@, tensors, encoded)
                },
            },
            _ => result is Err,
        },
        lengths_fit(bytes@) ==> match (container_notes(bytes@), container_tensors(bytes@)) {
            (Some(notes), Some(tensors)) => match encoding_of(notes) {
                None => true,
                Some(encoded) => (result is Err <==> encoded && holds_unencoded(tensors)) && (result is Ok ==> decoded_as(
                    result->Ok_0@,
                    tensors,
                    encoded,
                )),
            },
            _ => true,
        },
{
    if !check_lengths(bytes) {
        return Err(lengths_message());
    }
    let note = match read_note(bytes, "core.candle_policy.tensor_names") {
        Ok(note) => note,
        Err(error) => return Err(error),
    };
    let list = match read_tensors(bytes) {
        Ok(list) => list,
        Err(error) => return Err(error),
    };
    let encoded = match note {
        None => false,
        Some(version) => {
            if !same_text(version.as_str(), "prefix-p-v1") {
                let mut message = to_chars("unsupported tensor-name encoding:");
                append_chars(&mut message, to_chars(version.as_str()).as_slice());
                return Err(from_chars(message.as_slice()));
            }
            true
        },
    };
    let ghost tensors = container_tensors(bytes@)->Some_0;
    let ghost all = list@;
    let mut rest = list;
    let mut decoded: OrderedMap<StoredTensor> = OrderedMap::new();
    let ghost mut done: int = all.len() as int;
    while rest.len() > 0
        invariant
            lengths_fit(bytes@),
            0 <= done <= all.len(),
            rest@ == all.take(done),
            lists_all(all, tensors),
            container_notes(bytes@) is Some,
            container_tensors(bytes@) == Some(tensors),
            encoding_of(container_notes(bytes@)->Some_0) == Some(encoded),
            forall|i: int| done <= i < all.len() && encoded ==> (#[trigger] all[i]).0@.len() > 0 && all[i].0@[0] == 'p',
            forall|name: Seq<char>|
                match #[trigger] value_of(decoded@, name) {
                    Some(tensor) => exists|i: int|
                        done <= i < all.len() && (#[trigger] all[i]).0@ == written_name(encoded, name) && all[i].1@
                            == tensor@,
                    None => forall|i: int|
                        done <= i < all.len() ==> (#[trigger] all[i]).0@ != written_name(encoded, name),
                },
        decreases done,
    {
        let (written, tensor) = rest.pop().unwrap();
        let ghost place = done - 1;
        proof {
            assert(all.take(done).last() == all[place]);
            assert(all.take(done).drop_last() =~= all.take(place));
        }
        match decode_name(written.as_str(), encoded) {
            Some(name) => {
                let ghost before = decoded@;
                let ghost text = name@;
                decoded.insert(name, tensor);
                proof {
                    assert forall|other: Seq<char>|
                        match #[trigger] value_of(decoded@, other) {
                            Some(held) => exists|i: int|
                                place <= i < all.len() && (#[trigger] all[i]).0@ == written_name(encoded, other)
                                    && all[i].1@ == held@,
                            None => forall|i: int|
                                place <= i < all.len() ==> (#[trigger] all[i]).0@ != written_name(encoded, other),
                        } by {
                        if other == text {
                            read_after_write(before, text, tensor);
                            assert(all[place].0@ == written_name(encoded, other));
                        } else {
                            write_keeps_others(before, text, tensor, other);
                            if written_name(encoded, other) == written_name(encoded, text) {
                                written_names_differ(encoded, other, text);
                            }
                            match value_of(before, other) {
                                Some(held) => {
                                    let i = choose|i: int|
                                        done <= i < all.len() && (#[trigger] all[i]).0@ == written_name(encoded, other)
                                            && all[i].1@ == held@;
                                    assert(all[i].1@ == held@);
                                },
                                None => {},
                            }
                        }
                    }
                }
            },
            None => {
                let mut message = to_chars("invalid encoded tensor name:");
                append_chars(&mut message, to_chars(written.as_str()).as_slice());
                proof {
                    assert(tensors.dom().contains(all[place].0@));
                }
                return Err(from_chars(message.as_slice()));
            },
        }
        proof {
            done = place;
        }
    }
    proof {
        assert(done == 0);
        assert forall|name: Seq<char>| #[trigger] tensors.dom().contains(name) && encoded implies name.len() > 0
            && name[0] == 'p' by {
            let i = choose|i: int| 0 <= i < all.len() && (#[trigger] all[i]).0@ == name;
            assert(all[i].0@ == name);
        }
        assert forall|name: Seq<char>|
            match #[trigger] value_of(decoded@, name) {
                Some(tensor) => tensors.dom().contains(written_name(encoded, name)) && tensors[written_name(
                    encoded,
                    name,
                )] == tensor@,
                None => !tensors.dom().contains(written_name(encoded, name)),
            } by {
            match value_of(decoded@, name) {
                Some(tensor) => {
                    let i = choose|i: int|
                        0 <= i < all.len() && (#[trigger] all[i]).0@ == written_name(encoded, name) && all[i].1@
                            == tensor@;
                    assert(tensors.dom().contains(all[i].0@));
                },
                None => {
                    if tensors.dom().contains(written_name(encoded, name)) {
                        let i = choose|i: int| 0 <= i < all.len() && (#[trigger] all[i]).0@ == written_name(encoded, name);
                        assert(all[i].0@ != written_name(encoded, name));
                    }
                },
            }
        }
    }
    Ok(decoded)
}

/// The letters in the header of a new container: of the names behind their letter, and of the notes.
pub open spec fn header_letters(tensors: Seq<(String, StoredTensor)>, layout: Seq<char>) -> nat {
    name_letters(tensors, true) + name_encoding_key().len() + name_encoding_version().len()
        + "core.candle_policy.layout"@.len() + layout.len()
}

/// A new container: the tensors behind encoded names, the note on names and the note on the layout.
/// It fails where a tensor does not fill its shape, and where the header is too long.
pub fn encode_tensors(tensors: Vec<(String, StoredTensor)>, layout: &str) -> (result: Result<Vec<u8>, String>)
    requires
        forall|i: int, j: int| 0 <= i < j < tensors@.len() ==> (#[trigger] tensors@[i]).0@ != (#[trigger] tensors@[j]).0@,
    ensures
        !all_fill(tensors@) ==> result is Err,
        header_letters(tensors@, layout@) > header_limit() ==> result is Err,
        all_fill(tensors@) && largest_header(
            header_letters(tensors@, layout@),
            tensors@.len(),
            extents(tensors@),
            2,
        ) <= header_limit() ==> result is Ok,
        result matches Ok(bytes) ==> lengths_fit(bytes@),
        result matches Ok(bytes) ==> container_notes(bytes@) is Some && holds_notes(
            container_notes(bytes@)->Some_0,
            layout@,
        ),
        result matches Ok(bytes) ==> container_tensors(bytes@) is Some && holds_written(
            tensors@,
            container_tensors(bytes@)->Some_0,
        ),
{
    let ghost all = tensors@;
    let mut rest = tensors;
    let mut list: Vec<(String, StoredTensor)> = Vec::new();
    while rest.len() > 0
        invariant
            all == tensors@,
            rest@.len() + list@.len() == all.len(),
            rest@ == all.take(rest@.len() as int),
            forall|i: int, j: int| 0 <= i < j < all.len() ==> (#[trigger] all[i]).0@ != (#[trigger] all[j]).0@,
            forall|k: int|
                0 <= k < list@.len() ==> (#[trigger] list@[k]).0@ == written_name(true, all[all.len() - 1 - k].0@)
                    && list@[k].1@ == all[all.len() - 1 - k].1@,
            all_fill(list@),
            name_letters(list@, false) + name_letters(rest@, true) == name_letters(all, true),
            extents(list@) + extents(rest@) == extents(all),
        decreases rest@.len(),
    {
        let ghost place = rest@.len() - 1;
        let (name, tensor) = rest.pop().unwrap();
        proof {
            assert(rest@ =~= all.take(place));
            assert(all.take(place + 1).last() == all[place]);
            assert(all.take(place + 1).drop_last() =~= all.take(place));
        }
        match check_size(&tensor) {
            Ok(_) => {},
            Err(error) => {
                assert(!fills_shape(all[place].1@));
                return Err(error);
            },
        }
        let ghost before = list@;
        list.push((encode_name(name.as_str()), tensor));
        assert(list@.drop_last() =~= before);
    }
    proof {
        assert forall|i: int, j: int| 0 <= i < j < list@.len() implies (#[trigger] list@[i]).0@ != (#[trigger] list@[
            j]).0@ by {
            let a = all[all.len() - 1 - i].0@;
            let b = all[all.len() - 1 - j].0@;
            assert(b != a);
            if written_name(true, a) == written_name(true, b) {
                written_names_differ(true, a, b);
            }
        }
        assert forall|k: int| 0 <= k < list@.len() implies (#[trigger] list@[k]).0@.len() > 0 && list@[k].0@[0] == 'p' by {
            assert(list@[k].0@ == written_name(true, all[all.len() - 1 - k].0@));
        }
    }
    let mut notes: Vec<(String, String)> = Vec::new();
    notes.push(("core.candle_policy.tensor_names".to_owned(), "prefix-p-v1".to_owned()));
    notes.push((layout_key().to_owned(), layout.to_owned()));
    proof {
        reveal_strlit("core.candle_policy.tensor_names");
        reveal_strlit("core.candle_policy.layout");
        assert("core.candle_policy.tensor_names"@.len() != "core.candle_policy.layout"@.len());
        reveal_with_fuel(note_letters, 3);
        assert(notes@.drop_last().drop_last() =~= Seq::<(String, String)>::empty());
        assert forall|k: int| 0 <= k < all.len() implies fills_shape((#[trigger] all[k]).1@) by {
            assert(fills_shape(list@[all.len() - 1 - k].1@));
        }
    }
    let result = write_tensors(&list, &notes);
    proof {
        if result is Ok {
            let bytes = result->Ok_0;
            let found = container_tensors(bytes@)->Some_0;
            let said = container_notes(bytes@)->Some_0;
            assert(said.dom().contains(notes@[0].0@));
            assert(said.dom().contains(notes@[1].0@));
            assert forall|k: int| 0 <= k < all.len() implies found.dom().contains(
                written_name(true, (#[trigger] all[k]).0@),
            ) && found[written_name(true, all[k].0@)] == all[k].1@ by {
                let there = all.len() - 1 - k;
                assert(list@[there].0@ == written_name(true, all[k].0@));
            }
            assert forall|name: Seq<char>| #[trigger] found.dom().contains(name) implies exists|k: int|
                0 <= k < all.len() && name == written_name(true, (#[trigger] all[k]).0@) by {
                let i = choose|i: int| 0 <= i < list@.len() && (#[trigger] list@[i]).0@ == name;
                assert(list@[i].0@ == written_name(true, all[all.len() - 1 - i].0@));
            }
        }
    }
    result
}

/// Whether the notes of a container are those of a new one: names behind a letter, and a layout.
pub open spec fn holds_notes(notes: Map<Seq<char>, Seq<char>>, layout: Seq<char>) -> bool {
    encoding_of(notes) == Some(true) && notes.dom().contains("core.candle_policy.layout"@)
        && notes["core.candle_policy.layout"@] == layout
}

/// Whether a container holds exactly some tensors behind encoded names.
pub open spec fn holds_written(tensors: Seq<(String, StoredTensor)>, found: Map<Seq<char>, TensorModel>) -> bool {
    &&& forall|k: int|
        0 <= k < tensors.len() ==> found.dom().contains(written_name(true, (#[trigger] tensors[k]).0@))
            && found[written_name(true, tensors[k].0@)] == tensors[k].1@
    &&& forall|name: Seq<char>| #[trigger]
        found.dom().contains(name) ==> exists|k: int|
            0 <= k < tensors.len() && name == written_name(true, (#[trigger] tensors[k]).0@)
}

/// Tensors that were written are read back: decoding the container that [`encode_tensors`] made
/// gives every tensor under its name, and no other.
pub proof fn written_tensors_are_read_back(
    tensors: Seq<(String, StoredTensor)>,
    found: Map<Seq<char>, TensorModel>,
    decoded: Seq<(Seq<char>, StoredTensor)>,
)
    requires
        holds_written(tensors, found),
        decoded_as(decoded, found, true),
    ensures
        forall|name: Seq<char>| #[trigger] found.dom().contains(name) ==> name.len() > 0 && name[0] == 'p',
        forall|k: int|
            0 <= k < tensors.len() ==> value_of(decoded, (#[trigger] tensors[k]).0@) is Some && value_of(
                decoded,
                tensors[k].0@,
            )->Some_0@ == tensors[k].1@,
        forall|name: Seq<char>| #[trigger]
            value_of(decoded, name) is Some ==> exists|k: int| 0 <= k < tensors.len() && (#[trigger] tensors[k]).0@ == name,
{
    assert forall|name: Seq<char>| #[trigger] found.dom().contains(name) implies name.len() > 0 && name[0] == 'p' by {
        let k = choose|k: int| 0 <= k < tensors.len() && name == written_name(true, (#[trigger] tensors[k]).0@);
        assert(name == seq!['p'] + tensors[k].0@);
    }
    assert forall|name: Seq<char>| #[trigger] value_of(decoded, name) is Some implies exists|k: int|
        0 <= k < tensors.len() && (#[trigger] tensors[k]).0@ == name by {
        let written = written_name(true, name);
        assert(found.dom().contains(written));
        let k = choose|k: int| 0 <= k < tensors.len() && written == written_name(true, (#[trigger] tensors[k]).0@);
        written_names_differ(true, name, tensors[k].0@);
        assert(tensors[k].0@ == name);
    }
}

// ---- layouts ----------------------------------------------------------------------------------

/// A snapshot of a policy: an encoded container, and what its owner keeps beside it.
#[derive(Debug)]
pub struct CandlePolicySnapshot<M> {
    pub tensors: Vec<u8>,
    pub metadata: M,
}

/// The order of the tensors of a policy. Each name goes with the place of the tensor that it
/// stands for: its own place, or that of an earlier name that it shares the tensor with.
#[derive(Debug)]
pub struct CandlePolicyLayout {
    pub version: u32,
    pub entries: Vec<(String, usize)>,
}

/// What a layout holds.
pub type LayoutModel = (u32, Seq<(Seq<char>, usize)>);

impl View for CandlePolicyLayout {
    type V = LayoutModel;

    open spec fn view(&self) -> LayoutModel {
        (self.version, Seq::new(self.entries@.len(), |i: int| (self.entries@[i].0@, self.entries@[i].1)))
    }
}

/// The key of the note on the layout.
pub fn layout_key() -> (result: &'static str)
    ensures
        result@ == "core.candle_policy.layout"@,
{
    "core.candle_policy.layout"
}

/// The note on the layout in a container, if there is one.
pub fn stored_layout_text(bytes: &[u8]) -> (result: Result<Option<String>, String>)
    ensures
        !lengths_fit(bytes@) ==> result is Err && result->Err_0@ == "incomplete metadata, file not fully covered"@,
        lengths_fit(bytes@) ==> match container_notes(bytes@) {
            None => result is Err,
            Some(notes) => if notes.dom().contains("core.candle_policy.layout"@) {
                result matches Ok(Some(text)) && text@ == notes["core.candle_policy.layout"@]
            } else {
                result == Ok::<Option<String>, String>(None)
            },
        },
{
    if !check_lengths(bytes) {
        return Err(lengths_message());
    }
    read_note(bytes, "core.candle_policy.layout")
}

impl CandlePolicyLayout {
    pub fn same(&self, other: &CandlePolicyLayout) -> (result: bool)
        ensures
            result == (self@ == other@),
    {
        if self.version != other.version || self.entries.len() != other.entries.len() {
            assert(self@.0 != other@.0 || self@.1.len() != other@.1.len());
            return false;
        }
        let mut i: usize = 0;
        while i < self.entries.len()
            invariant
                i <= self.entries@.len(),
                self.version == other.version,
                self.entries@.len() == other.entries@.len(),
                forall|j: int| 0 <= j < i ==> (#[trigger] self@.1[j]) == other@.1[j],
            decreases self.entries@.len() - i,
        {
            if self.entries[i].1 != other.entries[i].1 || !same_text(
                self.entries[i].0.as_str(),
                other.entries[i].0.as_str(),
            ) {
                assert(self@.1[i as int] != other@.1[i as int]);
                return false;
            }
            i += 1;
        }
        assert(self@.1 =~= other@.1);
        true
    }
}

/// The first place at which an identity occurs.
pub open spec fn first_place(ids: Seq<u64>, id: u64) -> int
    decreases ids.len(),
{
    if ids.len() == 0 {
        0
    } else if ids[0] == id {
        0
    } else {
        1 + first_place(ids.drop_first(), id)
    }
}

/// The places that tensors stand for: that of the first with the same identity.
pub open spec fn shared_places(ids: Seq<u64>) -> Seq<usize> {
    Seq::new(ids.len(), |i: int| first_place(ids, ids[i]) as usize)
}

proof fn first_place_is(ids: Seq<u64>, id: u64, place: int)
    requires
        0 <= place < ids.len(),
        ids[place] == id,
        forall|j: int| 0 <= j < place ==> ids[j] != id,
    ensures
        first_place(ids, id) == place,
    decreases ids.len(),
{
    if place > 0 {
        assert(ids[0] != id);
        first_place_is(ids.drop_first(), id, place - 1);
    }
}

/// The places that tensors stand for.
pub fn share_places(ids: &Vec<u64>) -> (result: Vec<usize>)
    ensures
        result@ == shared_places(ids@),
{
    let mut places: Vec<usize> = Vec::new();
    let mut i: usize = 0;
    while i < ids.len()
        invariant
            i <= ids@.len(),
            places@ == shared_places(ids@).take(i as int),
        decreases ids@.len() - i,
    {
        let mut place: usize = 0;
        while ids[place] != ids[i]
            invariant
                place <= i < ids@.len(),
                forall|j: int| 0 <= j < place ==> ids@[j] != ids@[i as int],
            decreases i - place,
        {
            place += 1;
        }
        proof {
            first_place_is(ids@, ids@[i as int], place as int);
        }
        places.push(place);
        i += 1;
        assert(places@ =~= shared_places(ids@).take(i as int));
    }
    assert(places@ =~= shared_places(ids@));
    places
}

/// The layout of named tensors with given identities.
pub fn layout_of(names: &Vec<String>, ids: &Vec<u64>) -> (result: CandlePolicyLayout)
    requires
        names@.len() == ids@.len(),
    ensures
        result.version == 1,
        result@.1 == Seq::new(names@.len(), |i: int| (names@[i]@, shared_places(ids@)[i])),
{
    let places = share_places(ids);
    let mut entries: Vec<(String, usize)> = Vec::new();
    let mut i: usize = 0;
    while i < names.len()
        invariant
            i <= names@.len(),
            names@.len() == ids@.len(),
            places@ == shared_places(ids@),
            entries@.len() == i,
            forall|j: int|
                0 <= j < i ==> (#[trigger] entries@[j]).0@ == names@[j]@ && entries@[j].1 == shared_places(ids@)[j],
        decreases names@.len() - i,
    {
        entries.push((names[i].clone(), places[i]));
        i += 1;
    }
    let layout = CandlePolicyLayout { version: 1, entries };
    assert(layout@.1 =~= Seq::new(names@.len(), |i: int| (names@[i]@, shared_places(ids@)[i])));
    layout
}

/// The layout of a snapshot: the stored one, or one that its maker supplies for a snapshot without.
/// Where there are both they must agree. The stored one is what reading its note gave.
pub fn read_layout<'a>(
    stored: Option<Result<CandlePolicyLayout, String>>,
    legacy: Option<&'a CandlePolicyLayout>,
) -> (result: Result<CandlePolicyLayout, String>)
    ensures
        match stored {
            Some(Err(error)) => result == Err::<CandlePolicyLayout, String>(error),
            Some(Ok(layout)) => if legacy is Some && legacy->Some_0@ != layout@ {
                result matches Err(message) && message@ == "explicit policy layout conflicts with stored layout"@
            } else {
                result == Ok::<CandlePolicyLayout, String>(layout)
            },
            None => match legacy {
                Some(layout) => result matches Ok(copy) && copy@ == layout@,
                None => result matches Err(message) && message@
                    == "missing policy layout: supply the original layout for this older snapshot"@,
            },
        },
{
    match stored {
        Some(Err(error)) => Err(error),
        Some(Ok(layout)) => {
            if let Some(given) = legacy {
                if !given.same(&layout) {
                    return Err("explicit policy layout conflicts with stored layout".to_owned());
                }
            }
            Ok(layout)
        },
        None => match legacy {
            Some(given) => {
                let mut entries: Vec<(String, usize)> = Vec::new();
                let mut i: usize = 0;
                while i < given.entries.len()
                    invariant
                        i <= given.entries@.len(),
                        entries@.len() == i,
                        forall|j: int|
                            0 <= j < i ==> (#[trigger] entries@[j]).0@ == given.entries@[j].0@ && entries@[j].1
                                == given.entries@[j].1,
                    decreases given.entries@.len() - i,
                {
                    entries.push((given.entries[i].0.clone(), given.entries[i].1));
                    i += 1;
                }
                let layout = CandlePolicyLayout { version: given.version, entries };
                assert(layout@.1 =~= given@.1);
                Ok(layout)
            },
            None => Err("missing policy layout: supply the original layout for this older snapshot".to_owned()),
        },
    }
}

/// Whether two stored tensors are the same, bit for bit.
pub open spec fn same_tensor(left: StoredTensor, right: StoredTensor) -> bool {
    left@ == right@
}

/// Why an entry of a layout does not fit the tensors.
pub open spec fn entry_failure(
    layout: Seq<(Seq<char>, usize)>,
    tensors: Seq<(Seq<char>, StoredTensor)>,
    place: int,
) -> Option<Seq<char>> {
    let name = layout[place].0;
    let source = layout[place].1;
    if exists|j: int| 0 <= j < place && (#[trigger] layout[j]).0 == name {
        Some("duplicate policy layout name:"@ + name)
    } else if !has_name(tensors, name) {
        Some("missing policy layout tensor:"@ + name)
    } else if source > place {
        Some("forward policy alias:"@ + name + ":"@ + decimal_digits(source as nat))
    } else if source < place && value_of(tensors, name)->Some_0@ != value_of(tensors, layout[source as int].0)->Some_0@ {
        Some("inconsistent policy alias:"@ + name)
    } else {
        None
    }
}

/// Why a layout does not fit the tensors, from a place on.
pub open spec fn layout_failure_from(
    layout: Seq<(Seq<char>, usize)>,
    tensors: Seq<(Seq<char>, StoredTensor)>,
    place: int,
) -> Option<Seq<char>>
    decreases layout.len() - place,
{
    if place < 0 || place >= layout.len() {
        None
    } else {
        match entry_failure(layout, tensors, place) {
            Some(message) => Some(message),
            None => layout_failure_from(layout, tensors, place + 1),
        }
    }
}

/// Why a layout does not fit the tensors.
pub open spec fn layout_failure(layout: LayoutModel, tensors: Seq<(Seq<char>, StoredTensor)>) -> Option<Seq<char>> {
    if layout.0 != 1 {
        Some("unsupported policy layout version:"@ + decimal_digits(layout.0 as nat))
    } else if layout.1.len() != tensors.len() {
        Some("policy layout does not cover all tensors"@)
    } else {
        layout_failure_from(layout.1, tensors, 0)
    }
}

fn named_message(start: &str, name: &str) -> (result: String)
    ensures
        result@ == start@ + name@,
{
    let mut message = to_chars(start);
    append_chars(&mut message, to_chars(name).as_slice());
    from_chars(message.as_slice())
}

fn same_bytes(left: &Vec<u8>, right: &Vec<u8>) -> (result: bool)
    ensures
        result == (left@ == right@),
{
    if left.len() != right.len() {
        return false;
    }
    let mut i: usize = 0;
    while i < left.len()
        invariant
            i <= left@.len(),
            left@.len() == right@.len(),
            forall|j: int| 0 <= j < i ==> left@[j] == right@[j],
        decreases left@.len() - i,
    {
        if left[i] != right[i] {
            return false;
        }
        i += 1;
    }
    assert(left@ =~= right@);
    true
}

fn same_shape(left: &Vec<usize>, right: &Vec<usize>) -> (result: bool)
    ensures
        result == (left@ == right@),
{
    if left.len() != right.len() {
        return false;
    }
    let mut i: usize = 0;
    while i < left.len()
        invariant
            i <= left@.len(),
            left@.len() == right@.len(),
            forall|j: int| 0 <= j < i ==> left@[j] == right@[j],
        decreases left@.len() - i,
    {
        if left[i] != right[i] {
            return false;
        }
        i += 1;
    }
    assert(left@ =~= right@);
    true
}

/// Whether two stored tensors are the same, bit for bit.
fn same_stored(left: &StoredTensor, right: &StoredTensor) -> (result: bool)
    ensures
        result == same_tensor(*left, *right),
{
    same_text(left.dtype.as_str(), right.dtype.as_str()) && same_shape(&left.shape, &right.shape) && same_bytes(
        &left.data,
        &right.data,
    )
}

fn repeats(entries: &Vec<(String, usize)>, place: usize) -> (result: bool)
    requires
        place < entries@.len(),
    ensures
        result == exists|j: int| 0 <= j < place && (#[trigger] entries@[j]).0@ == entries@[place as int].0@,
{
    let mut j: usize = 0;
    while j < place
        invariant
            j <= place < entries@.len(),
            forall|k: int| 0 <= k < j ==> (#[trigger] entries@[k]).0@ != entries@[place as int].0@,
        decreases place - j,
    {
        if same_text(entries[j].0.as_str(), entries[place].0.as_str()) {
            assert(entries@[j as int].0@ == entries@[place as int].0@);
            return true;
        }
        j += 1;
    }
    false
}

/// Holds a layout against the tensors of a snapshot: every tensor is named once, and a shared
/// tensor is named behind one that is the same.
pub fn validate_layout(tensors: &OrderedMap<StoredTensor>, layout: &CandlePolicyLayout) -> (result: Result<(), String>)
    ensures
        match layout_failure(layout@, tensors@) {
            Some(message) => result matches Err(said) && said@ == message,
            None => result is Ok,
        },
{
    if layout.version != 1 {
        let digits = from_chars(decimal_chars(layout.version as usize).as_slice());
        return Err(named_message("unsupported policy layout version:", digits.as_str()));
    }
    if layout.entries.len() != tensors.len() {
        return Err("policy layout does not cover all tensors".to_owned());
    }
    let ghost entries = layout@.1;
    let mut place: usize = 0;
    while place < layout.entries.len()
        invariant
            place <= layout.entries@.len(),
            entries == layout@.1,
            layout_failure_from(entries, tensors@, 0) == layout_failure_from(entries, tensors@, place as int),
            layout_failure(layout@, tensors@) == layout_failure_from(entries, tensors@, 0),
            forall|j: int| 0 <= j < place ==> has_name(tensors@, (#[trigger] entries[j]).0),
        decreases layout.entries@.len() - place,
    {
        let name = layout.entries[place].0.as_str();
        let source: usize = layout.entries[place].1;
        proof {
            assert(entries[place as int] == (name@, source));
            let clash = exists|j: int| 0 <= j < place && (#[trigger] entries[j]).0 == name@;
            let found = exists|j: int| 0 <= j < place && (#[trigger] layout.entries@[j]).0@ == name@;
            assert(clash == found) by {
                if found {
                    let j = choose|j: int| 0 <= j < place && (#[trigger] layout.entries@[j]).0@ == name@;
                    assert(entries[j].0 == name@);
                }
                if clash {
                    let j = choose|j: int| 0 <= j < place && (#[trigger] entries[j]).0 == name@;
                    assert(layout.entries@[j].0@ == name@);
                }
            }
        }
        if repeats(&layout.entries, place) {
            return Err(named_message("duplicate policy layout name:", name));
        }
        match tensors.get(name) {
            None => return Err(named_message("missing policy layout tensor:", name)),
            Some(view) => {
                if source > place {
                    let mut message = to_chars("forward policy alias:");
                    append_chars(&mut message, to_chars(name).as_slice());
                    append_chars(&mut message, to_chars(":").as_slice());
                    append_chars(&mut message, decimal_chars(source).as_slice());
                    return Err(from_chars(message.as_slice()));
                }
                if source < place {
                    assert(has_name(tensors@, entries[source as int].0));
                    match tensors.get(layout.entries[source].0.as_str()) {
                        Some(shared) => {
                            if !same_stored(view, shared) {
                                return Err(named_message("inconsistent policy alias:", name));
                            }
                        },
                        None => {},
                    }
                }
            },
        }
        place += 1;
    }
    Ok(())
}

/// Where each weight of a layout comes from: a tensor of its own is loaded, a shared one is that of
/// an earlier place.
pub fn weight_sources(layout: &CandlePolicyLayout) -> (result: Vec<Option<usize>>)
    ensures
        result@ == Seq::new(
            layout.entries@.len(),
            |i: int|
                if layout.entries@[i].1 == i {
                    None
                } else {
                    Some(layout.entries@[i].1)
                },
        ),
{
    let mut sources: Vec<Option<usize>> = Vec::new();
    let mut i: usize = 0;
    while i < layout.entries.len()
        invariant
            i <= layout.entries@.len(),
            sources@ == Seq::new(
                i as nat,
                |i: int|
                    if layout.entries@[i].1 == i {
                        None
                    } else {
                        Some(layout.entries@[i].1)
                    },
            ),
        decreases layout.entries@.len() - i,
    {
        let ghost before = sources@;
        let source: usize = layout.entries[i].1;
        let shared: Option<usize> = if source == i {
            None
        } else {
            Some(source)
        };
        sources.push(shared);
        i += 1;
        assert(sources@ =~= Seq::new(
            i as nat,
            |i: int|
                if layout.entries@[i].1 == i {
                    None
                } else {
                    Some(layout.entries@[i].1)
                },
        ));
    }
    sources
}

// ---- values ----------------------------------------------------------------------------------

/// A byte as a signed number.
pub open spec fn signed_byte(byte: u8) -> int {
    if byte < 128 {
        byte as int
    } else {
        byte - 256
    }
}

/// Two bytes as a signed number, the lower byte first.
pub open spec fn signed_pair(low: u8, high: u8) -> int {
    low + 256 * signed_byte(high)
}

/// Truth values as zeros and ones: every byte but zero is one.
pub fn widen_truths(data: &Vec<u8>) -> (result: Vec<u8>)
    ensures
        result@ == Seq::new(
            data@.len(),
            |i: int|
                if data@[i] != 0 {
                    1u8
                } else {
                    0u8
                },
        ),
{
    let mut values: Vec<u8> = Vec::new();
    let mut i: usize = 0;
    while i < data.len()
        invariant
            i <= data@.len(),
            values@ == Seq::new(
                i as nat,
                |i: int|
                    if data@[i] != 0 {
                        1u8
                    } else {
                        0u8
                    },
            ),
        decreases data@.len() - i,
    {
        let value: u8 = if data[i] != 0 {
            1
        } else {
            0
        };
        values.push(value);
        i += 1;
        assert(values@ =~= Seq::new(
            i as nat,
            |i: int|
                if data@[i] != 0 {
                    1u8
                } else {
                    0u8
                },
        ));
    }
    values
}

fn widen_byte(byte: u8) -> (result: i64)
    ensures
        result == signed_byte(byte),
{
    if byte < 128 {
        byte as i64
    } else {
        byte as i64 - 256
    }
}

/// Bytes as signed numbers.
pub fn widen_bytes(data: &Vec<u8>) -> (result: Vec<i64>)
    ensures
        result@.len() == data@.len(),
        forall|i: int| 0 <= i < data@.len() ==> #[trigger] result@[i] == signed_byte(data@[i]),
{
    let mut values: Vec<i64> = Vec::new();
    let mut i: usize = 0;
    while i < data.len()
        invariant
            i <= data@.len(),
            values@.len() == i,
            forall|j: int| 0 <= j < i ==> #[trigger] values@[j] == signed_byte(data@[j]),
        decreases data@.len() - i,
    {
        values.push(widen_byte(data[i]));
        i += 1;
    }
    values
}

/// Pairs of bytes as signed numbers. A byte without a pair at the end is left out.
pub fn widen_pairs(data: &Vec<u8>) -> (result: Vec<i64>)
    ensures
        result@.len() == data@.len() / 2,
        forall|i: int| 0 <= i < result@.len() ==> #[trigger] result@[i] == signed_pair(data@[2 * i], data@[2 * i + 1]),
{
    let mut values: Vec<i64> = Vec::new();
    let length: usize = data.len();
    let count: usize = length / 2;
    let mut i: usize = 0;
    while i < count
        invariant
            i <= count,
            length == data@.len(),
            count == length / 2,
            values@.len() == i,
            forall|j: int| 0 <= j < i ==> #[trigger] values@[j] == signed_pair(data@[2 * j], data@[2 * j + 1]),
        decreases count - i,
    {
        values.push(data[2 * i] as i64 + 256 * widen_byte(data[2 * i + 1]));
        i += 1;
    }
    values
}

// ---- restore ----------------------------------------------------------------------------------

/// What is done about a variable of a policy.
#[derive(Debug)]
pub enum ParameterStep {
    /// There is no tensor for it.
    Missing,
    /// A tensor is copied into it; only its first value if the variable is a single value and the
    /// tensor a list.
    Copy { first_value: bool },
    /// The restore ends here.
    Failed(PolicyWeightLoadError),
}

/// What is done about a variable of a rank, with the shape of the tensor of its name.
pub fn parameter_step(name: &str, rank: usize, source: Option<&Vec<usize>>) -> (result: ParameterStep)
    ensures
        match source {
            None => result is Missing,
            Some(shape) => if rank == 0 && shape@.len() == 1 && shape@[0] == 0 {
                result matches ParameterStep::Failed(PolicyWeightLoadError::Other(message)) && message@ == "index:"@
                    + name@ + ":index 0 is out of bounds for dimension 0 with size 0"@
            } else {
                result == (ParameterStep::Copy { first_value: rank == 0 && shape@.len() == 1 })
            },
        },
{
    match source {
        None => ParameterStep::Missing,
        Some(shape) => {
            let first_value = rank == 0 && shape.len() == 1;
            if first_value && shape[0] == 0 {
                let mut message = to_chars("index:");
                append_chars(&mut message, to_chars(name).as_slice());
                append_chars(
                    &mut message,
                    to_chars(":index 0 is out of bounds for dimension 0 with size 0").as_slice(),
                );
                return ParameterStep::Failed(PolicyWeightLoadError::Other(from_chars(message.as_slice())));
            }
            ParameterStep::Copy { first_value }
        },
    }
}

/// The failures of a restore under way, in order.
#[derive(Debug)]
pub struct RestoreErrors {
    pub errors: Vec<String>,
}

/// Texts with line feeds between them.
pub open spec fn lines(list: Seq<Seq<char>>) -> Seq<char>
    decreases list.len(),
{
    if list.len() == 0 {
        Seq::empty()
    } else if list.len() == 1 {
        list[0]
    } else {
        lines(list.drop_last()) + "\n"@ + list.last()
    }
}

/// Whether names are those of the tensors that no variable is named like, in order.
pub open spec fn unexpected_names(
    names: Seq<Seq<char>>,
    variables: Seq<Seq<char>>,
    tensors: Seq<Seq<char>>,
) -> bool {
    increasing(names) && forall|name: Seq<char>| #[trigger]
        names.contains(name) <==> tensors.contains(name) && !variables.contains(name)
}

/// The failures about names that no variable has.
pub open spec fn unexpected_messages(names: Seq<Seq<char>>) -> Seq<Seq<char>> {
    names.map_values(|name: Seq<char>| "unexpected:"@ + name)
}

fn holds_text(list: &Vec<String>, text: &str) -> (result: bool)
    ensures
        result == texts(list@).contains(text@),
{
    let mut i: usize = 0;
    while i < list.len()
        invariant
            i <= list@.len(),
            forall|j: int| 0 <= j < i ==> (#[trigger] texts(list@)[j]) != text@,
        decreases list@.len() - i,
    {
        if same_text(list[i].as_str(), text) {
            assert(texts(list@)[i as int] == text@);
            return true;
        }
        i += 1;
    }
    false
}

fn sort_unexpected(variables: &Vec<String>, tensors: &Vec<String>) -> (result: Vec<String>)
    ensures
        unexpected_names(texts(result@), texts(variables@), texts(tensors@)),
{
    let mut names: Vec<String> = Vec::new();
    let ghost all = texts(tensors@);
    let mut i: usize = 0;
    assert(texts(names@) =~= Seq::<Seq<char>>::empty());
    while i < tensors.len()
        invariant
            i <= tensors@.len(),
            all == texts(tensors@),
            increasing(texts(names@)),
            forall|name: Seq<char>| #[trigger]
                texts(names@).contains(name) <==> all.take(i as int).contains(name) && !texts(variables@).contains(name),
        decreases tensors@.len() - i,
    {
        let ghost before = texts(names@);
        let name = tensors[i].as_str();
        if !holds_text(variables, name) {
            insert_sorted(&mut names, name);
        }
        proof {
            assert forall|other: Seq<char>| #[trigger]
                texts(names@).contains(other) <==> all.take(i + 1).contains(other) && !texts(variables@).contains(other) by {
                let wider = all.take(i + 1);
                assert(wider =~= all.take(i as int).push(all[i as int]));
                assert(before.contains(other) <==> all.take(i as int).contains(other) && !texts(variables@).contains(
                    other,
                ));
                if all.take(i as int).contains(other) {
                    let k = choose|k: int| 0 <= k < i && all.take(i as int)[k] == other;
                    assert(wider[k] == other);
                }
                if other == name@ {
                    assert(wider[i as int] == other);
                }
                if wider.contains(other) {
                    let k = choose|k: int| 0 <= k < wider.len() && wider[k] == other;
                    if k < i {
                        assert(all.take(i as int)[k] == other);
                    }
                }
            }
        }
        i += 1;
    }
    assert(all.take(i as int) =~= all);
    names
}

fn join_lines(list: &Vec<String>) -> (result: String)
    ensures
        result@ == lines(texts(list@)),
{
    let mut text: Vec<char> = Vec::new();
    let ghost all = texts(list@);
    let mut i: usize = 0;
    assert(all.take(0) =~= Seq::<Seq<char>>::empty());
    while i < list.len()
        invariant
            i <= list@.len(),
            all == texts(list@),
            text@ == lines(all.take(i as int)),
        decreases list@.len() - i,
    {
        proof {
            assert(all.take(i + 1).drop_last() =~= all.take(i as int));
            assert(all.take(i + 1).last() == list@[i as int]@);
            assert(Seq::<char>::empty() + list@[i as int]@ =~= list@[i as int]@);
        }
        if i > 0 {
            append_chars(&mut text, to_chars("\n").as_slice());
        }
        append_chars(&mut text, to_chars(list[i].as_str()).as_slice());
        i += 1;
    }
    assert(all.take(i as int) =~= all);
    from_chars(text.as_slice())
}

impl RestoreErrors {
    /// What failed.
    pub open spec fn said(&self) -> Seq<Seq<char>> {
        texts(self.errors@)
    }

    pub fn new() -> (result: Self)
        ensures
            result.said() == Seq::<Seq<char>>::empty(),
    {
        let result = RestoreErrors { errors: Vec::new() };
        assert(result.said() =~= Seq::<Seq<char>>::empty());
        result
    }

    /// Notes a variable without a tensor.
    pub fn missing(&mut self, name: &str)
        ensures
            final(self).said() == old(self).said().push("missing:"@ + name@),
    {
        self.errors.push(named_message("missing:", name));
        assert(self.said() =~= old(self).said().push("missing:"@ + name@));
    }

    /// Notes a tensor that could not be copied.
    pub fn not_copied(&mut self, name: &str, message: &str)
        ensures
            final(self).said() == old(self).said().push("copy:"@ + name@ + ":"@ + message@),
    {
        let mut text = to_chars("copy:");
        append_chars(&mut text, to_chars(name).as_slice());
        append_chars(&mut text, to_chars(":").as_slice());
        append_chars(&mut text, to_chars(message).as_slice());
        self.errors.push(from_chars(text.as_slice()));
        assert(self.said() =~= old(self).said().push("copy:"@ + name@ + ":"@ + message@));
    }

    /// Ends a restore: tensors that no variable is named like are failures too, in the order of
    /// their names.
    pub fn finish(self, variables: &Vec<String>, tensors: &Vec<String>) -> (result: Result<(), PolicyWeightLoadError>)
        ensures
            exists|names: Seq<Seq<char>>| #[trigger]
                unexpected_names(names, texts(variables@), texts(tensors@)) && if self.said().len() + names.len() == 0 {
                    result is Ok
                } else {
                    result matches Err(PolicyWeightLoadError::Runtime(message)) && message@ == lines(
                        self.said() + unexpected_messages(names),
                    )
                },
    {
        let ghost before = self.said();
        let mut errors = self.errors;
        let names = sort_unexpected(variables, tensors);
        let ghost sorted = texts(names@);
        let ghost added = unexpected_messages(sorted);
        let mut i: usize = 0;
        assert(texts(errors@) =~= before + added.take(0));
        while i < names.len()
            invariant
                i <= names@.len(),
                sorted == texts(names@),
                added == unexpected_messages(sorted),
                texts(errors@) == before + added.take(i as int),
            decreases names@.len() - i,
        {
            let ghost so_far = texts(errors@);
            let message = named_message("unexpected:", names[i].as_str());
            let ghost text = message@;
            errors.push(message);
            proof {
                assert(texts(errors@) =~= so_far.push(text));
                assert(added[i as int] == text);
                assert(so_far.push(text) =~= before + added.take(i + 1));
            }
            i += 1;
        }
        assert(added.take(i as int) =~= added);
        assert(unexpected_names(sorted, texts(variables@), texts(tensors@)));
        if errors.len() == 0 {
            assert(texts(errors@).len() == 0);
            Ok(())
        } else {
            assert(texts(errors@).len() > 0);
            Err(PolicyWeightLoadError::Runtime(join_lines(&errors)))
        }
    }
}

// ---- laws -------------------------------------------------------------------------------------

/// A layout that was made of identities sends every name to an earlier place or its own, and names
/// with one identity to the same place.
pub proof fn made_layouts_look_back(ids: Seq<u64>, i: int, j: int)
    requires
        ids.len() <= usize::MAX,
        0 <= i < ids.len(),
        0 <= j < ids.len(),
    ensures
        shared_places(ids)[i] <= i,
        ids[shared_places(ids)[i] as int] == ids[i],
        shared_places(ids)[i] == shared_places(ids)[j] <==> ids[i] == ids[j],
{
    first_place_bounds(ids, ids[i], i);
    first_place_bounds(ids, ids[j], j);
}

proof fn first_place_bounds(ids: Seq<u64>, id: u64, place: int)
    requires
        0 <= place < ids.len(),
        ids[place] == id,
    ensures
        0 <= first_place(ids, id) <= place,
        ids[first_place(ids, id)] == id,
    decreases ids.len(),
{
    if ids[0] != id {
        first_place_bounds(ids.drop_first(), id, place - 1);
    }
}

/// What is written is read back: a container that was made of tensors and a layout gives back the layout
/// and the tensors, each under its own name and no others.
pub proof fn containers_give_back_what_was_written(
    tensors: Vec<(String, StoredTensor)>,
    layout: &str,
    written: Result<Vec<u8>, String>,
    bytes: &[u8],
    read: Result<OrderedMap<StoredTensor>, String>,
    text: Result<Option<String>, String>,
    place: int,
    name: Seq<char>,
)
    requires
        call_ensures(encode_tensors, (tensors, layout), written),
        written is Ok,
        bytes@ == written->Ok_0@,
        call_ensures(decode_tensors, (bytes,), read),
        call_ensures(stored_layout_text, (bytes,), text),
        0 <= place < tensors@.len(),
    ensures
        read is Ok,
        value_of(read->Ok_0@, tensors@[place].0@) is Some,
        value_of(read->Ok_0@, tensors@[place].0@)->Some_0@ == tensors@[place].1@,
        (forall|k: int| 0 <= k < tensors@.len() ==> (#[trigger] tensors@[k]).0@ != name) ==> value_of(read->Ok_0@, name) is None,
        text matches Ok(Some(found)) && found@ == layout@,
{
    let found = container_tensors(bytes@)->Some_0;
    assert forall|written_as: Seq<char>| #[trigger] found.dom().contains(written_as) implies written_as.len() > 0
        && written_as[0] == 'p' by {
        let k = choose|k: int| 0 <= k < tensors@.len() && written_as == written_name(true, (#[trigger] tensors@[k]).0@);
        assert(written_as == seq!['p'] + tensors@[k].0@);
    }
    assert(!holds_unencoded(found));
    let decoded = read->Ok_0@;
    assert(decoded_as(decoded, found, true));
    written_tensors_are_read_back(tensors@, found, decoded);
    assert(tensors@[place].0@ == tensors@[place].0@);
}

/// A name is read back as it was given.
pub proof fn names_are_read_back(name: &str, written: String, text: &str, result: Option<String>)
    requires
        call_ensures(encode_name, (name,), written),
        text@ == written@,
        call_ensures(decode_name, (text, true), result),
    ensures
        result is Some && result->Some_0@ == name@,
{
    assert((seq!['p'] + name@)[0] == 'p');
    if result is Some {
        written_names_differ(true, result->Some_0@, name@);
    }
}

/// Widened values are those of two's complement: they differ from what their bytes hold without a sign
/// by nothing or by the whole range of the bytes, and lie around zero.
pub proof fn widened_values_keep_their_bytes(
    data: Vec<u8>,
    truths: Vec<u8>,
    bytes: Vec<i64>,
    pairs: Vec<i64>,
    place: int,
)
    requires
        call_ensures(widen_truths, (&data,), truths),
        call_ensures(widen_bytes, (&data,), bytes),
        call_ensures(widen_pairs, (&data,), pairs),
    ensures
        truths@.len() == data@.len() && bytes@.len() == data@.len() && pairs@.len() == data@.len() / 2,
        0 <= place < data@.len() ==> truths@[place] <= 1 && (truths@[place] == 0 <==> data@[place] == 0),
        0 <= place < data@.len() ==> -128 <= bytes@[place] < 128 && (bytes@[place] == data@[place] || bytes@[place] + 256
            == data@[place]),
        0 <= place < pairs@.len() ==> -0x8000 <= pairs@[place] < 0x8000 && ({
            let whole = data@[2 * place] + 256 * data@[2 * place + 1];
            pairs@[place] == whole || pairs@[place] + 0x1_0000 == whole
        }),
{
}

} // verus!
