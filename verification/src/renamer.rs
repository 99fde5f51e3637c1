//! The new names of the files: the files in the order of their creation,
//! each named by its timestamp behind a running number.

use crate::FileMetadata;
use crate::FileMetadataView;
use crate::RenameOperation;
use crate::RenameOperationView;
use crate::failures::Failure;
use crate::metadata_views;
use crate::operation_views;
use crate::text::bytes_less;
use crate::text::extension;
use crate::text::extension_of;
use crate::text::lemma_bytes_less_asymmetric;
use crate::text::lemma_bytes_less_irreflexive;
use crate::text::lemma_bytes_less_total;
use crate::text::lemma_bytes_less_transitive;
use crate::text::lemma_encoding_is_injective;
use crate::text::str_eq;
use crate::text::str_less;
use crate::text::text_less;
use crate::text::zero_padded;
use crate::text::zero_padded_text;
use std::cmp::Ordering;
use vstd::prelude::*;
use vstd::string::StringExecFns;
use vstd::string::StringSliceAdditionalSpecFns;
use vstd::utf8::encode_utf8;

verus! {

/// The length of `name` in bytes.
pub open spec fn name_size(name: Seq<char>) -> nat {
    encode_utf8(name).len()
}

/// The order in which files are numbered: by timestamp; at the same
/// timestamp the shorter name first; at the same length by name.
pub open spec fn comes_before(a: FileMetadataView, b: FileMetadataView) -> bool {
    if a.creation_timestamp != b.creation_timestamp {
        text_less(a.creation_timestamp, b.creation_timestamp)
    } else if name_size(a.file_name) != name_size(b.file_name) {
        name_size(a.file_name) < name_size(b.file_name)
    } else {
        text_less(a.file_name, b.file_name)
    }
}

/// Whether `md1` is numbered before `md2`.
pub fn is_before(md1: &FileMetadata, md2: &FileMetadata) -> (r: bool)
    ensures
        r == comes_before(md1@, md2@),
{
    let ct1 = md1.creation_timestamp.as_str();
    let ct2 = md2.creation_timestamp.as_str();
    if !str_eq(ct1, ct2) {
        return str_less(ct1, ct2);
    }
    let l1: usize = md1.file_name.as_str().as_bytes().len();
    let l2: usize = md2.file_name.as_str().as_bytes().len();
    if l1 != l2 {
        return l1 < l2;
    }
    str_less(md1.file_name.as_str(), md2.file_name.as_str())
}

/// The order of two files with different names: `Less` where `md1` is
/// numbered before `md2`, else `Greater`.
pub fn compare_metadatas(md1: &FileMetadata, md2: &FileMetadata) -> (r: Ordering)
    requires
        md1@.file_name != md2@.file_name,
    ensures
        comes_before(md1@, md2@) ==> r == Ordering::Less,
        !comes_before(md1@, md2@) ==> r == Ordering::Greater && comes_before(md2@, md1@),
{
    proof {
        lemma_comes_before_total(md1@, md2@);
    }
    if is_before(md1, md2) {
        Ordering::Less
    } else {
        Ordering::Greater
    }
}

/// Of two files with different names one comes before the other.
pub proof fn lemma_comes_before_total(a: FileMetadataView, b: FileMetadataView)
    requires
        a.file_name != b.file_name,
    ensures
        comes_before(a, b) || comes_before(b, a),
{
    lemma_bytes_less_total(encode_utf8(a.creation_timestamp), encode_utf8(b.creation_timestamp));
    lemma_bytes_less_total(encode_utf8(a.file_name), encode_utf8(b.file_name));
    if encode_utf8(a.creation_timestamp) == encode_utf8(b.creation_timestamp) {
        lemma_encoding_is_injective(a.creation_timestamp, b.creation_timestamp);
    }
    if encode_utf8(a.file_name) == encode_utf8(b.file_name) {
        lemma_encoding_is_injective(a.file_name, b.file_name);
    }
}

/// A file that comes before another does not come after it.
pub proof fn lemma_comes_before_asymmetric(a: FileMetadataView, b: FileMetadataView)
    requires
        comes_before(a, b),
    ensures
        !comes_before(b, a),
{
    if a.creation_timestamp != b.creation_timestamp {
        lemma_bytes_less_asymmetric(
            encode_utf8(a.creation_timestamp),
            encode_utf8(b.creation_timestamp),
        );
    } else if name_size(a.file_name) == name_size(b.file_name) {
        lemma_bytes_less_asymmetric(encode_utf8(a.file_name), encode_utf8(b.file_name));
    }
}

/// The order of the files is transitive.
pub proof fn lemma_comes_before_transitive(
    a: FileMetadataView,
    b: FileMetadataView,
    c: FileMetadataView,
)
    requires
        comes_before(a, b),
        comes_before(b, c),
    ensures
        comes_before(a, c),
{
    let ta = encode_utf8(a.creation_timestamp);
    let tb = encode_utf8(b.creation_timestamp);
    let tc = encode_utf8(c.creation_timestamp);
    let na = encode_utf8(a.file_name);
    let nb = encode_utf8(b.file_name);
    let nc = encode_utf8(c.file_name);
    lemma_bytes_less_irreflexive(ta);
    lemma_bytes_less_irreflexive(na);
    if a.creation_timestamp != b.creation_timestamp && b.creation_timestamp
        != c.creation_timestamp {
        lemma_bytes_less_transitive(ta, tb, tc);
    } else if a.creation_timestamp == b.creation_timestamp && b.creation_timestamp
        == c.creation_timestamp {
        if name_size(a.file_name) == name_size(b.file_name) && name_size(b.file_name) == name_size(
            c.file_name,
        ) {
            lemma_bytes_less_transitive(na, nb, nc);
        }
    }
}

/// The number of digits of the running number where `count` files are
/// renamed. More than 99999 files are not renamed at once.
pub fn prefix_width(count: usize) -> (r: usize)
    requires
        count < 100_000,
    ensures
        r == digits_for(count as nat),
{
    if count < 10 {
        1
    } else if count < 100 {
        2
    } else if count < 1000 {
        3
    } else if count < 10_000 {
        4
    } else {
        5
    }
}

/// The number of digits that the numbers up to `count` are written with.
pub open spec fn digits_for(count: nat) -> nat {
    if count < 10 {
        1
    } else if count < 100 {
        2
    } else if count < 1000 {
        3
    } else if count < 10_000 {
        4
    } else {
        5
    }
}

/// No two items of `items` have the same file name.
pub open spec fn distinct_names(items: Seq<FileMetadataView>) -> bool {
    forall|i: int, j: int|
        0 <= i < j < items.len() ==> (#[trigger] items[i]).file_name != (
        #[trigger] items[j]).file_name
}

/// Each item of `items` comes before the items behind it.
pub open spec fn ascending(items: Seq<FileMetadataView>) -> bool {
    forall|i: int, j: int|
        0 <= i < j < items.len() ==> comes_before(#[trigger] items[i], #[trigger] items[j])
}

/// The first index from `from` on of an item of `sorted` that `item`
/// comes before; the length of `sorted` where there is none.
pub open spec fn place_from(sorted: Seq<FileMetadataView>, item: FileMetadataView, from: int) -> int
    decreases sorted.len() - from,
{
    if from < 0 || from >= sorted.len() || comes_before(item, sorted[from]) {
        from
    } else {
        place_from(sorted, item, from + 1)
    }
}

/// `sorted` with `item` put in before the first item that it comes before.
pub open spec fn inserted(sorted: Seq<FileMetadataView>, item: FileMetadataView) -> Seq<
    FileMetadataView,
> {
    sorted.insert(place_from(sorted, item, 0), item)
}

/// The items of `items` in the order in which they are numbered.
pub open spec fn by_time(items: Seq<FileMetadataView>) -> Seq<FileMetadataView>
    decreases items.len(),
{
    if items.len() == 0 {
        items
    } else {
        inserted(by_time(items.drop_first()), items.first())
    }
}

/// `place_from` finds the first item from `from` on that `item` comes
/// before.
pub proof fn lemma_place_from(sorted: Seq<FileMetadataView>, item: FileMetadataView, from: int)
    requires
        0 <= from <= sorted.len(),
    ensures
        from <= place_from(sorted, item, from) <= sorted.len(),
        forall|j: int|
            from <= j < place_from(sorted, item, from) ==> !comes_before(item, #[trigger] sorted[j]),
        place_from(sorted, item, from) < sorted.len() ==> comes_before(
            item,
            sorted[place_from(sorted, item, from)],
        ),
    decreases sorted.len() - from,
{
    if !(from >= sorted.len() || comes_before(item, sorted[from])) {
        lemma_place_from(sorted, item, from + 1);
    }
}

/// Putting an item into an ascending sequence of files with other names
/// leaves it ascending, and adds the item to what the sequence holds.
pub proof fn lemma_inserted(sorted: Seq<FileMetadataView>, item: FileMetadataView)
    requires
        ascending(sorted),
        forall|i: int| 0 <= i < sorted.len() ==> (#[trigger] sorted[i]).file_name != item.file_name,
    ensures
        ascending(inserted(sorted, item)),
        inserted(sorted, item).to_multiset() == sorted.to_multiset().insert(item),
        inserted(sorted, item).len() == sorted.len() + 1,
{
    lemma_place_from(sorted, item, 0);
    let p = place_from(sorted, item, 0);
    let out = inserted(sorted, item);
    assert forall|i: int, j: int| 0 <= i < j < out.len() implies comes_before(
        #[trigger] out[i],
        #[trigger] out[j],
    ) by {
        if j < p {
            assert(out[i] == sorted[i] && out[j] == sorted[j]);
        } else if j == p {
            assert(out[i] == sorted[i]);
            lemma_comes_before_total(item, sorted[i]);
        } else if i < p {
            assert(out[i] == sorted[i] && out[j] == sorted[j - 1]);
        } else if i == p {
            assert(out[j] == sorted[j - 1]);
            if j - 1 > p {
                assert(comes_before(sorted[p], sorted[j - 1]));
                lemma_comes_before_transitive(item, sorted[p], sorted[j - 1]);
            }
        } else {
            assert(out[i] == sorted[i - 1] && out[j] == sorted[j - 1]);
        }
    }
    assert(out.remove(p) =~= sorted);
    assert(out[p] == item);
    assert(out.contains(item));
    out.to_multiset_ensures();
    vstd::seq_lib::to_multiset_remove(out, p);
    assert(out.to_multiset() =~= sorted.to_multiset().insert(item));
}

/// The order in which files are numbered is that of [`comes_before`], and
/// holds the files that were given: for files with different names,
/// `by_time` is the one ascending arrangement of them.
pub proof fn lemma_by_time(items: Seq<FileMetadataView>)
    requires
        distinct_names(items),
    ensures
        ascending(by_time(items)),
        by_time(items).to_multiset() == items.to_multiset(),
        by_time(items).len() == items.len(),
    decreases items.len(),
{
    broadcast use vstd::seq_lib::group_to_multiset_ensures;

    if items.len() == 0 {
    } else {
        let rest = items.drop_first();
        assert(distinct_names(rest)) by {
            assert forall|i: int, j: int| 0 <= i < j < rest.len() implies (#[trigger] rest[i]).file_name
                != (#[trigger] rest[j]).file_name by {
                assert(rest[i] == items[i + 1] && rest[j] == items[j + 1]);
            }
        }
        lemma_by_time(rest);
        let sorted = by_time(rest);
        assert forall|i: int| 0 <= i < sorted.len() implies (#[trigger] sorted[i]).file_name
            != items.first().file_name by {
            assert(sorted.to_multiset().count(sorted[i]) > 0);
            assert(rest.contains(sorted[i]));
            let k = choose|k: int| 0 <= k < rest.len() && rest[k] == sorted[i];
            assert(items[k + 1] == sorted[i]);
            assert(items[0].file_name != items[k + 1].file_name);
        }
        lemma_inserted(sorted, items.first());
        assert(items =~= seq![items.first()] + rest);
        assert(items.to_multiset() =~= rest.to_multiset().insert(items.first())) by {
            assert(items.remove(0) =~= rest);
            vstd::seq_lib::to_multiset_remove(items, 0);
        }
    }
}

/// The extension of the new name of the file `file_name`: the extension
/// of the file behind a dot, or nothing.
pub open spec fn dotted_extension(file_name: Seq<char>) -> Seq<char> {
    match extension_of(file_name) {
        Some(ext) => "."@ + ext,
        None => Seq::empty(),
    }
}

/// The renaming of the file `item`, the `index`-th of `count` in the order
/// of numbering, counted from zero: to its timestamp and its extension,
/// behind the number `index + 1` with leading zeros and a dash unless
/// `no_prefix` is set.
pub open spec fn renaming(
    item: FileMetadataView,
    index: nat,
    count: nat,
    no_prefix: bool,
) -> RenameOperationView {
    RenameOperationView {
        from: item.file_name,
        to: if no_prefix {
            item.creation_timestamp + dotted_extension(item.file_name)
        } else {
            zero_padded(index + 1, digits_for(count)) + "-"@ + item.creation_timestamp
                + dotted_extension(item.file_name)
        },
    }
}

/// The renamings of the files `items`.
pub open spec fn renamings(items: Seq<FileMetadataView>, no_prefix: bool) -> Seq<
    RenameOperationView,
> {
    Seq::new(
        items.len(),
        |i: int| renaming(by_time(items)[i], i as nat, items.len(), no_prefix),
    )
}

/// Puts `item` into `sorted` before the first item that it comes before.
fn insert_by_time(sorted: &mut Vec<FileMetadata>, item: FileMetadata)
    ensures
        metadata_views(final(sorted)@) == inserted(metadata_views(old(sorted)@), item@),
{
    let mut at: usize = 0;
    while at < sorted.len() && !is_before(&item, &sorted[at])
        invariant
            at <= sorted@.len(),
            place_from(metadata_views(sorted@), item@, 0) == place_from(
                metadata_views(sorted@),
                item@,
                at as int,
            ),
        decreases sorted@.len() - at,
    {
        at += 1;
    }
    proof {
        assert(metadata_views(sorted@).insert(at as int, item@) =~= metadata_views(
            sorted@.insert(at as int, item),
        ));
    }
    sorted.insert(at, item);
}

/// The renamings of the files `items`: the files are put in the order of
/// their timestamps, those with the same timestamp in that of the lengths
/// of their names and then of the names, and each is renamed to its
/// timestamp and its extension, behind its number in that order unless
/// `no_prefix` is set. The number has leading zeros to the width that the
/// number of files takes.
pub fn prepare_rename_operations(items: Vec<FileMetadata>, no_prefix: bool) -> (r: Result<
    Vec<RenameOperation>,
    Failure,
>)
    requires
        items@.len() < 100_000,
        distinct_names(metadata_views(items@)),
    ensures
        r is Ok,
        operation_views(r->Ok_0@) == renamings(metadata_views(items@), no_prefix),
{
    let count: usize = items.len();
    let width: usize = prefix_width(count);
    let ghost given = metadata_views(items@);
    let mut items = items;
    let mut sorted: Vec<FileMetadata> = Vec::new();
    proof {
        assert(given.skip(count as int) =~= Seq::empty());
    }
    while items.len() > 0
        invariant
            items@.len() <= count,
            count == given.len(),
            metadata_views(items@) == given.take(items@.len() as int),
            metadata_views(sorted@) == by_time(given.skip(items@.len() as int)),
        decreases items@.len(),
    {
        let ghost before = items@;
        let item = items.pop().unwrap();
        proof {
            let k = items@.len() as int;
            assert(item@ == given[k]) by {
                assert(metadata_views(before)[k] == given.take(before.len() as int)[k]);
            }
            assert(metadata_views(items@) =~= given.take(k)) by {
                assert forall|i: int| 0 <= i < k implies metadata_views(items@)[i] == given.take(
                    k,
                )[i] by {
                    assert(metadata_views(before)[i] == given.take(before.len() as int)[i]);
                }
            }
            assert(given.skip(k).drop_first() =~= given.skip(k + 1));
            assert(given.skip(k).first() == given[k]);
        }
        insert_by_time(&mut sorted, item);
    }
    proof {
        assert(given.skip(0) =~= given);
        lemma_by_time(given);
    }
    let mut operations: Vec<RenameOperation> = Vec::new();
    let mut i: usize = 0;
    while i < sorted.len()
        invariant
            i <= sorted@.len(),
            sorted@.len() == count,
            count < 100_000,
            width == digits_for(count as nat),
            operations@.len() == i,
            forall|j: int|
                0 <= j < i ==> (#[trigger] operations@[j])@ == renaming(
                    metadata_views(sorted@)[j],
                    j as nat,
                    count as nat,
                    no_prefix,
                ),
        decreases sorted@.len() - i,
    {
        let f = &sorted[i];
        let mut to: String = if no_prefix {
            String::new()
        } else {
            let mut prefix = zero_padded_text((i + 1) as u128, width);
            prefix.append("-");
            prefix
        };
        to.append(f.creation_timestamp.as_str());
        match extension(f.file_name.as_str()) {
            Some(ext) => {
                to.append(".");
                to.append(ext);
            },
            None => {},
        }
        let operation = RenameOperation { from: f.file_name.clone(), to };
        proof {
            let wanted = renaming(
                metadata_views(sorted@)[i as int],
                i as nat,
                count as nat,
                no_prefix,
            );
            assert(operation@.to =~= wanted.to);
        }
        operations.push(operation);
        i += 1;
    }
    proof {
        assert(operation_views(operations@) =~= renamings(given, no_prefix));
    }
    Ok(operations)
}

} // verus!
