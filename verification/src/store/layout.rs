//! What the layout of a store guarantees: a blob is found again where it was
//! saved, under the digest it was saved with.

use crate::digest::{hex_lower, hex_value, is_hex, md5_of, unhex};
use crate::store::entries::{
    descending, is_name, is_name_byte, is_shard_name, name_less, name_position, read_entry,
    IterationErrorView,
};
use crate::store::{path_of, saved, segment, total, valid_lengths, ActionView, EntryView};
use crate::store::{lemma_hex_is_ascii, lemma_total_take};
use crate::text::{
    lemma_lex_asymmetric, lemma_lex_irreflexive, lemma_lex_total, lemma_lex_transitive,
    lemma_same_bytes_same_text,
};
use vstd::prelude::*;
use vstd::utf8::{encode_utf8, is_ascii_chars, is_ascii_chars_encode_utf8};

verus! {

/// The files of a store: the paths at which a file lies.
pub type Files = Set<Seq<Seq<char>>>;

/// What saving `bytes` does to a store that holds `files`: the action, and
/// the files that the store holds afterwards.
pub open spec fn save_into(files: Files, base: Seq<char>, lengths: Seq<usize>, bytes: Seq<u8>) -> (
    ActionView,
    Files,
) {
    let path = path_of(base, lengths, md5_of(bytes));
    (saved(base, lengths, bytes, files.contains(path)), files.insert(path))
}

/// The entry that an action speaks of.
pub open spec fn entry_of(action: ActionView) -> EntryView {
    match action {
        ActionView::Added { entry, .. } => entry,
        ActionView::Found { entry } => entry,
    }
}

/// `names` descend: none comes before one that follows it.
pub open spec fn is_descending(names: Seq<Seq<char>>) -> bool {
    forall|i: int, j: int| 0 <= i < j < names.len() ==> !name_less(names[i], names[j])
}

/// No name occurs twice in `names`.
pub open spec fn distinct_names(names: Seq<Seq<char>>) -> bool {
    forall|i: int, j: int| 0 <= i < names.len() && 0 <= j < names.len() && i != j ==> names[i]
        != names[j]
}

/// Each of `names` comes after those that follow it.
pub open spec fn is_strictly_descending(names: Seq<Seq<char>>) -> bool {
    forall|i: int, j: int| 0 <= i < j < names.len() ==> name_less(names[j], names[i])
}

/// Saving a blob that the store does not hold adds it; saving the same
/// bytes again finds it, at the same path and under the same digest, and
/// changes nothing.
pub proof fn lemma_save_is_idempotent(
    files: Files,
    base: Seq<char>,
    lengths: Seq<usize>,
    bytes: Seq<u8>,
)
    requires
        !files.contains(path_of(base, lengths, md5_of(bytes))),
    ensures
        ({
            let (first, after) = save_into(files, base, lengths, bytes);
            let (second, last) = save_into(after, base, lengths, bytes);
            &&& first is Added
            &&& second is Found
            &&& entry_of(second) == entry_of(first)
            &&& last == after
        }),
{
    let path = path_of(base, lengths, md5_of(bytes));
    assert(files.insert(path).insert(path) =~= files.insert(path));
}

/// Saving a blob that the store holds already finds it and changes nothing.
pub proof fn lemma_save_finds_what_is_there(
    files: Files,
    base: Seq<char>,
    lengths: Seq<usize>,
    bytes: Seq<u8>,
)
    requires
        files.contains(path_of(base, lengths, md5_of(bytes))),
    ensures
        save_into(files, base, lengths, bytes).0 is Found,
        save_into(files, base, lengths, bytes).1 == files,
{
    let path = path_of(base, lengths, md5_of(bytes));
    assert(files.insert(path) =~= files);
}

/// The name of a digest is 32 lowercase hexadecimal characters that spell
/// the digest.
pub proof fn lemma_hex_name(digest: Seq<u8>)
    requires
        digest.len() == 16,
    ensures
        encode_utf8(hex_lower(digest)).len() == 32,
        is_name(encode_utf8(hex_lower(digest))),
        is_hex(encode_utf8(hex_lower(digest))),
        unhex(encode_utf8(hex_lower(digest))) == digest,
{
    let text = hex_lower(digest);
    let name = encode_utf8(text);
    lemma_hex_is_ascii(digest);
    is_ascii_chars_encode_utf8(text);
    assert forall|i: int| 0 <= i < name.len() implies is_name_byte(#[trigger] name[i])
        && hex_value(name[i]) == Some(
        if i % 2 == 0 {
            digest[i / 2] as int / 16
        } else {
            digest[i / 2] as int % 16
        },
    ) by {
        assert(name[i] == text[i] as u8);
    }
    assert forall|i: int| 0 <= i < name.len() implies (#[trigger] hex_value(name[i])) is Some by {
        assert(is_name_byte(name[i]));
    }
    assert forall|i: int| 0 <= i < 16 implies unhex(name)[i] == digest[i] by {
        assert(is_name_byte(name[2 * i]));
        assert(is_name_byte(name[2 * i + 1]));
    }
    assert(unhex(name) =~= digest);
}

/// The file of a blob is read back as the entry that saving the blob gave:
/// the path that is derived from a digest names that digest, whatever the
/// base and the lengths of the store.
pub proof fn lemma_path_names_its_digest(base: Seq<char>, lengths: Seq<usize>, digest: Seq<u8>)
    requires
        digest.len() == 16,
    ensures
        read_entry(path_of(base, lengths, digest), true) == Ok::<EntryView, IterationErrorView>(
            EntryView { path: path_of(base, lengths, digest), digest },
        ),
{
    lemma_hex_name(digest);
    assert(path_of(base, lengths, digest).last() == hex_lower(digest));
}

/// An entry that the walk reads at the path of a digest has that digest, so
/// that deriving the path from the entry's digest gives the path at which
/// the entry was found.
pub proof fn lemma_found_where_derived(
    base: Seq<char>,
    lengths: Seq<usize>,
    digest: Seq<u8>,
    found: EntryView,
)
    requires
        digest.len() == 16,
        read_entry(path_of(base, lengths, digest), true) == Ok::<EntryView, IterationErrorView>(
            found,
        ),
    ensures
        path_of(base, lengths, found.digest) == found.path,
{
    lemma_path_names_its_digest(base, lengths, digest);
}

/// The directory of a blob at level `k` is named by exactly as many
/// lowercase hexadecimal characters as the level's length says.
pub proof fn lemma_segment_is_shard_name(lengths: Seq<usize>, digest: Seq<u8>, k: int)
    requires
        digest.len() == 16,
        valid_lengths(lengths),
        0 <= k < lengths.len(),
    ensures
        is_shard_name(segment(lengths, hex_lower(digest), k), lengths[k]),
{
    let text = hex_lower(digest);
    let part = segment(lengths, text, k);
    let from = total(lengths.take(k));
    lemma_total_take(lengths, k);
    lemma_total_take(lengths, k + 1);
    assert(lengths.take(k + 1).drop_last() =~= lengths.take(k));
    assert(total(lengths.take(k + 1)) == from + lengths[k]);
    lemma_hex_is_ascii(digest);
    lemma_hex_name(digest);
    is_ascii_chars_encode_utf8(text);
    assert(is_ascii_chars(part)) by {
        assert forall|i: int| 0 <= i < part.len() implies '\0' <= #[trigger] part[i]
            <= '\u{7f}' by {
            assert(part[i] == text[from + i]);
        }
    }
    is_ascii_chars_encode_utf8(part);
    let name = encode_utf8(part);
    assert forall|i: int| 0 <= i < name.len() implies is_name_byte(#[trigger] name[i]) by {
        assert(name[i] == part[i] as u8);
        assert(part[i] == text[from + i]);
        assert(encode_utf8(text)[from + i] == text[from + i] as u8);
        assert(is_name_byte(encode_utf8(text)[from + i]));
    }
}

/// A stored file whose bytes were changed without changing their digest's
/// name is told apart: the digest of the new bytes comes back, and it is
/// not the digest that the file is named by. Bytes with the same digest as
/// before cannot be told apart.
pub proof fn lemma_changed_bytes_are_invalid(entry: crate::store::Entry, before: Seq<u8>, after: Seq<u8>)
    requires
        entry.digest@ == md5_of(before),
        md5_of(after) != md5_of(before),
    ensures
        entry.mismatch(after) == Some(md5_of(after)),
        entry.mismatch(after) != Some(entry.digest@),
        entry.mismatch(before) is None,
{
}

proof fn lemma_name_order(a: Seq<char>, b: Seq<char>)
    ensures
        !name_less(a, b) && !name_less(b, a) ==> a == b,
        name_less(a, b) ==> !name_less(b, a),
        !name_less(a, a),
{
    if !name_less(a, b) && !name_less(b, a) {
        lemma_lex_total(encode_utf8(a), encode_utf8(b));
        lemma_same_bytes_same_text(a, b);
    }
    if name_less(a, b) {
        lemma_lex_asymmetric(encode_utf8(a), encode_utf8(b));
    }
    lemma_lex_irreflexive(encode_utf8(a));
}

proof fn lemma_name_position_holds(names: Seq<Seq<char>>, name: Seq<char>)
    ensures
        0 <= name_position(names, name) <= names.len(),
        forall|i: int|
            0 <= i < name_position(names, name) ==> !name_less(#[trigger] names[i], name),
        name_position(names, name) < names.len() ==> name_less(
            names[name_position(names, name)],
            name,
        ),
    decreases names.len(),
{
    if names.len() > 0 && !name_less(names[0], name) {
        let rest = names.drop_first();
        lemma_name_position_holds(rest, name);
        assert forall|i: int| 0 <= i < name_position(names, name) implies !name_less(
            #[trigger] names[i],
            name,
        ) by {
            if i > 0 {
                assert(names[i] == rest[i - 1]);
            }
        }
        if name_position(names, name) < names.len() {
            assert(names[name_position(names, name)] == rest[name_position(rest, name)]);
        }
    }
}

proof fn lemma_insert_keeps_descending(names: Seq<Seq<char>>, name: Seq<char>)
    requires
        is_descending(names),
    ensures
        is_descending(names.insert(name_position(names, name), name)),
{
    let at = name_position(names, name);
    let result = names.insert(at, name);
    lemma_name_position_holds(names, name);
    assert forall|i: int, j: int| 0 <= i < j < result.len() implies !name_less(
        result[i],
        result[j],
    ) by {
        if j < at {
            assert(result[i] == names[i] && result[j] == names[j]);
        } else if j == at {
            // the names before `at` do not come before `name`
            assert(result[i] == names[i]);
        } else if i < at {
            assert(result[i] == names[i] && result[j] == names[j - 1]);
        } else if i == at {
            // `names[at]` comes before `name`, and `names[j - 1]` not after it
            assert(result[j] == names[j - 1]);
            let pivot = names[at];
            let later = names[j - 1];
            if name_less(name, later) {
                lemma_lex_transitive(encode_utf8(pivot), encode_utf8(name), encode_utf8(later));
                if at < j - 1 {
                    assert(!name_less(names[at], names[j - 1]));
                } else {
                    lemma_name_order(pivot, pivot);
                }
            }
        } else {
            assert(result[i] == names[i - 1] && result[j] == names[j - 1]);
        }
    }
}

/// The children of a directory are put in descending order, so that the
/// walk, which takes them from the end, visits them in ascending order of
/// their names. Every child is kept, once for each time that it was listed;
/// where each was listed once, as a directory lists its children, each
/// comes strictly after the one visited before it.
pub proof fn lemma_descending(names: Seq<Seq<char>>)
    ensures
        descending(names).len() == names.len(),
        descending(names).to_multiset() == names.to_multiset(),
        is_descending(descending(names)),
        distinct_names(names) ==> is_strictly_descending(descending(names)),
    decreases names.len(),
{
    lemma_descending_holds(names);
    let sorted = descending(names);
    if distinct_names(names) {
        assert(sorted.no_duplicates()) by {
            assert(names.no_duplicates());
            names.lemma_multiset_has_no_duplicates();
            sorted.lemma_multiset_has_no_duplicates_conv();
        }
        assert forall|i: int, j: int| 0 <= i < j < sorted.len() implies name_less(
            sorted[j],
            sorted[i],
        ) by {
            lemma_name_order(sorted[i], sorted[j]);
            lemma_name_order(sorted[j], sorted[i]);
        }
    }
}

proof fn lemma_descending_holds(names: Seq<Seq<char>>)
    ensures
        descending(names).len() == names.len(),
        descending(names).to_multiset() == names.to_multiset(),
        is_descending(descending(names)),
    decreases names.len(),
{
    broadcast use vstd::seq_lib::group_to_multiset_ensures;

    if names.len() > 0 {
        let front = names.drop_last();
        let sorted = descending(front);
        lemma_descending_holds(front);
        lemma_name_position_holds(sorted, names.last());
        lemma_insert_keeps_descending(sorted, names.last());
        let at = name_position(sorted, names.last());
        assert(names =~= front.push(names.last()));
        sorted.to_multiset_ensures();
        assert(sorted.insert(at, names.last()).to_multiset() =~= sorted.to_multiset().insert(
            names.last(),
        ));
    }
}

proof fn lemma_descending_is_unique(first: Seq<Seq<char>>, second: Seq<Seq<char>>)
    requires
        is_descending(first),
        is_descending(second),
        first.to_multiset() == second.to_multiset(),
    ensures
        first == second,
    decreases first.len(),
{
    broadcast use vstd::seq_lib::group_to_multiset_ensures;

    first.to_multiset_ensures();
    second.to_multiset_ensures();
    assert(first.len() == second.len());
    if first.len() == 0 {
        assert(first =~= second);
    } else {
        let a = first.last();
        let b = second.last();
        assert(first.to_multiset().count(a) > 0);
        assert(second.contains(a));
        let k = choose|k: int| 0 <= k < second.len() && second[k] == a;
        assert(second.to_multiset().count(b) > 0);
        assert(first.contains(b));
        let l = choose|l: int| 0 <= l < first.len() && first[l] == b;
        // neither last name comes before the other
        if k < second.len() - 1 {
            assert(!name_less(second[k], second[second.len() - 1]));
        } else {
            lemma_name_order(a, a);
        }
        if l < first.len() - 1 {
            assert(!name_less(first[l], first[first.len() - 1]));
        } else {
            lemma_name_order(b, b);
        }
        lemma_name_order(a, b);
        assert(a == b);
        let front = first.drop_last();
        let other = second.drop_last();
        assert(first =~= front.push(a));
        assert(second =~= other.push(b));
        assert(front.to_multiset() =~= other.to_multiset()) by {
            assert forall|x: Seq<char>| front.to_multiset().count(x) == other.to_multiset().count(
                x,
            ) by {
                assert(front.push(a).to_multiset().count(x) == other.push(b).to_multiset().count(
                    x,
                ));
            }
        }
        assert(is_descending(front)) by {
            assert forall|i: int, j: int| 0 <= i < j < front.len() implies !name_less(
                front[i],
                front[j],
            ) by {
                assert(front[i] == first[i] && front[j] == first[j]);
            }
        }
        assert(is_descending(other)) by {
            assert forall|i: int, j: int| 0 <= i < j < other.len() implies !name_less(
                other[i],
                other[j],
            ) by {
                assert(other[i] == second[i] && other[j] == second[j]);
            }
        }
        lemma_descending_is_unique(front, other);
    }
}

/// The order in which a directory lists its children is immaterial: two
/// listings of the same names, in whatever order, are visited alike.
pub proof fn lemma_listing_order_is_immaterial(first: Seq<Seq<char>>, second: Seq<Seq<char>>)
    requires
        first.to_multiset() == second.to_multiset(),
    ensures
        descending(first) == descending(second),
{
    lemma_descending(first);
    lemma_descending(second);
    lemma_descending_is_unique(descending(first), descending(second));
}

} // verus!
