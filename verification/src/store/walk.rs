//! The walk as a whole: in what order a tree's entries come.
//!
//! The walker is told what each path holds. Here a tree is given as a whole,
//! and the walk over it is the walker's steps with the tree's answers. In
//! whatever order the tree lists the children of its directories, the
//! entries come in ascending order of their paths, component by component.

use crate::store::entries::{
    descending, exhausted, lemma_exhausted, length_at, listed, name_less, raised, read_entry,
    taken, IterationErrorView, ListingView, VisitView,
};
use crate::digest::hex_lower;
use crate::store::layout::{
    distinct_names, is_strictly_descending, lemma_descending, lemma_listing_order_is_immaterial,
};
use crate::store::{lemma_hex_is_ascii, lemma_total_take, path_of, segment, total, valid_lengths};
use crate::store::EntryView;
use crate::text::{lemma_lex_common_prefix, lemma_lex_irreflexive, lex_less};
use vstd::prelude::*;
use vstd::utf8::{encode_utf8, is_ascii_chars, is_ascii_chars_encode_utf8};

verus! {

/// A directory tree: what reading each path as a directory gives, and
/// whether a regular file lies at it.
pub struct Tree {
    pub listing: spec_fn(Seq<Seq<char>>) -> ListingView,
    pub is_file: spec_fn(Seq<Seq<char>>) -> bool,
}

/// Where a walk stands: the paths still to visit at each level entered, and
/// the level.
pub struct Position {
    pub stack: Seq<Seq<Seq<Seq<char>>>>,
    pub level: Option<usize>,
}

/// What a walk yields for one path: an entry, or why there is none.
pub type Item = Result<EntryView, IterationErrorView>;

/// No directory of the tree lists a name twice.
pub open spec fn lists_each_child_once(tree: Tree) -> bool {
    forall|path: Seq<Seq<char>>|
        (#[trigger] (tree.listing)(path)) matches ListingView::Children(names) ==> distinct_names(
            names,
        )
}

/// One turn of the walk over `tree`: the next path is taken; a file gives
/// its entry; a directory is entered, or gives the reason why it cannot be.
/// Nothing where no path is left.
pub open spec fn turn(tree: Tree, lengths: Seq<usize>, at: Position) -> Option<
    (Position, Option<Item>),
> {
    let (stack, level, visit) = taken(at.stack, at.level, lengths);
    match visit {
        None => None,
        Some(VisitView::File(path)) => Some(
            (Position { stack, level }, Some(read_entry(path, (tree.is_file)(path)))),
        ),
        Some(VisitView::Directory(path)) => match listed(
            path,
            (tree.listing)(path),
            length_at(lengths, raised(level)),
        ) {
            Ok(children) => Some(
                (Position { stack: stack.push(children), level: raised(level) }, None),
            ),
            Err(error) => Some((Position { stack, level }, Some(Err(error)))),
        },
    }
}

/// What the walk over `tree` yields in its next `turns` turns.
pub open spec fn walk(tree: Tree, lengths: Seq<usize>, at: Position, turns: nat) -> Seq<Item>
    decreases turns,
{
    if turns == 0 {
        Seq::empty()
    } else {
        match turn(tree, lengths, at) {
            None => Seq::empty(),
            Some((next, None)) => walk(tree, lengths, next, (turns - 1) as nat),
            Some((next, Some(item))) => seq![item] + walk(tree, lengths, next, (turns - 1) as nat),
        }
    }
}

/// Where the walk of a store at `base` starts.
pub open spec fn start(base: Seq<char>) -> Position {
    Position { stack: seq![seq![seq![base]]], level: None }
}

/// `first` comes before `second` and before everything below it: at the
/// first component in which the two paths differ, `first` has the lesser
/// name.
pub open spec fn comes_before(first: Seq<Seq<char>>, second: Seq<Seq<char>>) -> bool {
    exists|c: int|
        0 <= c < first.len() && c < second.len() && #[trigger] first.take(c) == second.take(c)
            && name_less(first[c], second[c])
}

/// `long` is `short` or lies below it.
pub open spec fn extends(long: Seq<Seq<char>>, short: Seq<Seq<char>>) -> bool {
    short.len() <= long.len() && long.take(short.len() as int) == short
}

/// The path at place `a` of level `i`.
pub open spec fn pending(stack: Seq<Seq<Seq<Seq<char>>>>, i: int, a: int) -> Seq<Seq<char>> {
    stack[i][a]
}

/// The stack has a path at place `a` of level `i`.
pub open spec fn has(stack: Seq<Seq<Seq<Seq<char>>>>, i: int, a: int) -> bool {
    0 <= i < stack.len() && 0 <= a < stack[i].len()
}

/// The paths of the stack are in the order in which they will be taken: a
/// path comes before every path that is taken after it, which is one at a
/// level above it or one before it at its own level.
pub open spec fn in_order(stack: Seq<Seq<Seq<Seq<char>>>>) -> bool {
    forall|i: int, a: int, j: int, b: int|
        has(stack, i, a) && has(stack, j, b) && (i < j || (i == j && a < b)) ==> comes_before(
            #[trigger] pending(stack, j, b),
            #[trigger] pending(stack, i, a),
        )
}

proof fn lemma_comes_before_below(first: Seq<Seq<char>>, second: Seq<Seq<char>>, long: Seq<Seq<char>>)
    requires
        comes_before(first, second),
    ensures
        extends(long, first) ==> comes_before(long, second),
        extends(long, second) ==> comes_before(first, long),
{
    let c = choose|c: int|
        0 <= c < first.len() && c < second.len() && #[trigger] first.take(c) == second.take(c)
            && name_less(first[c], second[c]);
    if extends(long, first) {
        assert(long.take(c) =~= first.take(c));
        assert(long[c] == long.take(first.len() as int)[c]);
    }
    if extends(long, second) {
        assert(long.take(c) =~= second.take(c));
        assert(long[c] == long.take(second.len() as int)[c]);
    }
}

proof fn lemma_siblings(path: Seq<Seq<char>>, first: Seq<char>, second: Seq<char>)
    requires
        name_less(first, second),
    ensures
        comes_before(path.push(first), path.push(second)),
{
    let c = path.len() as int;
    assert(path.push(first).take(c) =~= path.push(second).take(c));
}

proof fn lemma_children_in_order(
    stack: Seq<Seq<Seq<Seq<char>>>>,
    path: Seq<Seq<char>>,
    names: Seq<Seq<char>>,
)
    requires
        in_order(stack),
        is_strictly_descending(names),
        forall|i: int, a: int| has(stack, i, a) ==> comes_before(path, #[trigger] pending(stack, i, a)),
    ensures
        in_order(stack.push(names.map_values(|name: Seq<char>| path.push(name)))),
{
    let children = names.map_values(|name: Seq<char>| path.push(name));
    let after = stack.push(children);
    assert forall|i: int, a: int, j: int, b: int|
        has(after, i, a) && has(after, j, b) && (i < j || (i == j && a < b)) implies comes_before(
        #[trigger] pending(after, j, b),
        #[trigger] pending(after, i, a),
    ) by {
        if j < stack.len() {
            assert(pending(after, j, b) == pending(stack, j, b));
            assert(pending(after, i, a) == pending(stack, i, a));
        } else if i < stack.len() {
            assert(pending(after, i, a) == pending(stack, i, a));
            assert(comes_before(path, pending(stack, i, a)));
            lemma_comes_before_below(path, pending(stack, i, a), path.push(names[b]));
            assert(path.push(names[b]).take(path.len() as int) =~= path);
        } else {
            lemma_siblings(path, names[b], names[a]);
        }
    }
}

/// A walk that stands where its paths are in order yields its entries in
/// ascending order, each at or below one of the paths it stands at.
proof fn lemma_walk_in_order(tree: Tree, lengths: Seq<usize>, at: Position, turns: nat)
    requires
        lists_each_child_once(tree),
        in_order(at.stack),
    ensures
        forall|k: int|
            0 <= k < walk(tree, lengths, at, turns).len() && (#[trigger] walk(
                tree,
                lengths,
                at,
                turns,
            )[k]) is Ok ==> exists|i: int, a: int|
                has(at.stack, i, a) && extends(
                    walk(tree, lengths, at, turns)[k]->Ok_0.path,
                    #[trigger] pending(at.stack, i, a),
                ),
        forall|k: int, l: int|
            0 <= k < l < walk(tree, lengths, at, turns).len() && (#[trigger] walk(
                tree,
                lengths,
                at,
                turns,
            )[k]) is Ok && (#[trigger] walk(tree, lengths, at, turns)[l]) is Ok ==> comes_before(
                walk(tree, lengths, at, turns)[k]->Ok_0.path,
                walk(tree, lengths, at, turns)[l]->Ok_0.path,
            ),
    decreases turns,
{
    let out = walk(tree, lengths, at, turns);
    if turns == 0 {
        return ;
    }
    let old = at.stack;
    lemma_exhausted(old);
    let left = old.len() - exhausted(old);
    if left <= 0 {
        return ;
    }
    let top = old[left - 1];
    let path = top.last();
    let kept = old.take(left - 1).push(top.drop_last());
    // every path that is kept is taken after `path`
    assert forall|i: int, a: int| has(kept, i, a) implies has(old, i, a) && pending(kept, i, a)
        == pending(old, i, a) && comes_before(path, #[trigger] pending(kept, i, a)) by {
        assert(pending(old, left - 1, top.len() - 1) == path);
        assert(has(old, left - 1, top.len() - 1));
    }
    assert(in_order(kept)) by {
        assert forall|i: int, a: int, j: int, b: int|
            has(kept, i, a) && has(kept, j, b) && (i < j || (i == j && a < b))
            implies comes_before(#[trigger] pending(kept, j, b), #[trigger] pending(kept, i, a)) by {
            assert(pending(kept, j, b) == pending(old, j, b));
            assert(pending(kept, i, a) == pending(old, i, a));
        }
    }
    let (next, item) = turn(tree, lengths, at)->0;
    let rest = walk(tree, lengths, next, (turns - 1) as nat);
    if next.stack != kept {
        // the directory was entered
        let names = descending((tree.listing)(path)->Children_0);
        lemma_descending((tree.listing)(path)->Children_0);
        lemma_children_in_order(kept, path, names);
    }
    lemma_walk_in_order(tree, lengths, next, (turns - 1) as nat);
    // every entry that follows lies at or below a path that was there
    // before, or below `path`
    assert forall|k: int| 0 <= k < rest.len() && (#[trigger] rest[k]) is Ok implies (exists|
        i: int,
        a: int,
    |
        has(old, i, a) && extends(rest[k]->Ok_0.path, #[trigger] pending(old, i, a))) && (
    next.stack == kept ==> comes_before(path, rest[k]->Ok_0.path)) by {
        let found = rest[k]->Ok_0.path;
        let (i, a) = choose|i: int, a: int|
            has(next.stack, i, a) && extends(found, #[trigger] pending(next.stack, i, a));
        if i < kept.len() {
            assert(pending(next.stack, i, a) == pending(kept, i, a));
            assert(has(old, i, a) && extends(found, pending(old, i, a)));
            lemma_comes_before_below(path, pending(kept, i, a), found);
        } else {
            let child = pending(next.stack, i, a);
            assert(child.take(path.len() as int) =~= path);
            assert(found.take(path.len() as int) =~= found.take(child.len() as int).take(
                path.len() as int,
            ));
            assert(has(old, left - 1, top.len() - 1) && extends(
                found,
                pending(old, left - 1, top.len() - 1),
            ));
        }
    }
    match item {
        None => {
            assert(out == rest);
        },
        Some(first) => {
            assert(out == seq![first] + rest);
            assert forall|k: int| 0 <= k < out.len() && (#[trigger] out[k]) is Ok implies exists|
                i: int,
                a: int,
            |
                has(old, i, a) && extends(out[k]->Ok_0.path, #[trigger] pending(old, i, a)) by {
                if k == 0 {
                    assert(first->Ok_0.path == path);
                    assert(path.take(path.len() as int) =~= path);
                    assert(has(old, left - 1, top.len() - 1) && extends(
                        path,
                        pending(old, left - 1, top.len() - 1),
                    ));
                } else {
                    assert(out[k] == rest[k - 1]);
                }
            }
            assert forall|k: int, l: int|
                0 <= k < l < out.len() && (#[trigger] out[k]) is Ok && (#[trigger] out[l]) is Ok
                implies comes_before(out[k]->Ok_0.path, out[l]->Ok_0.path) by {
                assert(out[l] == rest[l - 1]);
                if k == 0 {
                    assert(first->Ok_0.path == path);
                } else {
                    assert(out[k] == rest[k - 1]);
                }
            }
        },
    }
}

/// The entries of a store come in strictly ascending order of their paths:
/// of any two entries that a walk yields, the earlier one has the lesser
/// name at the first component in which their paths differ. This holds of
/// every tree that lists no child twice, in whatever order it lists them,
/// and of every number of turns.
pub proof fn lemma_entries_ascend(
    tree: Tree,
    base: Seq<char>,
    lengths: Seq<usize>,
    turns: nat,
    k: int,
    l: int,
)
    requires
        lists_each_child_once(tree),
        0 <= k < l < walk(tree, lengths, start(base), turns).len(),
        walk(tree, lengths, start(base), turns)[k] is Ok,
        walk(tree, lengths, start(base), turns)[l] is Ok,
    ensures
        comes_before(
            walk(tree, lengths, start(base), turns)[k]->Ok_0.path,
            walk(tree, lengths, start(base), turns)[l]->Ok_0.path,
        ),
{
    let stack = start(base).stack;
    assert(in_order(stack)) by {
        assert forall|i: int, a: int, j: int, b: int|
            has(stack, i, a) && has(stack, j, b) && (i < j || (i == j && a < b))
            implies comes_before(#[trigger] pending(stack, j, b), #[trigger] pending(stack, i, a)) by {
        }
    }
    lemma_walk_in_order(tree, lengths, start(base), turns);
}

proof fn lemma_lex_longer(first: Seq<u8>, second: Seq<u8>, after: Seq<u8>, other: Seq<u8>)
    requires
        lex_less(first, second),
        first.len() == second.len(),
    ensures
        lex_less(first + after, second + other),
    decreases first.len(),
{
    if first.len() > 0 {
        assert((first + after)[0] == first[0] && (second + other)[0] == second[0]);
        if first[0] == second[0] {
            assert((first + after).drop_first() =~= first.drop_first() + after);
            assert((second + other).drop_first() =~= second.drop_first() + other);
            lemma_lex_longer(first.drop_first(), second.drop_first(), after, other);
        }
    }
}

proof fn lemma_segment_bytes(lengths: Seq<usize>, digest: Seq<u8>, k: int)
    requires
        digest.len() == 16,
        valid_lengths(lengths),
        0 <= k < lengths.len(),
    ensures
        0 <= total(lengths.take(k)) <= total(lengths.take(k + 1)) <= 32,
        total(lengths.take(k + 1)) == total(lengths.take(k)) + lengths[k],
        encode_utf8(segment(lengths, hex_lower(digest), k)) == encode_utf8(
            hex_lower(digest),
        ).subrange(total(lengths.take(k)), total(lengths.take(k + 1))),
{
    let text = hex_lower(digest);
    let part = segment(lengths, text, k);
    let from = total(lengths.take(k));
    lemma_total_take(lengths, k);
    lemma_total_take(lengths, k + 1);
    assert(lengths.take(k + 1).drop_last() =~= lengths.take(k));
    lemma_hex_is_ascii(digest);
    is_ascii_chars_encode_utf8(text);
    assert(is_ascii_chars(part)) by {
        assert forall|i: int| 0 <= i < part.len() implies '\0' <= #[trigger] part[i]
            <= '\u{7f}' by {
            assert(part[i] == text[from + i]);
        }
    }
    is_ascii_chars_encode_utf8(part);
    let bytes = encode_utf8(text);
    let piece = bytes.subrange(from, total(lengths.take(k + 1)));
    assert forall|i: int| 0 <= i < part.len() implies encode_utf8(part)[i] == piece[i] by {
        assert(encode_utf8(part)[i] == part[i] as u8);
        assert(part[i] == text[from + i]);
        assert(bytes[from + i] == text[from + i] as u8);
    }
    assert(encode_utf8(part) =~= piece);
}

proof fn lemma_same_start(lengths: Seq<usize>, first: Seq<u8>, second: Seq<u8>, k: int)
    requires
        first.len() == 16,
        second.len() == 16,
        valid_lengths(lengths),
        0 <= k <= lengths.len(),
        forall|j: int|
            0 <= j < k ==> #[trigger] segment(lengths, hex_lower(first), j) == segment(
                lengths,
                hex_lower(second),
                j,
            ),
    ensures
        0 <= total(lengths.take(k)) <= 32,
        encode_utf8(hex_lower(first)).take(total(lengths.take(k))) == encode_utf8(
            hex_lower(second),
        ).take(total(lengths.take(k))),
    decreases k,
{
    let a = encode_utf8(hex_lower(first));
    let b = encode_utf8(hex_lower(second));
    lemma_total_take(lengths, k);
    if k == 0 {
        assert(lengths.take(0) =~= Seq::<usize>::empty());
        assert(a.take(0) =~= b.take(0));
    } else {
        lemma_same_start(lengths, first, second, k - 1);
        lemma_segment_bytes(lengths, first, k - 1);
        lemma_segment_bytes(lengths, second, k - 1);
        lemma_hex_is_ascii(first);
        lemma_hex_is_ascii(second);
        is_ascii_chars_encode_utf8(hex_lower(first));
        is_ascii_chars_encode_utf8(hex_lower(second));
        let from = total(lengths.take(k - 1));
        let to = total(lengths.take(k));
        assert(segment(lengths, hex_lower(first), k - 1) == segment(
            lengths,
            hex_lower(second),
            k - 1,
        ));
        assert(a.take(to) =~= a.take(from) + a.subrange(from, to));
        assert(b.take(to) =~= b.take(from) + b.subrange(from, to));
    }
}

/// Blobs that lie where their digests say come in the order of their
/// digests' names: where the path of one digest comes before the path of
/// another, so does its name. With `lemma_entries_ascend`: the entries of a
/// store in which every blob lies at its derived path come in strictly
/// ascending order of the hexadecimal names of their digests.
pub proof fn lemma_path_order_is_digest_order(
    base: Seq<char>,
    lengths: Seq<usize>,
    first: Seq<u8>,
    second: Seq<u8>,
)
    requires
        first.len() == 16,
        second.len() == 16,
        valid_lengths(lengths),
        comes_before(path_of(base, lengths, first), path_of(base, lengths, second)),
    ensures
        name_less(hex_lower(first), hex_lower(second)),
{
    let p = path_of(base, lengths, first);
    let q = path_of(base, lengths, second);
    let n = lengths.len() as int;
    let c = choose|c: int|
        0 <= c < p.len() && c < q.len() && #[trigger] p.take(c) == q.take(c) && name_less(
            p[c],
            q[c],
        );
    let a = encode_utf8(hex_lower(first));
    let b = encode_utf8(hex_lower(second));
    if c == 0 {
        lemma_lex_irreflexive(encode_utf8(base));
    } else if c == n + 1 {
    } else {
        let k = c - 1;
        assert(p[c] == segment(lengths, hex_lower(first), k));
        assert(q[c] == segment(lengths, hex_lower(second), k));
        assert forall|j: int| 0 <= j < k implies #[trigger] segment(lengths, hex_lower(first), j)
            == segment(lengths, hex_lower(second), j) by {
            assert(p.take(c)[j + 1] == q.take(c)[j + 1]);
            assert(p[j + 1] == segment(lengths, hex_lower(first), j));
            assert(q[j + 1] == segment(lengths, hex_lower(second), j));
        }
        lemma_same_start(lengths, first, second, k);
        lemma_segment_bytes(lengths, first, k);
        lemma_segment_bytes(lengths, second, k);
        lemma_hex_is_ascii(first);
        lemma_hex_is_ascii(second);
        is_ascii_chars_encode_utf8(hex_lower(first));
        is_ascii_chars_encode_utf8(hex_lower(second));
        let from = total(lengths.take(k));
        let to = total(lengths.take(k + 1));
        let start = a.take(from);
        assert(a =~= start + (a.subrange(from, to) + a.skip(to)));
        assert(b =~= start + (b.subrange(from, to) + b.skip(to)));
        lemma_lex_longer(a.subrange(from, to), b.subrange(from, to), a.skip(to), b.skip(to));
        lemma_lex_common_prefix(
            start,
            a.subrange(from, to) + a.skip(to),
            b.subrange(from, to) + b.skip(to),
        );
    }
}

/// Two trees hold the same: the same files, and in each directory the same
/// children, listed in whatever order.
pub open spec fn same_contents(first: Tree, second: Tree) -> bool {
    &&& forall|path: Seq<Seq<char>>|
        (#[trigger] (first.is_file)(path)) == (second.is_file)(path)
    &&& forall|path: Seq<Seq<char>>|
        match (#[trigger] (first.listing)(path), (second.listing)(path)) {
            (ListingView::Children(a), ListingView::Children(b)) => a.to_multiset()
                == b.to_multiset(),
            (a, b) => a == b,
        }
}

/// Walking a store again gives the same sequence as long as the store
/// holds the same, in whatever order its directories are listed the second
/// time.
pub proof fn lemma_walk_again(
    first: Tree,
    second: Tree,
    lengths: Seq<usize>,
    at: Position,
    turns: nat,
)
    requires
        same_contents(first, second),
    ensures
        walk(first, lengths, at, turns) == walk(second, lengths, at, turns),
    decreases turns,
{
    if turns > 0 {
        let (stack, level, visit) = taken(at.stack, at.level, lengths);
        match visit {
            None => {},
            Some(VisitView::File(path)) => {
                assert((first.is_file)(path) == (second.is_file)(path));
                let (next, _) = turn(first, lengths, at).unwrap();
                lemma_walk_again(first, second, lengths, next, (turns - 1) as nat);
            },
            Some(VisitView::Directory(path)) => {
                assert((first.is_file)(path) == (second.is_file)(path));
                match ((first.listing)(path), (second.listing)(path)) {
                    (ListingView::Children(a), ListingView::Children(b)) => {
                        lemma_listing_order_is_immaterial(a, b);
                    },
                    _ => {},
                }
                let (next, _) = turn(first, lengths, at).unwrap();
                lemma_walk_again(first, second, lengths, next, (turns - 1) as nat);
            },
        }
    }
}

} // verus!
