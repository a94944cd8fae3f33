//! Prefix part lengths as they are written on a command line: decimal
//! numbers separated by slashes, as in `2/2`.

use vstd::prelude::*;

verus! {

/// The lengths of the directory names of a store, level by level.
#[derive(Clone, Debug)]
pub struct PrefixPartLengths(pub Vec<usize>);

/// Why the lengths of a store are not known.
#[derive(Debug)]
pub enum LengthsError {
    /// The store shows no file to infer the lengths from, and none were
    /// given.
    MissingPrefixPartLengths,
    /// The lengths that were given are not those that the store shows.
    PrefixPartLengthsMismatch { inferred: Vec<usize>, provided: Vec<usize> },
}

/// The number that decimal digits spell.
pub open spec fn digits_value(digits: Seq<u8>) -> int
    decreases digits.len(),
{
    if digits.len() == 0 {
        0
    } else {
        digits_value(digits.drop_last()) * 10 + (digits.last() - 48)
    }
}

/// `digits` is one decimal digit or more.
pub open spec fn is_digits(digits: Seq<u8>) -> bool {
    &&& digits.len() > 0
    &&& forall|i: int| 0 <= i < digits.len() ==> 48 <= #[trigger] digits[i] <= 57
}

/// What is left of `part` without a leading plus sign.
pub open spec fn unsigned(part: Seq<u8>) -> Seq<u8> {
    if part.len() > 0 && part[0] == 43 {
        part.drop_first()
    } else {
        part
    }
}

/// The length that `part` spells: decimal digits, after a plus sign or
/// without one, that spell a number which fits.
pub open spec fn parse_length(part: Seq<u8>) -> Option<usize> {
    if is_digits(unsigned(part)) && digits_value(unsigned(part)) <= usize::MAX {
        Some(digits_value(unsigned(part)) as usize)
    } else {
        None
    }
}

/// The position of the first slash in `text`; its length where it has none.
pub open spec fn first_slash(text: Seq<u8>) -> int
    decreases text.len(),
{
    if text.len() == 0 || text[0] == 47 {
        0
    } else {
        1 + first_slash(text.drop_first())
    }
}

/// The lengths that `text` spells: what stands between its slashes, each
/// part read as a length. A part that spells none, an empty one too, leaves
/// the whole unread.
pub open spec fn parse_lengths(text: Seq<u8>) -> Option<Seq<usize>>
    decreases text.len(),
{
    let cut = first_slash(text);
    if !(0 <= cut <= text.len()) {
        None
    } else {
        match parse_length(text.take(cut)) {
            None => None,
            Some(length) => if cut == text.len() {
                Some(seq![length])
            } else {
                match parse_lengths(text.skip(cut + 1)) {
                    None => None,
                    Some(rest) => Some(seq![length] + rest),
                }
            },
        }
    }
}

/// The lengths read so far followed by those of the rest.
pub open spec fn followed_by(first: Seq<usize>, rest: Option<Seq<usize>>) -> Option<Seq<usize>> {
    match rest {
        Some(rest) => Some(first + rest),
        None => None,
    }
}

/// What checking the lengths that were given against those that the store
/// shows leads to, as plain values.
pub enum CheckedView {
    Lengths(Seq<usize>),
    Missing,
    Mismatch { inferred: Seq<usize>, provided: Seq<usize> },
}

/// The lengths to open a store with: those that it shows, which those that
/// were given must agree with; those that were given where it shows none.
pub open spec fn checked(inferred: Option<Seq<usize>>, provided: Option<Seq<usize>>) -> CheckedView {
    match (inferred, provided) {
        (Some(inferred), Some(provided)) => if inferred == provided {
            CheckedView::Lengths(inferred)
        } else {
            CheckedView::Mismatch { inferred, provided }
        },
        (Some(inferred), None) => CheckedView::Lengths(inferred),
        (None, Some(provided)) => CheckedView::Lengths(provided),
        (None, None) => CheckedView::Missing,
    }
}

pub open spec fn checked_view(result: Result<Vec<usize>, LengthsError>) -> CheckedView {
    match result {
        Ok(lengths) => CheckedView::Lengths(lengths@),
        Err(LengthsError::MissingPrefixPartLengths) => CheckedView::Missing,
        Err(LengthsError::PrefixPartLengthsMismatch { inferred, provided }) => CheckedView::Mismatch {
            inferred: inferred@,
            provided: provided@,
        },
    }
}

pub open spec fn lengths_view(lengths: Option<Vec<usize>>) -> Option<Seq<usize>> {
    match lengths {
        Some(lengths) => Some(lengths@),
        None => None,
    }
}

proof fn lemma_first_slash_is(text: Seq<u8>, at: int)
    requires
        0 <= at <= text.len(),
        forall|i: int| 0 <= i < at ==> #[trigger] text[i] != 47,
        at < text.len() ==> text[at] == 47,
    ensures
        first_slash(text) == at,
    decreases text.len(),
{
    if at > 0 {
        let rest = text.drop_first();
        assert forall|i: int| 0 <= i < at - 1 implies #[trigger] rest[i] != 47 by {
            assert(rest[i] == text[i + 1]);
        }
        lemma_first_slash_is(rest, at - 1);
    }
}

proof fn lemma_digits_grow(digits: Seq<u8>, k: int)
    requires
        0 <= k <= digits.len(),
        forall|i: int| 0 <= i < digits.len() ==> 48 <= #[trigger] digits[i] <= 57,
    ensures
        0 <= digits_value(digits.take(k)) <= digits_value(digits),
    decreases digits.len() - k,
{
    if k == digits.len() {
        assert(digits.take(k) =~= digits);
        lemma_digits_nonnegative(digits);
    } else {
        lemma_digits_grow(digits, k + 1);
        assert(digits.take(k + 1).drop_last() =~= digits.take(k));
        lemma_digits_nonnegative(digits.take(k));
    }
}

proof fn lemma_digits_nonnegative(digits: Seq<u8>)
    requires
        forall|i: int| 0 <= i < digits.len() ==> 48 <= #[trigger] digits[i] <= 57,
    ensures
        0 <= digits_value(digits),
    decreases digits.len(),
{
    if digits.len() > 0 {
        lemma_digits_nonnegative(digits.drop_last());
    }
}

/// The length that the bytes of `text` from `from` up to `to` spell.
fn read_length(text: &[u8], from: usize, to: usize) -> (length: Option<usize>)
    requires
        from <= to <= text@.len(),
    ensures
        length == parse_length(text@.subrange(from as int, to as int)),
{
    let ghost part = text@.subrange(from as int, to as int);
    let start = if from < to && text[from] == 43 {
        from + 1
    } else {
        from
    };
    let ghost digits = unsigned(part);
    assert(digits =~= text@.subrange(start as int, to as int));
    if start == to {
        return None;
    }
    let mut value: usize = 0;
    let mut i: usize = start;
    assert(digits.take(0) =~= Seq::<u8>::empty());
    while i < to
        invariant
            from <= start <= i <= to <= text@.len(),
            digits == text@.subrange(start as int, to as int),
            digits == unsigned(text@.subrange(from as int, to as int)),
            forall|j: int| 0 <= j < i - start ==> 48 <= #[trigger] digits[j] <= 57,
            value == digits_value(digits.take(i - start)),
        decreases to - i,
    {
        let byte = text[i];
        if byte < 48 || byte > 57 {
            assert(digits[i - start] == byte);
            return None;
        }
        proof {
            assert(digits.take(i - start + 1).drop_last() =~= digits.take(i - start));
            assert(digits.take(i - start + 1).last() == byte);
        }
        let next = match value.checked_mul(10) {
            Some(tens) => tens.checked_add((byte - 48) as usize),
            None => None,
        };
        match next {
            Some(next) => {
                value = next;
            },
            None => {
                proof {
                    if is_digits(digits) {
                        lemma_digits_grow(digits, i - start + 1);
                    }
                }
                return None;
            },
        }
        i += 1;
    }
    assert(digits.take(to - start) =~= digits);
    Some(value)
}

impl PrefixPartLengths {
    /// Reads lengths written as decimal numbers with slashes between them.
    /// Text that is not read comes back as the error.
    pub fn from_str(s: &str) -> (result: Result<Self, String>)
        ensures
            match result {
                Ok(lengths) => parse_lengths(vstd::utf8::encode_utf8(s@)) == Some(lengths.0@),
                Err(text) => parse_lengths(vstd::utf8::encode_utf8(s@)) is None && text@ == s@,
            },
    {
        let text = s.as_bytes();
        let ghost all = text@;
        let mut lengths: Vec<usize> = Vec::new();
        let mut from: usize = 0;
        assert(all.skip(0) =~= all);
        assert(Seq::<usize>::empty() + Seq::<usize>::empty() =~= Seq::<usize>::empty());
        loop
            invariant
                from <= text@.len(),
                all == text@,
                all == vstd::utf8::encode_utf8(s@),
                parse_lengths(all) == followed_by(lengths@, parse_lengths(all.skip(from as int))),
            decreases text@.len() - from,
        {
            let ghost rest = all.skip(from as int);
            let mut to: usize = from;
            while to < text.len() && text[to] != 47
                invariant
                    from <= to <= text@.len(),
                    all == text@,
                    forall|i: int| from <= i < to ==> #[trigger] all[i] != 47,
                decreases text@.len() - to,
            {
                to += 1;
            }
            proof {
                assert forall|i: int| 0 <= i < to - from implies #[trigger] rest[i] != 47 by {
                    assert(rest[i] == all[from + i]);
                }
                lemma_first_slash_is(rest, to - from);
                assert(rest.take(to - from) =~= all.subrange(from as int, to as int));
            }
            let length = match read_length(text, from, to) {
                Some(length) => length,
                None => {
                    return Err(s.to_owned());
                },
            };
            let ghost before = lengths@;
            lengths.push(length);
            if to == text.len() {
                assert(before + seq![length] =~= lengths@);
                return Ok(PrefixPartLengths(lengths));
            }
            proof {
                assert(rest.skip(to - from + 1) =~= all.skip(to + 1));
                match parse_lengths(all.skip(to + 1)) {
                    Some(more) => {
                        assert(before + (seq![length] + more) =~= lengths@ + more);
                    },
                    None => {},
                }
            }
            from = to + 1;
        }
    }
}

/// Whether two lists of lengths are the same.
fn same_lengths(a: &Vec<usize>, b: &Vec<usize>) -> (same: bool)
    ensures
        same == (a@ == b@),
{
    if a.len() != b.len() {
        return false;
    }
    let mut i: usize = 0;
    while i < a.len()
        invariant
            i <= a.len(),
            a.len() == b.len(),
            forall|j: int| 0 <= j < i ==> a@[j] == b@[j],
        decreases a.len() - i,
    {
        if a[i] != b[i] {
            return false;
        }
        i += 1;
    }
    assert(a@ =~= b@);
    true
}

/// The lengths to open a store with, from those that the store shows and
/// those that were given.
pub fn check_prefix_part_lengths(inferred: Option<Vec<usize>>, provided: Option<Vec<usize>>) -> (result:
    Result<Vec<usize>, LengthsError>)
    ensures
        checked_view(result) == checked(lengths_view(inferred), lengths_view(provided)),
{
    match (inferred, provided) {
        (Some(inferred), Some(provided)) => {
            if same_lengths(&inferred, &provided) {
                Ok(inferred)
            } else {
                Err(LengthsError::PrefixPartLengthsMismatch { inferred, provided })
            }
        },
        (Some(inferred), None) => Ok(inferred),
        (None, Some(provided)) => Ok(provided),
        (None, None) => Err(LengthsError::MissingPrefixPartLengths),
    }
}

} // verus!
