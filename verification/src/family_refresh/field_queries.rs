//! Private, bounded review of frozen values: a selected field's text is paged
//! in fragments that never split a character and together lose nothing.
use crate::error::MigrationError;
use vstd::prelude::*;
use vstd::string::StringSliceAdditionalSpecFns;
use vstd::utf8::*;

verus! {

pub const FRAGMENT_BYTES: usize = 16 * 1024;

/// Whether `index` is a character boundary of the valid UTF-8 bytes `bytes`.
pub open spec fn boundary(bytes: Seq<u8>, index: int) -> bool {
    is_char_boundary(bytes, index)
}

proof fn lemma_first_scalar_len(bytes: Seq<u8>)
    requires
        valid_utf8(bytes),
        bytes.len() > 0,
    ensures
        1 <= length_of_first_scalar(bytes) <= 4,
        length_of_first_scalar(bytes) <= bytes.len(),
        valid_utf8(pop_first_scalar(bytes)),
        pop_first_scalar(bytes).len() == bytes.len() - length_of_first_scalar(bytes),
        is_char_boundary(bytes, length_of_first_scalar(bytes)),
{
    assert(is_char_boundary(pop_first_scalar(bytes), 0));
}

/// A boundary of the suffix starting at a boundary is a boundary of the whole.
proof fn lemma_boundary_shift(bytes: Seq<u8>, i: int, j: int)
    requires
        valid_utf8(bytes),
        is_char_boundary(bytes, i),
        0 <= j,
    ensures
        0 <= i <= bytes.len(),
        valid_utf8(bytes.subrange(i, bytes.len() as int)),
        is_char_boundary(bytes, i + j) <==> is_char_boundary(
            bytes.subrange(i, bytes.len() as int),
            j,
        ),
    decreases bytes.len(),
{
    if i == 0 {
        assert(bytes.subrange(0, bytes.len() as int) =~= bytes);
    } else {
        lemma_first_scalar_len(bytes);
        let l = length_of_first_scalar(bytes);
        let tail = pop_first_scalar(bytes);
        lemma_boundary_shift(tail, i - l, j);
        assert(tail.subrange(i - l, tail.len() as int) =~= bytes.subrange(i, bytes.len() as int));
    }
}

/// The largest character boundary at or below `limit` (the end of a
/// fragment that starts at `offset` and holds at most `FRAGMENT_BYTES`).
pub open spec fn fragment_end(bytes: Seq<u8>, offset: int, end: int) -> bool {
    let limit = if offset + FRAGMENT_BYTES < bytes.len() {
        offset + FRAGMENT_BYTES
    } else {
        bytes.len() as int
    };
    &&& offset <= end <= limit
    &&& is_char_boundary(bytes, end)
    &&& forall|m: int| end < m <= limit ==> !is_char_boundary(bytes, m)
}

/// One fragment of `text` starting at byte `offset`: the longest prefix of at
/// most `FRAGMENT_BYTES` bytes that ends on a character boundary, and the byte
/// offset where the next fragment starts.
pub fn part(text: &str, offset: usize) -> (fragment: Result<(&str, usize), MigrationError>)
    requires
        text.spec_bytes().len() <= usize::MAX,
    ensures
        fragment is Ok <==> (offset <= text.spec_bytes().len() && is_char_boundary(
            text.spec_bytes(),
            offset as int,
        )),
        fragment matches Err(e) ==> e == MigrationError::InvalidInput,
        fragment matches Ok((p, end)) ==> {
            &&& fragment_end(text.spec_bytes(), offset as int, end as int)
            &&& p.spec_bytes() == text.spec_bytes().subrange(offset as int, end as int)
            &&& offset < text.spec_bytes().len() ==> offset < end
        },
{
    let ghost bytes = text.spec_bytes();
    proof {
        broadcast use encode_utf8_valid_utf8;
        assert(valid_utf8(bytes));
    }
    if offset > text.len() || !text.is_char_boundary(offset) {
        return Err(MigrationError::InvalidInput);
    }
    let (_, rest) = text.split_at(offset);
    let ghost rb = rest.spec_bytes();
    proof {
        lemma_boundary_shift(bytes, offset as int, 0);
        assert(rb =~= bytes.subrange(offset as int, bytes.len() as int));
    }
    let rest_len = rest.len();
    let limit = if rest_len < FRAGMENT_BYTES {
        rest_len
    } else {
        FRAGMENT_BYTES
    };
    let ghost first: int = if rest_len == 0 {
        0
    } else {
        length_of_first_scalar(rb)
    };
    proof {
        if rest_len > 0 {
            lemma_first_scalar_len(rb);
        }
    }
    let mut k = limit;
    while !rest.is_char_boundary(k)
        invariant
            rb == rest.spec_bytes(),
            valid_utf8(rb),
            limit <= rb.len(),
            first <= k <= limit,
            is_char_boundary(rb, first),
            rest_len > 0 ==> first >= 1,
            forall|m: int| k < m <= limit ==> !is_char_boundary(rb, m),
        decreases k,
    {
        k = k - 1;
    }
    let (p, _) = rest.split_at(k);
    proof {
        lemma_boundary_shift(bytes, offset as int, k as int);
        assert forall|m: int|
            offset + k < m <= offset + limit implies !is_char_boundary(bytes, m) by {
            lemma_boundary_shift(bytes, offset as int, m - offset);
        }
        assert(p.spec_bytes() =~= bytes.subrange(offset as int, offset + k));
    }
    Ok((p, offset + k))
}

/// Paging is lossless: the fragment from `offset` followed by everything from
/// its end is exactly everything from `offset`, and the next offset is again a
/// valid start.
pub proof fn law_fragments_are_lossless(bytes: Seq<u8>, offset: int, end: int)
    requires
        valid_utf8(bytes),
        0 <= offset,
        fragment_end(bytes, offset, end),
    ensures
        bytes.subrange(offset, end) + bytes.subrange(end, bytes.len() as int) =~= bytes.subrange(
            offset,
            bytes.len() as int,
        ),
        end - offset <= FRAGMENT_BYTES,
        is_char_boundary(bytes, end),
        end <= bytes.len(),
{
}

/// The fragments between consecutive page ends, joined in order.
pub open spec fn joined(bytes: Seq<u8>, ends: Seq<int>) -> Seq<u8>
    decreases ends.len(),
{
    if ends.len() <= 1 {
        Seq::empty()
    } else {
        joined(bytes, ends.drop_last()) + bytes.subrange(ends[ends.len() - 2], ends.last())
    }
}

/// A page that starts at a boundary before the end moves forward.
proof fn lemma_fragment_progress(bytes: Seq<u8>, offset: int, end: int)
    requires
        valid_utf8(bytes),
        0 <= offset < bytes.len(),
        is_char_boundary(bytes, offset),
        fragment_end(bytes, offset, end),
    ensures
        offset < end,
{
    lemma_boundary_shift(bytes, offset, 0);
    let rest = bytes.subrange(offset, bytes.len() as int);
    lemma_first_scalar_len(rest);
    let l = length_of_first_scalar(rest);
    lemma_boundary_shift(bytes, offset, l);
}

/// Paging a text from its start, each call starting where the last one
/// ended, loses and repeats nothing: the fragments read so far, joined, are
/// exactly the text up to the last end; every end is a valid next start; and
/// every call on text that is not yet exhausted moves forward.
pub proof fn law_paging_covers_the_text(bytes: Seq<u8>, ends: Seq<int>)
    requires
        valid_utf8(bytes),
        ends.len() >= 1,
        ends[0] == 0,
        forall|k: int| 0 < k < ends.len() ==> fragment_end(bytes, ends[k - 1], #[trigger] ends[k]),
    ensures
        joined(bytes, ends) == bytes.subrange(0, ends.last()),
        forall|k: int| 0 <= k < ends.len() ==> is_char_boundary(bytes, #[trigger] ends[k]) && ends[k] <= bytes.len(),
        forall|k: int| 0 < k < ends.len() && ends[k - 1] < bytes.len() ==> ends[k - 1] < #[trigger] ends[k],
    decreases ends.len(),
{
    lemma_boundary_shift(bytes, 0, 0);
    if ends.len() > 1 {
        let prev = ends.drop_last();
        assert forall|k: int| 0 < k < prev.len() implies fragment_end(bytes, prev[k - 1], #[trigger] prev[k]) by {
            assert(ends[k] == prev[k] && ends[k - 1] == prev[k - 1]);
        }
        law_paging_covers_the_text(bytes, prev);
        let n = ends.len() - 1;
        assert(fragment_end(bytes, ends[n - 1], ends[n]));
        assert(prev[n - 1] == ends[n - 1]);
        assert(is_char_boundary(bytes, prev[n - 1]));
        assert(bytes.subrange(0, ends[n - 1]) + bytes.subrange(ends[n - 1], ends[n]) =~= bytes.subrange(0, ends[n]));
        assert forall|k: int| 0 <= k < ends.len() implies is_char_boundary(bytes, #[trigger] ends[k]) && ends[k] <= bytes.len() by {
            if k < n {
                assert(prev[k] == ends[k]);
            }
        }
        assert forall|k: int| 0 < k < ends.len() && ends[k - 1] < bytes.len() implies ends[k - 1] < #[trigger] ends[k] by {
            if k < n {
                assert(prev[k] == ends[k] && prev[k - 1] == ends[k - 1]);
            } else {
                lemma_fragment_progress(bytes, ends[n - 1], ends[n]);
            }
        }
    } else {
        assert(bytes.subrange(0, 0) =~= Seq::<u8>::empty());
    }
}


/// A page of field descriptors.
pub struct Page {
    pub limit: Option<u16>,
    pub cursor: Option<String>,
}

/// The position of the next fragment of one field.
pub struct FragmentQuery {
    pub cursor: Option<String>,
}

/// One reviewable field of an item, without its text.
pub struct Descriptor {
    pub id: String,
    pub section: String,
    pub label: String,
    pub total_bytes: String,
}

/// The fields of one item, a page at a time.
pub struct Fields {
    pub item_id: u128,
    pub items: Vec<Descriptor>,
    pub next_cursor: Option<String>,
}

/// One bounded fragment of a field's text.
pub struct Fragment {
    pub item_id: u128,
    pub field_id: String,
    pub total_bytes: u64,
    pub offset: u64,
    pub text: String,
    pub next_cursor: Option<String>,
}

} // verus!
