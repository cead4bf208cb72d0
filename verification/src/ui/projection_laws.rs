//! What holds of every overlay of ranges on fragments.

use vstd::prelude::*;
use vstd::utf8::{
    decode_utf8_encode_utf8, encode_utf8, encode_utf8_valid_utf8,
    is_char_boundary_iff_not_is_continuation_byte, is_char_boundary_start_end_of_seq,
    valid_utf8_split,
};
use crate::text::{byte_len, on_boundary};
use crate::ui::diff_utils::{
    clamp, cuts_on_boundaries, in_ranges, offset_of, on_background, piece, pieces, project,
    project_from, projectable, ranges_ordered, rest_piece,
};
use crate::ui::style::{Color, FragmentView, Style};

verus! {

/// The bytes of a fragment, each with the style of the fragment.
pub open spec fn fragment_bytes(fragment: FragmentView) -> Seq<(Style, u8)> {
    Seq::new(
        byte_len(fragment.text) as nat,
        |i: int| (fragment.style, encode_utf8(fragment.text)[i]),
    )
}

/// The bytes of a line, each with the style it is shown in.
pub open spec fn styled_bytes(fragments: Seq<FragmentView>) -> Seq<(Style, u8)>
    decreases fragments.len(),
{
    if fragments.len() == 0 {
        Seq::empty()
    } else {
        styled_bytes(fragments.drop_last()) + fragment_bytes(fragments.last())
    }
}

/// The background of byte `at` of the line.
pub open spec fn background_at(ranges: Seq<(int, int)>, base: Color, emphasis: Color, at: int) -> Color {
    if in_ranges(ranges, at) {
        emphasis
    } else {
        base
    }
}

/// The bytes of a line, each on the background that the ranges give it.
pub open spec fn recoloured(
    bytes: Seq<(Style, u8)>,
    ranges: Seq<(int, int)>,
    base: Color,
    emphasis: Color,
) -> Seq<(Style, u8)> {
    Seq::new(
        bytes.len(),
        |i: int| (bytes[i].0.with_bg(background_at(ranges, base, emphasis, i)), bytes[i].1),
    )
}

proof fn lemma_styled_bytes_concat(a: Seq<FragmentView>, b: Seq<FragmentView>)
    ensures
        styled_bytes(a + b) == styled_bytes(a) + styled_bytes(b),
    decreases b.len(),
{
    if b.len() > 0 {
        lemma_styled_bytes_concat(a, b.drop_last());
        assert((a + b).drop_last() =~= a + b.drop_last());
    }
}

proof fn lemma_styled_bytes_one(fragment: FragmentView)
    ensures
        styled_bytes(seq![fragment]) == fragment_bytes(fragment),
{
    reveal_with_fuel(styled_bytes, 2);
}

/// The bytes of the first `k` fragments come first among the bytes of the
/// line, and the bytes of fragment `k` follow them.
proof fn lemma_styled_bytes_take(fragments: Seq<FragmentView>, k: int)
    requires
        0 <= k < fragments.len(),
    ensures
        styled_bytes(fragments.take(k)).len() == offset_of(fragments, k),
        styled_bytes(fragments.take(k + 1)) == styled_bytes(fragments.take(k)) + fragment_bytes(
            fragments[k],
        ),
    decreases k,
{
    assert(fragments.take(k + 1).drop_last() =~= fragments.take(k));
    if k > 0 {
        lemma_styled_bytes_take(fragments, k - 1);
    }
}

proof fn lemma_styled_bytes_all(fragments: Seq<FragmentView>)
    ensures
        styled_bytes(fragments).len() == offset_of(fragments, fragments.len() as int),
{
    if fragments.len() > 0 {
        let n = fragments.len() as int;
        lemma_styled_bytes_take(fragments, n - 1);
    }
}

/// A piece of a fragment holds the bytes of the fragment that it was cut from.
proof fn lemma_piece_bytes(fragment: FragmentView, from: int, to: int, bg: Color)
    requires
        0 <= from <= to <= byte_len(fragment.text),
        on_boundary(fragment.text, from),
        on_boundary(fragment.text, to),
    ensures
        fragment_bytes(piece(fragment, from, to, bg)) == Seq::new(
            (to - from) as nat,
            |i: int| (fragment.style.with_bg(bg), encode_utf8(fragment.text)[from + i]),
        ),
{
    let bytes = encode_utf8(fragment.text);
    let prefix = bytes.subrange(0, to);
    let part = bytes.subrange(from, to);
    encode_utf8_valid_utf8(fragment.text);
    valid_utf8_split(bytes, to);
    if from == to {
        is_char_boundary_start_end_of_seq(prefix);
    } else {
        is_char_boundary_iff_not_is_continuation_byte(bytes, from);
        is_char_boundary_iff_not_is_continuation_byte(prefix, from);
    }
    valid_utf8_split(prefix, from);
    assert(prefix.subrange(from, prefix.len() as int) =~= part);
    decode_utf8_encode_utf8(part);
}

/// The bytes of a fragment from byte `last` of the line on, each on the
/// background that the ranges give it.
spec fn recoloured_rest(
    fragment: FragmentView,
    offset: int,
    ranges: Seq<(int, int)>,
    last: int,
    base: Color,
    emphasis: Color,
) -> Seq<(Style, u8)> {
    Seq::new(
        (offset + byte_len(fragment.text) - last) as nat,
        |i: int|
            (
                fragment.style.with_bg(background_at(ranges, base, emphasis, last + i)),
                encode_utf8(fragment.text)[last - offset + i],
            ),
    )
}

/// No range before `j` reaches beyond byte `last`, and no range from `j` on
/// begins before it, as far as the fragment goes.
spec fn ranges_split_at(ranges: Seq<(int, int)>, j: int, offset: int, end: int, last: int) -> bool {
    &&& forall|i: int| 0 <= i < j ==> clamp((#[trigger] ranges[i]).1, offset, end) <= last
    &&& forall|i: int| j <= i < ranges.len() ==> clamp((#[trigger] ranges[i]).0, offset, end) >= last
}

proof fn lemma_outside_ranges(
    ranges: Seq<(int, int)>,
    j: int,
    offset: int,
    end: int,
    last: int,
    upto: int,
    at: int,
)
    requires
        ranges_ordered(ranges),
        0 <= j <= ranges.len(),
        offset <= last <= at < upto <= end,
        forall|i: int| 0 <= i < j ==> clamp((#[trigger] ranges[i]).1, offset, end) <= last,
        forall|i: int| j <= i < ranges.len() ==> clamp((#[trigger] ranges[i]).0, offset, end) >= upto,
    ensures
        !in_ranges(ranges, at),
{
}

proof fn lemma_rest_piece_bytes(
    fragment: FragmentView,
    offset: int,
    ranges: Seq<(int, int)>,
    j: int,
    last: int,
    base: Color,
    emphasis: Color,
)
    requires
        ranges_ordered(ranges),
        0 <= j <= ranges.len(),
        offset <= last <= offset + byte_len(fragment.text),
        on_boundary(fragment.text, last - offset),
        forall|i: int|
            0 <= i < j ==> clamp(
                (#[trigger] ranges[i]).1,
                offset,
                offset + byte_len(fragment.text),
            ) <= last,
        forall|i: int|
            j <= i < ranges.len() ==> (#[trigger] ranges[i]).0 >= offset + byte_len(fragment.text),
    ensures
        styled_bytes(rest_piece(fragment, offset, last, base)) == recoloured_rest(
            fragment,
            offset,
            ranges,
            last,
            base,
            emphasis,
        ),
{
    let size = byte_len(fragment.text);
    let end = offset + size;
    let rest = rest_piece(fragment, offset, last, base);
    let target = recoloured_rest(fragment, offset, ranges, last, base, emphasis);
    if last < end {
        encode_utf8_valid_utf8(fragment.text);
        is_char_boundary_start_end_of_seq(encode_utf8(fragment.text));
        lemma_piece_bytes(fragment, last - offset, size, base);
        lemma_styled_bytes_one(piece(fragment, last - offset, size, base));
        assert forall|at: int| last <= at < end implies !in_ranges(ranges, at) by {
            lemma_outside_ranges(ranges, j, offset, end, last, end, at);
        }
    }
}

#[verifier::rlimit(40)]
proof fn lemma_pieces_bytes(
    fragment: FragmentView,
    offset: int,
    ranges: Seq<(int, int)>,
    j: int,
    last: int,
    base: Color,
    emphasis: Color,
)
    requires
        ranges_ordered(ranges),
        cuts_on_boundaries(fragment.text, offset, ranges),
        0 <= j <= ranges.len(),
        offset <= last <= offset + byte_len(fragment.text),
        on_boundary(fragment.text, last - offset),
        ranges_split_at(ranges, j, offset, offset + byte_len(fragment.text), last),
    ensures
        styled_bytes(pieces(fragment, offset, ranges, j, last, base, emphasis)) == recoloured_rest(
            fragment,
            offset,
            ranges,
            last,
            base,
            emphasis,
        ),
    decreases ranges.len() - j,
{
    let size = byte_len(fragment.text);
    let end = offset + size;
    let target = recoloured_rest(fragment, offset, ranges, last, base, emphasis);
    if j >= ranges.len() {
        lemma_rest_piece_bytes(fragment, offset, ranges, j, last, base, emphasis);
    } else if ranges[j].1 <= offset {
        assert(ranges_split_at(ranges, j + 1, offset, end, last)) by {
            assert(clamp(ranges[j].1, offset, end) == offset);
        }
        lemma_pieces_bytes(fragment, offset, ranges, j + 1, last, base, emphasis);
    } else if ranges[j].0 >= end {
        assert forall|i: int| j <= i < ranges.len() implies (#[trigger] ranges[i]).0 >= end by {
            if i > j {
                assert(ranges[j].1 <= ranges[i].0);
                assert(ranges[j].0 <= ranges[j].1);
            }
        }
        lemma_rest_piece_bytes(fragment, offset, ranges, j, last, base, emphasis);
    } else {
        let from = clamp(ranges[j].0, offset, end);
        let to = clamp(ranges[j].1, offset, end);
        assert(ranges[j].0 <= ranges[j].1);
        assert(from >= last);
        assert(from - offset == clamp(ranges[j].0 - offset, 0, size));
        assert(to - offset == clamp(ranges[j].1 - offset, 0, size));
        let before = if from > last {
            seq![piece(fragment, last - offset, from - offset, base)]
        } else {
            Seq::<FragmentView>::empty()
        };
        let middle = seq![piece(fragment, from - offset, to - offset, emphasis)];
        let after = pieces(fragment, offset, ranges, j + 1, to, base, emphasis);
        assert(ranges_split_at(ranges, j + 1, offset, end, to)) by {
            assert forall|i: int| 0 <= i < j + 1 implies clamp(
                (#[trigger] ranges[i]).1,
                offset,
                end,
            ) <= to by {
                if i < j {
                    assert(clamp(ranges[i].1, offset, end) <= last);
                }
            }
            assert forall|i: int| j + 1 <= i < ranges.len() implies clamp(
                (#[trigger] ranges[i]).0,
                offset,
                end,
            ) >= to by {
                assert(ranges[j].1 <= ranges[i].0);
            }
        }
        lemma_pieces_bytes(fragment, offset, ranges, j + 1, to, base, emphasis);
        lemma_styled_bytes_concat(before + middle, after);
        lemma_styled_bytes_concat(before, middle);
        lemma_styled_bytes_one(middle[0]);
        lemma_piece_bytes(fragment, from - offset, to - offset, emphasis);
        if from > last {
            lemma_styled_bytes_one(before[0]);
            lemma_piece_bytes(fragment, last - offset, from - offset, base);
        }
        assert forall|at: int| last <= at < from implies !in_ranges(ranges, at) by {
            assert forall|i: int| j <= i < ranges.len() implies clamp(
                (#[trigger] ranges[i]).0,
                offset,
                end,
            ) >= from by {
                if i > j {
                    assert(ranges[j].1 <= ranges[i].0);
                }
            }
            lemma_outside_ranges(ranges, j, offset, end, last, from, at);
        }
        assert forall|at: int| from <= at < to implies in_ranges(ranges, at) by {
            assert(ranges[j].0 <= at < ranges[j].1);
        }
        assert(styled_bytes(before + middle + after) =~= target);
    }
}

proof fn lemma_project_from_bytes(
    fragments: Seq<FragmentView>,
    k: int,
    ranges: Seq<(int, int)>,
    base: Color,
    emphasis: Color,
)
    requires
        0 <= k <= fragments.len(),
        ranges_ordered(ranges),
        forall|i: int|
            0 <= i < fragments.len() ==> cuts_on_boundaries(
                (#[trigger] fragments[i]).text,
                offset_of(fragments, i),
                ranges,
            ),
    ensures
        styled_bytes(project_from(fragments, k, offset_of(fragments, k), ranges, base, emphasis))
            == recoloured(styled_bytes(fragments), ranges, base, emphasis).skip(
            offset_of(fragments, k),
        ),
    decreases fragments.len() - k,
{
    let all = styled_bytes(fragments);
    let n = fragments.len() as int;
    let offset = offset_of(fragments, k);
    lemma_styled_bytes_all(fragments);
    if k < n {
        let fragment = fragments[k];
        let size = byte_len(fragment.text);
        let first = pieces(fragment, offset, ranges, 0, offset, base, emphasis);
        let rest = project_from(fragments, k + 1, offset + size, ranges, base, emphasis);
        lemma_project_from_bytes(fragments, k + 1, ranges, base, emphasis);
        lemma_styled_bytes_take(fragments, k);
        lemma_styled_bytes_concat(first, rest);
        lemma_styled_bytes_prefix(fragments, k + 1);
        encode_utf8_valid_utf8(fragment.text);
        is_char_boundary_start_end_of_seq(encode_utf8(fragment.text));
        assert(ranges_split_at(ranges, 0, offset, offset + size, offset));
        lemma_pieces_bytes(fragment, offset, ranges, 0, offset, base, emphasis);
        let target = recoloured(all, ranges, base, emphasis);
        assert(styled_bytes(first) =~= target.subrange(offset, offset + size)) by {
            assert forall|i: int| 0 <= i < size implies all[offset + i] == (
                fragment.style,
                encode_utf8(fragment.text)[i],
            ) by {
                assert(all[offset + i] == styled_bytes(fragments.take(k + 1))[offset + i]);
            }
        }
        assert(styled_bytes(rest) =~= target.skip(offset + size));
        assert(styled_bytes(first + rest) =~= target.skip(offset));
    } else {
        assert(fragments.take(k) =~= fragments);
        assert(styled_bytes(
            project_from(fragments, k, offset, ranges, base, emphasis),
        ) =~= recoloured(all, ranges, base, emphasis).skip(offset));
    }
}

/// The bytes of the first `k` fragments are the first bytes of the line.
proof fn lemma_styled_bytes_prefix(fragments: Seq<FragmentView>, k: int)
    requires
        0 <= k <= fragments.len(),
    ensures
        styled_bytes(fragments.take(k)).len() <= styled_bytes(fragments).len(),
        forall|i: int|
            0 <= i < styled_bytes(fragments.take(k)).len() ==> styled_bytes(fragments)[i]
                == #[trigger] styled_bytes(fragments.take(k))[i],
    decreases fragments.len() - k,
{
    if k < fragments.len() {
        lemma_styled_bytes_prefix(fragments, k + 1);
        lemma_styled_bytes_take(fragments, k);
        let shorter = styled_bytes(fragments.take(k));
        let longer = styled_bytes(fragments.take(k + 1));
        assert forall|i: int| 0 <= i < shorter.len() implies styled_bytes(fragments)[i]
            == #[trigger] shorter[i] by {
            assert(longer[i] == shorter[i]);
        }
    } else {
        assert(fragments.take(k) =~= fragments);
    }
}

proof fn lemma_background_bytes(fragments: Seq<FragmentView>, bg: Color)
    ensures
        styled_bytes(Seq::new(fragments.len(), |k: int| on_background(fragments[k], bg)))
            == Seq::new(
            styled_bytes(fragments).len(),
            |i: int| (styled_bytes(fragments)[i].0.with_bg(bg), styled_bytes(fragments)[i].1),
        ),
    decreases fragments.len(),
{
    let shown = Seq::new(fragments.len(), |k: int| on_background(fragments[k], bg));
    if fragments.len() > 0 {
        let before = fragments.drop_last();
        lemma_background_bytes(before, bg);
        assert(shown.drop_last() =~= Seq::new(before.len(), |k: int| on_background(before[k], bg)));
    }
}

/// An overlay changes backgrounds and nothing else. Byte for byte, the line
/// that comes out is the line that went in: each byte keeps the style of the
/// fragment it came from, but for the background, which is the emphasis
/// background for the bytes that lie in a range and the base background for
/// all others. So no fragment that comes out lies partly in a range and
/// partly outside.
pub proof fn lemma_project_bytes(
    fragments: Seq<FragmentView>,
    ranges: Seq<(int, int)>,
    base: Color,
    emphasis: Color,
)
    requires
        ranges.len() > 0 ==> projectable(fragments, ranges),
    ensures
        styled_bytes(project(fragments, ranges, base, emphasis)) == recoloured(
            styled_bytes(fragments),
            ranges,
            base,
            emphasis,
        ),
{
    if ranges.len() == 0 {
        lemma_background_bytes(fragments, base);
    } else {
        lemma_project_from_bytes(fragments, 0, ranges, base, emphasis);
    }
}

} // verus!
