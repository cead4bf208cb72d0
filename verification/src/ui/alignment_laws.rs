//! What holds of the ranges of every edit script.

use vstd::prelude::*;
use vstd::utf8::encode_utf8;
use crate::text::{byte_len, lemma_encode_concat};
use crate::ui::diff_utils::{
    change_start, changed_ranges, edit_tag, edited_at, in_ranges, lemma_edited_at_step,
    lemma_ranges_hold_edits, lemma_side_text_grows, side_text, side_value, ChangeTag, ChangeView,
};

verus! {

/// Of bytes that begin at byte `offset` of a text: those that lie in none of
/// the ranges, in order.
pub open spec fn unmarked_part(bytes: Seq<u8>, offset: int, ranges: Seq<(int, int)>) -> Seq<u8>
    decreases bytes.len(),
{
    if bytes.len() == 0 {
        Seq::empty()
    } else if in_ranges(ranges, offset + bytes.len() - 1) {
        unmarked_part(bytes.drop_last(), offset, ranges)
    } else {
        unmarked_part(bytes.drop_last(), offset, ranges).push(bytes.last())
    }
}

/// The bytes of a text that lie in none of the ranges, in order.
pub open spec fn unmarked(text: Seq<char>, ranges: Seq<(int, int)>) -> Seq<u8> {
    unmarked_part(encode_utf8(text), 0, ranges)
}

/// The text that both sides of an edit script share: the values of its
/// equal steps.
pub open spec fn shared_text(changes: Seq<ChangeView>) -> Seq<char>
    decreases changes.len(),
{
    if changes.len() == 0 {
        Seq::empty()
    } else if changes.last().tag == ChangeTag::Equal {
        shared_text(changes.drop_last()) + changes.last().value
    } else {
        shared_text(changes.drop_last())
    }
}

proof fn lemma_unmarked_concat(a: Seq<u8>, b: Seq<u8>, offset: int, ranges: Seq<(int, int)>)
    ensures
        unmarked_part(a + b, offset, ranges) == unmarked_part(a, offset, ranges) + unmarked_part(
            b,
            offset + a.len(),
            ranges,
        ),
    decreases b.len(),
{
    if b.len() > 0 {
        lemma_unmarked_concat(a, b.drop_last(), offset, ranges);
        assert((a + b).drop_last() =~= a + b.drop_last());
        assert(unmarked_part(a + b, offset, ranges) =~= unmarked_part(a, offset, ranges)
            + unmarked_part(b, offset + a.len(), ranges));
    } else {
        assert(a + b =~= a);
        assert(unmarked_part(a, offset, ranges) + unmarked_part(b, offset + a.len(), ranges)
            =~= unmarked_part(a, offset, ranges));
    }
}

/// Ranges that hold the same bytes of a part leave the same bytes of it.
proof fn lemma_unmarked_same(
    bytes: Seq<u8>,
    offset: int,
    ranges: Seq<(int, int)>,
    others: Seq<(int, int)>,
)
    requires
        forall|at: int|
            offset <= at < offset + bytes.len() ==> in_ranges(ranges, at) == in_ranges(others, at),
    ensures
        unmarked_part(bytes, offset, ranges) == unmarked_part(bytes, offset, others),
    decreases bytes.len(),
{
    if bytes.len() > 0 {
        lemma_unmarked_same(bytes.drop_last(), offset, ranges, others);
    }
}

/// A part that lies in the ranges as a whole leaves nothing; a part that
/// lies outside as a whole is left as it is.
proof fn lemma_unmarked_whole(bytes: Seq<u8>, offset: int, ranges: Seq<(int, int)>, marked: bool)
    requires
        forall|at: int| offset <= at < offset + bytes.len() ==> in_ranges(ranges, at) == marked,
    ensures
        unmarked_part(bytes, offset, ranges) == if marked {
            Seq::<u8>::empty()
        } else {
            bytes
        },
    decreases bytes.len(),
{
    if bytes.len() > 0 {
        lemma_unmarked_whole(bytes.drop_last(), offset, ranges, marked);
        if !marked {
            assert(bytes.drop_last().push(bytes.last()) =~= bytes);
        }
    }
}

/// An edit lies in the text of its side.
proof fn lemma_edited_within(changes: Seq<ChangeView>, old_side: bool, at: int)
    requires
        edited_at(changes, old_side, at),
    ensures
        0 <= at < byte_len(side_text(changes, old_side)),
{
    let k = choose|k: int|
        0 <= k < changes.len() && (#[trigger] changes[k]).tag == edit_tag(old_side)
            && change_start(changes, old_side, k) <= at < change_start(changes, old_side, k)
            + byte_len(changes[k].value);
    lemma_side_text_grows(changes, old_side, k);
    lemma_side_text_grows(changes, old_side, k + 1);
    assert(changes.take(k + 1).drop_last() =~= changes.take(k));
    assert(changes.take(k + 1).last() == changes[k]);
    lemma_encode_concat(side_text(changes.take(k), old_side), side_value(changes[k], old_side));
}

/// On either side, what the ranges leave of the text is the text that the
/// two sides share.
pub proof fn lemma_unmarked_is_shared(changes: Seq<ChangeView>, old_side: bool)
    ensures
        unmarked(side_text(changes, old_side), changed_ranges(changes, old_side)) == encode_utf8(
            shared_text(changes),
        ),
    decreases changes.len(),
{
    if changes.len() > 0 {
        let before = changes.drop_last();
        let step = changes.last();
        let head = encode_utf8(side_text(before, old_side));
        let value = encode_utf8(side_value(step, old_side));
        let earlier = changed_ranges(before, old_side);
        let ranges = changed_ranges(changes, old_side);
        let cut = head.len() as int;
        lemma_unmarked_is_shared(before, old_side);
        lemma_encode_concat(side_text(before, old_side), side_value(step, old_side));
        lemma_unmarked_concat(head, value, 0, ranges);
        assert forall|at: int| 0 <= at < cut implies in_ranges(ranges, at) == in_ranges(
            earlier,
            at,
        ) by {
            lemma_ranges_hold_edits(changes, old_side, at);
            lemma_ranges_hold_edits(before, old_side, at);
            lemma_edited_at_step(changes, old_side, at);
        }
        lemma_unmarked_same(head, 0, ranges, earlier);
        let marked = step.tag == edit_tag(old_side);
        assert forall|at: int| cut <= at < cut + value.len() implies in_ranges(ranges, at)
            == marked by {
            lemma_ranges_hold_edits(changes, old_side, at);
            lemma_edited_at_step(changes, old_side, at);
            if edited_at(before, old_side, at) {
                lemma_edited_within(before, old_side, at);
            }
        }
        lemma_unmarked_whole(value, cut, ranges, marked);
        if step.tag == ChangeTag::Equal {
            lemma_encode_concat(shared_text(before), step.value);
        } else {
            assert(unmarked_part(value, cut, ranges) =~= Seq::<u8>::empty());
            assert(encode_utf8(shared_text(before)) + Seq::<u8>::empty() =~= encode_utf8(
                shared_text(before),
            ));
        }
    }
}

/// What the ranges leave of the old side is what they leave of the new side.
pub proof fn lemma_remainders_agree(changes: Seq<ChangeView>)
    ensures
        unmarked(side_text(changes, true), changed_ranges(changes, true)) == unmarked(
            side_text(changes, false),
            changed_ranges(changes, false),
        ),
{
    lemma_unmarked_is_shared(changes, true);
    lemma_unmarked_is_shared(changes, false);
}

} // verus!
