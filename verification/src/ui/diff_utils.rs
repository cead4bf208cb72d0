//! Changed ranges inside a pair of lines, and their overlay on styled text.

use vstd::prelude::*;
use vstd::string::StringSliceAdditionalSpecFns;
use vstd::utf8::{
    decode_utf8, encode_utf8, encode_utf8_decode_utf8, encode_utf8_valid_utf8, is_char_boundary,
    is_char_boundary_iff_not_is_continuation_byte, is_char_boundary_start_end_of_seq, valid_utf8,
    valid_utf8_split,
};
use core::ops::Range;
use crate::text::{
    byte_len, lemma_boundary_after_prefix, lemma_boundary_extends, lemma_boundary_restricts,
    lemma_boundary_shifts, lemma_byte_len_positive, lemma_encode_concat, on_boundary,
};
use crate::ui::alignment_laws::{lemma_remainders_agree, unmarked};
use crate::ui::style::{joined_text, Color, Fragment, FragmentView};

verus! {

/// The characters of `text` that its bytes `from..to` encode.
pub open spec fn byte_slice(text: Seq<char>, from: int, to: int) -> Seq<char> {
    decode_utf8(encode_utf8(text).subrange(from, to))
}

pub open spec fn clamp(x: int, low: int, high: int) -> int {
    if x < low {
        low
    } else if x > high {
        high
    } else {
        x
    }
}

/// Ranges as pairs of start and end.
pub open spec fn range_pairs(ranges: Seq<Range<usize>>) -> Seq<(int, int)> {
    Seq::new(ranges.len(), |i: int| (ranges[i].start as int, ranges[i].end as int))
}

/// Does byte `at` of the line lie in one of the ranges?
pub open spec fn in_ranges(ranges: Seq<(int, int)>, at: int) -> bool {
    exists|j: int| 0 <= j < ranges.len() && (#[trigger] ranges[j]).0 <= at < ranges[j].1
}

/// Ranges in ascending order that do not overlap.
pub open spec fn ranges_ordered(ranges: Seq<(int, int)>) -> bool {
    &&& forall|j: int| 0 <= j < ranges.len() ==> (#[trigger] ranges[j]).0 <= ranges[j].1
    &&& forall|i: int, j: int|
        0 <= i < j < ranges.len() ==> (#[trigger] ranges[i]).1 <= (#[trigger] ranges[j]).0
}

/// Number of bytes that the first `k` fragments take.
pub open spec fn offset_of(fragments: Seq<FragmentView>, k: int) -> int
    decreases k,
{
    if k <= 0 {
        0
    } else {
        offset_of(fragments, k - 1) + byte_len(fragments[k - 1].text)
    }
}

/// Where a range ends fall inside a text that starts at byte `offset` of the
/// line, they fall on character boundaries of it.
pub open spec fn cuts_on_boundaries(text: Seq<char>, offset: int, ranges: Seq<(int, int)>) -> bool {
    forall|j: int|
        0 <= j < ranges.len() ==> {
            &&& on_boundary(text, clamp((#[trigger] ranges[j]).0 - offset, 0, byte_len(text)))
            &&& on_boundary(text, clamp(ranges[j].1 - offset, 0, byte_len(text)))
        }
}

/// The ranges can be laid over the fragments: they are ordered, they cut no
/// character in two, and the offsets of the line fit the machine.
pub open spec fn projectable(fragments: Seq<FragmentView>, ranges: Seq<(int, int)>) -> bool {
    &&& ranges_ordered(ranges)
    &&& offset_of(fragments, fragments.len() as int) <= usize::MAX
    &&& forall|k: int|
        0 <= k < fragments.len() ==> cuts_on_boundaries(
            (#[trigger] fragments[k]).text,
            offset_of(fragments, k),
            ranges,
        )
}

/// The bytes `from..to` of a fragment, on the given background.
pub open spec fn piece(fragment: FragmentView, from: int, to: int, bg: Color) -> FragmentView {
    FragmentView { style: fragment.style.with_bg(bg), text: byte_slice(fragment.text, from, to) }
}

pub open spec fn on_background(fragment: FragmentView, bg: Color) -> FragmentView {
    FragmentView { style: fragment.style.with_bg(bg), text: fragment.text }
}

/// What is left of a fragment after byte `last` of the line, on the base
/// background; nothing if the fragment ends there.
pub open spec fn rest_piece(fragment: FragmentView, offset: int, last: int, base: Color) -> Seq<
    FragmentView,
> {
    let end = offset + byte_len(fragment.text);
    if last < end {
        seq![piece(fragment, last - offset, end - offset, base)]
    } else {
        Seq::empty()
    }
}

/// The pieces of a fragment that starts at byte `offset` of the line, from
/// byte `last` of the line on, cut by `ranges[j..]`: what lies in a range is
/// on the emphasis background, what lies between ranges on the base
/// background.
pub open spec fn pieces(
    fragment: FragmentView,
    offset: int,
    ranges: Seq<(int, int)>,
    j: int,
    last: int,
    base: Color,
    emphasis: Color,
) -> Seq<FragmentView>
    decreases ranges.len() - j,
{
    let end = offset + byte_len(fragment.text);
    if j < 0 || j >= ranges.len() {
        rest_piece(fragment, offset, last, base)
    } else if ranges[j].1 <= offset {
        pieces(fragment, offset, ranges, j + 1, last, base, emphasis)
    } else if ranges[j].0 >= end {
        rest_piece(fragment, offset, last, base)
    } else {
        let from = clamp(ranges[j].0, offset, end);
        let to = clamp(ranges[j].1, offset, end);
        let before = if from > last {
            seq![piece(fragment, last - offset, from - offset, base)]
        } else {
            Seq::empty()
        };
        before + seq![piece(fragment, from - offset, to - offset, emphasis)] + pieces(
            fragment,
            offset,
            ranges,
            j + 1,
            to,
            base,
            emphasis,
        )
    }
}

/// The pieces of `fragments[k..]`, the first of which starts at byte `offset`.
pub open spec fn project_from(
    fragments: Seq<FragmentView>,
    k: int,
    offset: int,
    ranges: Seq<(int, int)>,
    base: Color,
    emphasis: Color,
) -> Seq<FragmentView>
    decreases fragments.len() - k,
{
    if k < 0 || k >= fragments.len() {
        Seq::empty()
    } else {
        pieces(fragments[k], offset, ranges, 0, offset, base, emphasis) + project_from(
            fragments,
            k + 1,
            offset + byte_len(fragments[k].text),
            ranges,
            base,
            emphasis,
        )
    }
}

/// The fragments of a line with the ranges laid over them. Without ranges,
/// every fragment is put on the base background as it is. With ranges, every
/// fragment is cut where a range begins or ends inside it. A fragment
/// without text then leaves nothing, unless a range begins before it and ends
/// after it: there it leaves a piece without text on the emphasis background.
pub open spec fn project(
    fragments: Seq<FragmentView>,
    ranges: Seq<(int, int)>,
    base: Color,
    emphasis: Color,
) -> Seq<FragmentView> {
    if ranges.len() == 0 {
        Seq::new(fragments.len(), |k: int| on_background(fragments[k], base))
    } else {
        project_from(fragments, 0, 0, ranges, base, emphasis)
    }
}

proof fn lemma_boundary_in_prefix(bytes: Seq<u8>, from: int, to: int)
    requires
        valid_utf8(bytes),
        0 <= from <= to <= bytes.len(),
        is_char_boundary(bytes, from),
        is_char_boundary(bytes, to),
    ensures
        valid_utf8(bytes.subrange(0, to)),
        is_char_boundary(bytes.subrange(0, to), from),
{
    let prefix = bytes.subrange(0, to);
    valid_utf8_split(bytes, to);
    if from == to {
        is_char_boundary_start_end_of_seq(prefix);
    } else {
        is_char_boundary_iff_not_is_continuation_byte(bytes, from);
        is_char_boundary_iff_not_is_continuation_byte(prefix, from);
    }
}

/// The part of `s` between two byte offsets.
pub fn slice_str<'a>(s: &'a str, from: usize, to: usize) -> (r: &'a str)
    requires
        from <= to <= byte_len(s@),
        on_boundary(s@, from as int),
        on_boundary(s@, to as int),
    ensures
        r@ == byte_slice(s@, from as int, to as int),
{
    proof {
        encode_utf8_valid_utf8(s@);
        lemma_boundary_in_prefix(s.spec_bytes(), from as int, to as int);
    }
    let (head, _) = s.split_at(to);
    let (_, mid) = head.split_at(from);
    proof {
        assert(mid.spec_bytes() =~= s.spec_bytes().subrange(from as int, to as int));
        encode_utf8_decode_utf8(mid@);
    }
    mid
}

/// Ranges that end at or before `offset` cut nothing of a fragment that
/// starts there.
proof fn lemma_pieces_skip(
    fragment: FragmentView,
    offset: int,
    ranges: Seq<(int, int)>,
    j: int,
    first: int,
    last: int,
    base: Color,
    emphasis: Color,
)
    requires
        0 <= j <= first <= ranges.len(),
        forall|i: int| j <= i < first ==> (#[trigger] ranges[i]).1 <= offset,
    ensures
        pieces(fragment, offset, ranges, j, last, base, emphasis) == pieces(
            fragment,
            offset,
            ranges,
            first,
            last,
            base,
            emphasis,
        ),
    decreases first - j,
{
    if j < first {
        lemma_pieces_skip(fragment, offset, ranges, j + 1, first, last, base, emphasis);
    }
}

fn push_fragment(out: &mut Vec<Fragment>, fragment: Fragment)
    ensures
        final(out).deep_view() == old(out).deep_view().push(fragment@),
{
    out.push(fragment);
}

/// Appends to `out` the pieces of one fragment, which starts at byte `offset`
/// of the line. The ranges before `first` are known to end before it.
fn cut_fragment(
    span: &Fragment,
    offset: usize,
    diff_ranges: &[Range<usize>],
    first: usize,
    base_bg: Color,
    highlight_bg: Color,
    out: &mut Vec<Fragment>,
)
    requires
        ranges_ordered(range_pairs(diff_ranges@)),
        cuts_on_boundaries(span@.text, offset as int, range_pairs(diff_ranges@)),
        offset + byte_len(span@.text) <= usize::MAX,
        first <= diff_ranges@.len(),
    ensures
        final(out).deep_view() == old(out).deep_view() + pieces(
            span@,
            offset as int,
            range_pairs(diff_ranges@),
            first as int,
            offset as int,
            base_bg,
            highlight_bg,
        ),
{
    let ghost ranges = range_pairs(diff_ranges@);
    let ghost fragment = span@;
    let ghost before = out.deep_view();
    let content = span.text.as_str();
    let len = content.len();
    let span_end = offset + len;
    proof {
        encode_utf8_valid_utf8(fragment.text);
        is_char_boundary_start_end_of_seq(encode_utf8(fragment.text));
    }
    let mut last_processed = offset;
    let mut j = first;
    while j < diff_ranges.len() && (diff_ranges[j].end <= offset || diff_ranges[j].start
        < span_end)
        invariant
            first <= j <= ranges.len(),
            ranges == range_pairs(diff_ranges@),
            ranges_ordered(ranges),
            cuts_on_boundaries(fragment.text, offset as int, ranges),
            fragment == span@,
            content@ == fragment.text,
            len == byte_len(fragment.text),
            span_end == offset + len,
            offset <= last_processed <= span_end,
            on_boundary(fragment.text, last_processed - offset),
            last_processed == offset || (j > 0 && last_processed <= ranges[j - 1].1),
            out.deep_view() + pieces(
                fragment,
                offset as int,
                ranges,
                j as int,
                last_processed as int,
                base_bg,
                highlight_bg,
            ) =~= before + pieces(
                fragment,
                offset as int,
                ranges,
                first as int,
                offset as int,
                base_bg,
                highlight_bg,
            ),
        decreases ranges.len() - j,
    {
        let range_start = diff_ranges[j].start;
        let range_end = diff_ranges[j].end;
        if range_end > offset {
            let overlap_start = if range_start > offset {
                range_start
            } else {
                offset
            };
            let overlap_end = if range_end < span_end {
                range_end
            } else {
                span_end
            };
            proof {
                assert(ranges[j as int].0 <= ranges[j as int].1);
            }
            if overlap_start > last_processed {
                let text = slice_str(content, last_processed - offset, overlap_start - offset);
                push_fragment(out, Fragment::styled(text.to_owned(), span.style.bg(base_bg)));
            }
            let text = slice_str(content, overlap_start - offset, overlap_end - offset);
            push_fragment(out, Fragment::styled(text.to_owned(), span.style.bg(highlight_bg)));
            last_processed = overlap_end;
        }
        j += 1;
    }
    if last_processed < span_end {
        let text = slice_str(content, last_processed - offset, len);
        push_fragment(out, Fragment::styled(text.to_owned(), span.style.bg(base_bg)));
    }
}

/// Lays the ranges over the fragments of a line: what lies in a range gets
/// the highlight background, everything else the base background.
pub fn apply_diff_highlight(
    spans: Vec<Fragment>,
    diff_ranges: &[Range<usize>],
    base_bg: Color,
    highlight_bg: Color,
) -> (out: Vec<Fragment>)
    requires
        diff_ranges@.len() > 0 ==> projectable(spans.deep_view(), range_pairs(diff_ranges@)),
    ensures
        out.deep_view() == project(
            spans.deep_view(),
            range_pairs(diff_ranges@),
            base_bg,
            highlight_bg,
        ),
{
    let ghost fragments = spans.deep_view();
    let ghost ranges = range_pairs(diff_ranges@);
    let mut out: Vec<Fragment> = Vec::new();
    if diff_ranges.len() == 0 {
        let mut k: usize = 0;
        while k < spans.len()
            invariant
                k <= spans.len(),
                fragments == spans.deep_view(),
                out.deep_view() =~= Seq::new(
                    k as nat,
                    |i: int| on_background(fragments[i], base_bg),
                ),
            decreases spans.len() - k,
        {
            let span = &spans[k];
            push_fragment(&mut out, Fragment::styled(span.text.clone(), span.style.bg(base_bg)));
            k += 1;
        }
        return out;
    }
    let mut current_idx: usize = 0;
    let mut first: usize = 0;
    let mut k: usize = 0;
    while k < spans.len()
        invariant
            k <= spans.len(),
            fragments == spans.deep_view(),
            ranges == range_pairs(diff_ranges@),
            projectable(fragments, ranges),
            current_idx == offset_of(fragments, k as int),
            first <= ranges.len(),
            forall|i: int| 0 <= i < first ==> (#[trigger] ranges[i]).1 <= current_idx,
            out.deep_view() + project_from(
                fragments,
                k as int,
                current_idx as int,
                ranges,
                base_bg,
                highlight_bg,
            ) =~= project_from(fragments, 0, 0, ranges, base_bg, highlight_bg),
        decreases spans.len() - k,
    {
        let span = &spans[k];
        proof {
            lemma_offset_bound(fragments, k as int + 1);
            lemma_pieces_skip(
                fragments[k as int],
                current_idx as int,
                ranges,
                0,
                first as int,
                current_idx as int,
                base_bg,
                highlight_bg,
            );
        }
        cut_fragment(span, current_idx, diff_ranges, first, base_bg, highlight_bg, &mut out);
        current_idx = current_idx + span.text.as_str().len();
        while first < diff_ranges.len() && diff_ranges[first].end <= current_idx
            invariant
                first <= ranges.len(),
                ranges == range_pairs(diff_ranges@),
                forall|i: int| 0 <= i < first ==> (#[trigger] ranges[i]).1 <= current_idx,
            decreases ranges.len() - first,
        {
            first += 1;
        }
        k += 1;
    }
    out
}

proof fn lemma_offset_bound(fragments: Seq<FragmentView>, k: int)
    requires
        0 <= k <= fragments.len(),
    ensures
        0 <= offset_of(fragments, k) <= offset_of(fragments, fragments.len() as int),
    decreases fragments.len() - k,
{
    lemma_offset_nonneg(fragments, k);
    if k < fragments.len() {
        lemma_offset_bound(fragments, k + 1);
    }
}

proof fn lemma_offset_nonneg(fragments: Seq<FragmentView>, k: int)
    ensures
        0 <= offset_of(fragments, k),
    decreases k,
{
    if k > 0 {
        lemma_offset_nonneg(fragments, k - 1);
    }
}

/// What a change does.
#[derive(Debug, Clone, Copy, PartialEq, Eq, Structural)]
pub enum ChangeTag {
    Equal,
    Delete,
    Insert,
}

/// One step of an edit script: a piece of text that both sides share, that
/// only the old side has, or that only the new side has.
#[derive(Debug, Clone, PartialEq, Eq)]
pub struct Change {
    pub tag: ChangeTag,
    pub value: String,
}

/// The mathematical value of a [`Change`].
pub struct ChangeView {
    pub tag: ChangeTag,
    pub value: Seq<char>,
}

impl View for Change {
    type V = ChangeView;

    open spec fn view(&self) -> ChangeView {
        ChangeView { tag: self.tag, value: self.value@ }
    }
}

impl DeepView for Change {
    type V = ChangeView;

    open spec fn deep_view(&self) -> ChangeView {
        self@
    }
}

/// The tag of the changes that edit a side: deletions edit the old side,
/// insertions the new side.
pub open spec fn edit_tag(old_side: bool) -> ChangeTag {
    if old_side {
        ChangeTag::Delete
    } else {
        ChangeTag::Insert
    }
}

/// The part of a change that belongs to a side.
pub open spec fn side_value(change: ChangeView, old_side: bool) -> Seq<char> {
    if change.tag == ChangeTag::Equal || change.tag == edit_tag(old_side) {
        change.value
    } else {
        Seq::empty()
    }
}

/// The text of one side of an edit script.
pub open spec fn side_text(changes: Seq<ChangeView>, old_side: bool) -> Seq<char>
    decreases changes.len(),
{
    if changes.len() == 0 {
        Seq::empty()
    } else {
        side_text(changes.drop_last(), old_side) + side_value(changes.last(), old_side)
    }
}

pub open spec fn all_equal(changes: Seq<ChangeView>) -> bool {
    forall|i: int| 0 <= i < changes.len() ==> (#[trigger] changes[i]).tag == ChangeTag::Equal
}

/// The byte ranges of one side that an edit script changes, as pairs of
/// start and end. Each edit covers the bytes of its value at the place where
/// it stands in the text of its side; an edit that begins where the range
/// before it ends is joined to that range.
pub open spec fn changed_ranges(changes: Seq<ChangeView>, old_side: bool) -> Seq<(int, int)>
    decreases changes.len(),
{
    if changes.len() == 0 {
        Seq::empty()
    } else {
        let ranges = changed_ranges(changes.drop_last(), old_side);
        let start = byte_len(side_text(changes.drop_last(), old_side));
        let end = start + byte_len(changes.last().value);
        if changes.last().tag != edit_tag(old_side) {
            ranges
        } else if ranges.len() > 0 && ranges.last().1 == start {
            ranges.drop_last().push((ranges.last().0, end))
        } else {
            ranges.push((start, end))
        }
    }
}

/// The ranges are ordered and lie in `text`, with their ends on character
/// boundaries.
pub open spec fn ranges_fit(ranges: Seq<(int, int)>, text: Seq<char>) -> bool {
    &&& ranges_ordered(ranges)
    &&& forall|j: int|
        0 <= j < ranges.len() ==> {
            &&& 0 <= (#[trigger] ranges[j]).0
            &&& ranges[j].1 <= byte_len(text)
            &&& on_boundary(text, ranges[j].0)
            &&& on_boundary(text, ranges[j].1)
        }
}

/// No range touches the next: between two ranges lies at least one byte.
pub open spec fn ranges_apart(ranges: Seq<(int, int)>) -> bool {
    forall|i: int, j: int|
        0 <= i < j < ranges.len() ==> (#[trigger] ranges[i]).1 < (#[trigger] ranges[j]).0
}

/// Every range holds at least one byte.
pub open spec fn ranges_nonempty(ranges: Seq<(int, int)>) -> bool {
    forall|j: int| 0 <= j < ranges.len() ==> (#[trigger] ranges[j]).0 < ranges[j].1
}

/// Every step of the edit script has text.
pub open spec fn steps_have_text(changes: Seq<ChangeView>) -> bool {
    forall|i: int| 0 <= i < changes.len() ==> (#[trigger] changes[i]).value.len() > 0
}

/// Every step of the edit script is one character.
pub open spec fn steps_are_characters(changes: Seq<ChangeView>) -> bool {
    forall|i: int| 0 <= i < changes.len() ==> (#[trigger] changes[i]).value.len() == 1
}

/// The edit script that the `similar` crate computes, with the algorithm of
/// Myers and without a deadline, between the characters of `old` and of `new`.
pub uninterp spec fn char_changes(old: Seq<char>, new: Seq<char>) -> Seq<ChangeView>;

/// Calls `similar::TextDiffConfig::diff_chars` on the configuration that
/// `similar::TextDiff::configure` gives once `algorithm` has set it to
/// `similar::Algorithm::Myers`, and reads the result with
/// `similar::TextDiff::iter_all_changes`, each change by its `tag` and its
/// `value`.
///
/// Trusted: the result is a function of the two texts. The texts are
/// compared character by character, so every step is one character. As of
/// any edit script, the values of its equal and deleted steps make up the
/// old text, and those of its equal and inserted steps the new text. A
/// shortest edit script between equal texts edits nothing.
#[verifier::external_body]
fn diff_chars(old_text: &str, new_text: &str) -> (changes: Vec<Change>)
    ensures
        changes.deep_view() == char_changes(old_text@, new_text@),
        steps_are_characters(changes.deep_view()),
        side_text(changes.deep_view(), true) == old_text@,
        side_text(changes.deep_view(), false) == new_text@,
        old_text@ == new_text@ ==> all_equal(changes.deep_view()),
{
    similar::TextDiff::configure()
        .algorithm(similar::Algorithm::Myers)
        .diff_chars(old_text, new_text)
        .iter_all_changes()
        .map(|change| Change {
            tag: match change.tag() {
                similar::ChangeTag::Equal => ChangeTag::Equal,
                similar::ChangeTag::Delete => ChangeTag::Delete,
                similar::ChangeTag::Insert => ChangeTag::Insert,
            },
            value: change.value().to_string(),
        })
        .collect()
}

/// The text of a side grows with the edit script.
pub proof fn lemma_side_text_grows(changes: Seq<ChangeView>, old_side: bool, k: int)
    requires
        0 <= k <= changes.len(),
    ensures
        0 <= byte_len(side_text(changes.take(k), old_side)) <= byte_len(
            side_text(changes, old_side),
        ),
    decreases changes.len() - k,
{
    if k < changes.len() {
        lemma_side_text_grows(changes, old_side, k + 1);
        assert(changes.take(k + 1).drop_last() =~= changes.take(k));
        lemma_encode_concat(
            side_text(changes.take(k), old_side),
            side_value(changes[k], old_side),
        );
    } else {
        assert(changes.take(k) =~= changes);
    }
}

/// Joins `start..end` to the last range if it begins where that range ends,
/// and appends it otherwise.
fn extend_or_push(ranges: &mut Vec<Range<usize>>, start: usize, end: usize)
    ensures
        range_pairs(final(ranges)@) == (if old(ranges)@.len() > 0 && old(ranges)@.last().end
            == start {
            range_pairs(old(ranges)@).drop_last().push((old(ranges)@.last().start as int, end as int))
        } else {
            range_pairs(old(ranges)@).push((start as int, end as int))
        }),
{
    let n = ranges.len();
    if n > 0 && ranges[n - 1].end == start {
        let begin = ranges[n - 1].start;
        ranges.pop();
        ranges.push(begin..end);
    } else {
        ranges.push(start..end);
    }
}

/// Adding an edit at the end of a side keeps the ranges of that side fit.
proof fn lemma_ranges_fit_step(
    before: Seq<(int, int)>,
    after: Seq<(int, int)>,
    text: Seq<char>,
    value: Seq<char>,
    edits: bool,
)
    requires
        ranges_fit(before, text),
        ranges_apart(before),
        after == if !edits {
            before
        } else if before.len() > 0 && before.last().1 == byte_len(text) {
            before.drop_last().push((before.last().0, byte_len(text) + byte_len(value)))
        } else {
            before.push((byte_len(text), byte_len(text) + byte_len(value)))
        },
    ensures
        ranges_fit(after, text + value),
        ranges_apart(after),
{
    let longer = text + value;
    lemma_encode_concat(text, value);
    lemma_boundary_after_prefix(text, value);
    lemma_boundary_after_prefix(longer, Seq::empty());
    assert forall|j: int| 0 <= j < after.len() implies {
        &&& (#[trigger] after[j]).0 <= after[j].1
        &&& 0 <= after[j].0
        &&& after[j].1 <= byte_len(longer)
        &&& on_boundary(longer, after[j].0)
        &&& on_boundary(longer, after[j].1)
    } by {
        if j < before.len() {
            lemma_boundary_extends(text, value, before[j].0);
            lemma_boundary_extends(text, value, before[j].1);
        }
    }
}

/// The byte ranges that an edit script changes on the old side and on the
/// new side.
pub fn ranges_of_changes(changes: &[Change]) -> (ranges: (Vec<Range<usize>>, Vec<Range<usize>>))
    requires
        byte_len(side_text(changes.deep_view(), true)) <= usize::MAX,
        byte_len(side_text(changes.deep_view(), false)) <= usize::MAX,
    ensures
        range_pairs(ranges.0@) == changed_ranges(changes.deep_view(), true),
        range_pairs(ranges.1@) == changed_ranges(changes.deep_view(), false),
        ranges_fit(range_pairs(ranges.0@), side_text(changes.deep_view(), true)),
        ranges_fit(range_pairs(ranges.1@), side_text(changes.deep_view(), false)),
        ranges_apart(range_pairs(ranges.0@)),
        ranges_apart(range_pairs(ranges.1@)),
        steps_have_text(changes.deep_view()) ==> ranges_nonempty(range_pairs(ranges.0@))
            && ranges_nonempty(range_pairs(ranges.1@)),
        all_equal(changes.deep_view()) <==> ranges.0@.len() == 0 && ranges.1@.len() == 0,
{
    let ghost all = changes.deep_view();
    let mut old_ranges: Vec<Range<usize>> = Vec::new();
    let mut new_ranges: Vec<Range<usize>> = Vec::new();
    let mut old_idx: usize = 0;
    let mut new_idx: usize = 0;
    let mut i: usize = 0;
    proof {
        lemma_boundary_after_prefix(Seq::empty(), Seq::empty());
    }
    while i < changes.len()
        invariant
            i <= changes.len(),
            all == changes.deep_view(),
            byte_len(side_text(all, true)) <= usize::MAX,
            byte_len(side_text(all, false)) <= usize::MAX,
            old_idx == byte_len(side_text(all.take(i as int), true)),
            new_idx == byte_len(side_text(all.take(i as int), false)),
            range_pairs(old_ranges@) == changed_ranges(all.take(i as int), true),
            range_pairs(new_ranges@) == changed_ranges(all.take(i as int), false),
            ranges_fit(range_pairs(old_ranges@), side_text(all.take(i as int), true)),
            ranges_fit(range_pairs(new_ranges@), side_text(all.take(i as int), false)),
            ranges_apart(range_pairs(old_ranges@)),
            ranges_apart(range_pairs(new_ranges@)),
            all_equal(all) ==> old_ranges@.len() == 0 && new_ranges@.len() == 0,
        decreases changes.len() - i,
    {
        let change = &changes[i];
        let len = change.value.as_str().len();
        let ghost before = all.take(i as int);
        let ghost after = all.take(i + 1);
        let ghost old_before = old_ranges@;
        let ghost new_before = new_ranges@;
        proof {
            assert(after.drop_last() =~= before);
            lemma_side_text_grows(all, true, i + 1);
            lemma_side_text_grows(all, false, i + 1);
            lemma_encode_concat(side_text(before, true), side_value(change@, true));
            lemma_encode_concat(side_text(before, false), side_value(change@, false));
        }
        match change.tag {
            ChangeTag::Equal => {
                old_idx = old_idx + len;
                new_idx = new_idx + len;
            },
            ChangeTag::Delete => {
                extend_or_push(&mut old_ranges, old_idx, old_idx + len);
                old_idx = old_idx + len;
            },
            ChangeTag::Insert => {
                extend_or_push(&mut new_ranges, new_idx, new_idx + len);
                new_idx = new_idx + len;
            },
        }
        proof {
            lemma_ranges_fit_step(
                range_pairs(old_before),
                range_pairs(old_ranges@),
                side_text(before, true),
                side_value(change@, true),
                change.tag == ChangeTag::Delete,
            );
            lemma_ranges_fit_step(
                range_pairs(new_before),
                range_pairs(new_ranges@),
                side_text(before, false),
                side_value(change@, false),
                change.tag == ChangeTag::Insert,
            );
        }
        i += 1;
    }
    assert(all.take(i as int) =~= all);
    proof {
        lemma_no_ranges_all_equal(all);
        if steps_have_text(all) {
            lemma_ranges_nonempty(all, true);
            lemma_ranges_nonempty(all, false);
        }
    }
    (old_ranges, new_ranges)
}

/// The byte ranges in which two lines differ: those of the old line that the
/// new one lacks, and those of the new line that the old one lacks. What the
/// ranges leave of the old line is what they leave of the new line, and
/// there are no ranges exactly when the lines are the same.
pub fn compute_intra_line_diff(old_text: &str, new_text: &str) -> (ranges: (
    Vec<Range<usize>>,
    Vec<Range<usize>>,
))
    ensures
        range_pairs(ranges.0@) == changed_ranges(char_changes(old_text@, new_text@), true),
        range_pairs(ranges.1@) == changed_ranges(char_changes(old_text@, new_text@), false),
        ranges_fit(range_pairs(ranges.0@), old_text@),
        ranges_fit(range_pairs(ranges.1@), new_text@),
        ranges_apart(range_pairs(ranges.0@)),
        ranges_apart(range_pairs(ranges.1@)),
        ranges_nonempty(range_pairs(ranges.0@)),
        ranges_nonempty(range_pairs(ranges.1@)),
        side_text(char_changes(old_text@, new_text@), true) == old_text@,
        side_text(char_changes(old_text@, new_text@), false) == new_text@,
        unmarked(old_text@, range_pairs(ranges.0@)) == unmarked(
            new_text@,
            range_pairs(ranges.1@),
        ),
        old_text@ == new_text@ <==> ranges.0@.len() == 0 && ranges.1@.len() == 0,
{
    let changes = diff_chars(old_text, new_text);
    let old_len = old_text.as_bytes().len();
    let new_len = new_text.as_bytes().len();
    assert(byte_len(old_text@) == old_len && byte_len(new_text@) == new_len);
    proof {
        if all_equal(changes.deep_view()) {
            lemma_all_equal_same_text(changes.deep_view());
        }
        assert(steps_have_text(changes.deep_view()));
        lemma_remainders_agree(changes.deep_view());
    }
    ranges_of_changes(changes.as_slice())
}

/// Without ranges, a line keeps its fragments: each has its text and its
/// style as before, but for the background, which is the base background.
pub proof fn lemma_project_without_ranges(
    fragments: Seq<FragmentView>,
    base: Color,
    emphasis: Color,
)
    ensures
        project(fragments, Seq::empty(), base, emphasis).len() == fragments.len(),
        forall|k: int|
            0 <= k < fragments.len() ==> {
                &&& (#[trigger] project(fragments, Seq::empty(), base, emphasis)[k]).text
                    == fragments[k].text
                &&& project(fragments, Seq::empty(), base, emphasis)[k].style
                    == fragments[k].style.with_bg(base)
            },
{
}

/// The ends of the ranges that fall inside `text` fall on character
/// boundaries of it.
spec fn cuts_fit(ranges: Seq<(int, int)>, text: Seq<char>) -> bool {
    forall|j: int|
        0 <= j < ranges.len() ==> {
            &&& 0 <= (#[trigger] ranges[j]).0 <= byte_len(text) ==> on_boundary(text, ranges[j].0)
            &&& 0 <= ranges[j].1 <= byte_len(text) ==> on_boundary(text, ranges[j].1)
        }
}

proof fn lemma_offset_of_prefix(fragments: Seq<FragmentView>, k: int)
    requires
        0 <= k < fragments.len(),
    ensures
        offset_of(fragments.drop_last(), k) == offset_of(fragments, k),
    decreases k,
{
    if k > 0 {
        lemma_offset_of_prefix(fragments, k - 1);
    }
}

/// The offset of the end of the fragments is the length of their text.
pub proof fn lemma_offset_of_end(fragments: Seq<FragmentView>)
    ensures
        offset_of(fragments, fragments.len() as int) == byte_len(joined_text(fragments)),
    decreases fragments.len(),
{
    if fragments.len() > 0 {
        let n = fragments.len() as int;
        lemma_offset_of_end(fragments.drop_last());
        lemma_offset_of_prefix(fragments, n - 1);
        lemma_encode_concat(joined_text(fragments.drop_last()), fragments.last().text);
    }
}

proof fn lemma_cuts_projectable(fragments: Seq<FragmentView>, ranges: Seq<(int, int)>)
    requires
        cuts_fit(ranges, joined_text(fragments)),
    ensures
        forall|k: int|
            0 <= k < fragments.len() ==> cuts_on_boundaries(
                (#[trigger] fragments[k]).text,
                offset_of(fragments, k),
                ranges,
            ),
    decreases fragments.len(),
{
    if fragments.len() > 0 {
        let n = fragments.len() as int;
        let before = fragments.drop_last();
        let head = joined_text(before);
        let text = fragments.last().text;
        let offset = offset_of(fragments, n - 1);
        lemma_encode_concat(head, text);
        lemma_offset_of_end(before);
        lemma_offset_of_prefix(fragments, n - 1);
        vstd::utf8::encode_utf8_valid_utf8(text);
        vstd::utf8::is_char_boundary_start_end_of_seq(encode_utf8(text));
        assert(cuts_fit(ranges, head)) by {
            assert forall|j: int| 0 <= j < ranges.len() implies {
                &&& 0 <= (#[trigger] ranges[j]).0 <= byte_len(head) ==> on_boundary(
                    head,
                    ranges[j].0,
                )
                &&& 0 <= ranges[j].1 <= byte_len(head) ==> on_boundary(head, ranges[j].1)
            } by {
                if 0 <= ranges[j].0 <= byte_len(head) {
                    lemma_boundary_restricts(head, text, ranges[j].0);
                }
                if 0 <= ranges[j].1 <= byte_len(head) {
                    lemma_boundary_restricts(head, text, ranges[j].1);
                }
            }
        }
        lemma_cuts_projectable(before, ranges);
        assert forall|k: int| 0 <= k < fragments.len() implies cuts_on_boundaries(
            (#[trigger] fragments[k]).text,
            offset_of(fragments, k),
            ranges,
        ) by {
            if k < n - 1 {
                lemma_offset_of_prefix(fragments, k);
                assert(fragments[k] == before[k]);
            } else {
                assert forall|j: int| 0 <= j < ranges.len() implies {
                    &&& on_boundary(
                        text,
                        clamp((#[trigger] ranges[j]).0 - offset, 0, byte_len(text)),
                    )
                    &&& on_boundary(text, clamp(ranges[j].1 - offset, 0, byte_len(text)))
                } by {
                    if offset <= ranges[j].0 <= offset + byte_len(text) {
                        lemma_boundary_shifts(head, text, ranges[j].0);
                    }
                    if offset <= ranges[j].1 <= offset + byte_len(text) {
                        lemma_boundary_shifts(head, text, ranges[j].1);
                    }
                }
            }
        }
    }
}

/// Ranges that fit the text of a line can be laid over any fragments that
/// make up the line.
pub proof fn lemma_fit_projectable(fragments: Seq<FragmentView>, ranges: Seq<(int, int)>)
    requires
        ranges_fit(ranges, joined_text(fragments)),
        byte_len(joined_text(fragments)) <= usize::MAX,
    ensures
        projectable(fragments, ranges),
{
    lemma_offset_of_end(fragments);
    lemma_cuts_projectable(fragments, ranges);
}

/// Where change `k` begins in the text of a side.
pub open spec fn change_start(changes: Seq<ChangeView>, old_side: bool, k: int) -> int {
    byte_len(side_text(changes.take(k), old_side))
}

/// Does byte `at` of the text of a side belong to an edit of that side?
pub open spec fn edited_at(changes: Seq<ChangeView>, old_side: bool, at: int) -> bool {
    exists|k: int|
        0 <= k < changes.len() && (#[trigger] changes[k]).tag == edit_tag(old_side)
            && change_start(changes, old_side, k) <= at < change_start(changes, old_side, k)
            + byte_len(changes[k].value)
}

pub proof fn lemma_edited_at_step(changes: Seq<ChangeView>, old_side: bool, at: int)
    requires
        changes.len() > 0,
    ensures
        edited_at(changes, old_side, at) == (edited_at(changes.drop_last(), old_side, at) || (
        changes.last().tag == edit_tag(old_side) && byte_len(
            side_text(changes.drop_last(), old_side),
        ) <= at < byte_len(side_text(changes.drop_last(), old_side)) + byte_len(
            changes.last().value,
        ))),
{
    let before = changes.drop_last();
    let n = before.len() as int;
    assert(changes.take(n) =~= before);
    assert forall|k: int| 0 <= k < n implies change_start(changes, old_side, k) == change_start(
        before,
        old_side,
        k,
    ) by {
        assert(changes.take(k) =~= before.take(k));
    }
    if edited_at(changes, old_side, at) {
        let k = choose|k: int|
            0 <= k < changes.len() && (#[trigger] changes[k]).tag == edit_tag(old_side)
                && change_start(changes, old_side, k) <= at < change_start(changes, old_side, k)
                + byte_len(changes[k].value);
        if k < n {
            assert(before[k] == changes[k]);
        }
    }
    if edited_at(before, old_side, at) {
        let k = choose|k: int|
            0 <= k < before.len() && (#[trigger] before[k]).tag == edit_tag(old_side)
                && change_start(before, old_side, k) <= at < change_start(before, old_side, k)
                + byte_len(before[k].value);
        assert(changes[k] == before[k]);
    }
    if changes.last().tag == edit_tag(old_side) && change_start(changes, old_side, n) <= at
        < change_start(changes, old_side, n) + byte_len(changes.last().value) {
        assert(changes[n] == changes.last());
    }
}

/// The ranges of a side hold the bytes of the edits of that side, and no
/// others.
pub proof fn lemma_ranges_hold_edits(changes: Seq<ChangeView>, old_side: bool, at: int)
    ensures
        in_ranges(changed_ranges(changes, old_side), at) == edited_at(changes, old_side, at),
    decreases changes.len(),
{
    let ranges = changed_ranges(changes, old_side);
    if changes.len() > 0 {
        let before = changes.drop_last();
        let earlier = changed_ranges(before, old_side);
        let start = byte_len(side_text(before, old_side));
        let end = start + byte_len(changes.last().value);
        lemma_ranges_hold_edits(before, old_side, at);
        lemma_edited_at_step(changes, old_side, at);
        if changes.last().tag == edit_tag(old_side) {
            let joined = earlier.len() > 0 && earlier.last().1 == start;
            let m = earlier.len() as int;
            if in_ranges(earlier, at) {
                let j = choose|j: int|
                    0 <= j < earlier.len() && (#[trigger] earlier[j]).0 <= at < earlier[j].1;
                if joined && j == m - 1 {
                    assert(ranges[m - 1].0 <= at < ranges[m - 1].1);
                } else {
                    assert(ranges[j] == earlier[j]);
                }
            }
            if start <= at < end {
                if joined {
                    lemma_ranges_fit_any(before, old_side);
                    assert(earlier[m - 1].0 <= earlier[m - 1].1);
                    assert(ranges[m - 1].0 <= at < ranges[m - 1].1);
                } else {
                    assert(ranges[m].0 <= at < ranges[m].1);
                }
            }
            if in_ranges(ranges, at) {
                let j = choose|j: int|
                    0 <= j < ranges.len() && (#[trigger] ranges[j]).0 <= at < ranges[j].1;
                if joined {
                    if j < m - 1 {
                        assert(earlier[j] == ranges[j]);
                    } else if at < start {
                        assert(earlier[m - 1].0 <= at < earlier[m - 1].1);
                    }
                } else if j < m {
                    assert(earlier[j] == ranges[j]);
                }
            }
        }
    } else {
        assert(!in_ranges(ranges, at));
        assert(!edited_at(changes, old_side, at));
    }
}

/// Every range of a side begins no later than it ends.
proof fn lemma_ranges_fit_any(changes: Seq<ChangeView>, old_side: bool)
    ensures
        forall|j: int|
            0 <= j < changed_ranges(changes, old_side).len() ==> (#[trigger] changed_ranges(
                changes,
                old_side,
            )[j]).0 <= changed_ranges(changes, old_side)[j].1,
    decreases changes.len(),
{
    if changes.len() > 0 {
        lemma_ranges_fit_any(changes.drop_last(), old_side);
        let earlier = changed_ranges(changes.drop_last(), old_side);
        let ranges = changed_ranges(changes, old_side);
        assert forall|j: int| 0 <= j < ranges.len() implies (#[trigger] ranges[j]).0
            <= ranges[j].1 by {
            if j < earlier.len() {
                assert(earlier[j].0 <= earlier[j].1);
            }
        }
    }
}

/// The ranges of a longer edit script are no fewer, and an edit leaves a
/// range on its side.
proof fn lemma_ranges_grow(changes: Seq<ChangeView>, old_side: bool)
    requires
        changes.len() > 0,
    ensures
        changed_ranges(changes, old_side).len() >= changed_ranges(
            changes.drop_last(),
            old_side,
        ).len(),
        changes.last().tag == edit_tag(old_side) ==> changed_ranges(changes, old_side).len() > 0,
{
}

/// An edit script that leaves no range on either side edits nothing.
pub proof fn lemma_no_ranges_all_equal(changes: Seq<ChangeView>)
    ensures
        changed_ranges(changes, true).len() == 0 && changed_ranges(changes, false).len() == 0
            ==> all_equal(changes),
    decreases changes.len(),
{
    if changes.len() > 0 {
        let before = changes.drop_last();
        lemma_no_ranges_all_equal(before);
        lemma_ranges_grow(changes, true);
        lemma_ranges_grow(changes, false);
        if changed_ranges(changes, true).len() == 0 && changed_ranges(changes, false).len() == 0 {
            assert forall|i: int| 0 <= i < changes.len() implies (#[trigger] changes[i]).tag
                == ChangeTag::Equal by {
                if i < before.len() {
                    assert(before[i] == changes[i]);
                }
            }
        }
    }
}

/// An edit script that edits nothing has the same text on both sides.
pub proof fn lemma_all_equal_same_text(changes: Seq<ChangeView>)
    requires
        all_equal(changes),
    ensures
        side_text(changes, true) == side_text(changes, false),
    decreases changes.len(),
{
    if changes.len() > 0 {
        let before = changes.drop_last();
        assert forall|i: int| 0 <= i < before.len() implies (#[trigger] before[i]).tag
            == ChangeTag::Equal by {
            assert(before[i] == changes[i]);
        }
        lemma_all_equal_same_text(before);
        assert(changes.last() == changes[changes.len() - 1]);
    }
}

/// Where every step has text, every range holds at least one byte.
pub proof fn lemma_ranges_nonempty(changes: Seq<ChangeView>, old_side: bool)
    requires
        steps_have_text(changes),
    ensures
        ranges_nonempty(changed_ranges(changes, old_side)),
    decreases changes.len(),
{
    if changes.len() > 0 {
        let before = changes.drop_last();
        let earlier = changed_ranges(before, old_side);
        let ranges = changed_ranges(changes, old_side);
        assert forall|i: int| 0 <= i < before.len() implies (#[trigger] before[i]).value.len()
            > 0 by {
            assert(before[i] == changes[i]);
        }
        lemma_ranges_nonempty(before, old_side);
        assert(changes.last() == changes[changes.len() - 1]);
        lemma_byte_len_positive(changes.last().value);
        assert forall|j: int| 0 <= j < ranges.len() implies (#[trigger] ranges[j]).0
            < ranges[j].1 by {
            if j < earlier.len() {
                assert(earlier[j].0 < earlier[j].1);
            }
        }
    }
}

} // verus!
