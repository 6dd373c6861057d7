//! Task list items in the markdown source: which one a checkbox of the page is, and the byte
//! that checks or unchecks it.
use vstd::prelude::*;
use vstd::string::StrSliceExecFns;
use vstd::utf8::{
    decode_utf8, decode_utf8_encode_utf8, encode_utf8, encode_utf8_valid_utf8, is_char_boundary,
    is_char_boundary_iff_not_is_continuation_byte, leading_bits_width_1, valid_utf8,
    valid_utf8_concat, valid_utf8_split,
};
use crate::common::string_from_utf8;
use crate::events::{
    marker_text, markdown_events, opt_view, parsed_source, EventKind, Kind, ParsedEvent,
    ParsedMarkdown,
};

verus! {

/// The task list markers among `ev`, in document order.
pub open spec fn task_markers(ev: Seq<ParsedEvent>) -> Seq<ParsedEvent>
    decreases ev.len(),
{
    if ev.len() == 0 {
        Seq::empty()
    } else {
        let before = task_markers(ev.drop_last());
        if ev.last().kind is TaskListMarker {
            before.push(ev.last())
        } else {
            before
        }
    }
}

/// Whether a task list marker is checked.
pub open spec fn marker_checked(m: ParsedEvent) -> bool {
    match m.kind {
        Kind::TaskListMarker(checked) => checked,
        _ => false,
    }
}

/// The position of the first `[` among `bytes[start..end]`.
pub open spec fn first_bracket(bytes: Seq<u8>, start: int, end: int) -> Option<int>
    decreases end - start,
{
    if start >= end {
        None
    } else if bytes[start] == 91u8 {
        Some(start)
    } else {
        first_bracket(bytes, start + 1, end)
    }
}

/// The byte between a task marker's brackets: `x` when checked, a space otherwise.
pub open spec fn mark_byte(checked: bool) -> u8 {
    if checked {
        120u8
    } else {
        32u8
    }
}

/// Whether a task marker said to cover `bytes[start..end]` can be rewritten in place: the range
/// lies on character boundaries, and the byte after its first `[`, if it has one, is a whole
/// character.
pub open spec fn marker_in_bounds(bytes: Seq<u8>, start: int, end: int) -> bool {
    &&& 0 <= start <= end <= bytes.len()
    &&& is_char_boundary(bytes, start)
    &&& is_char_boundary(bytes, end)
    &&& (first_bracket(bytes, start, end) matches Some(k) ==> {
        &&& k + 2 <= bytes.len()
        &&& is_char_boundary(bytes, k + 1)
        &&& is_char_boundary(bytes, k + 2)
    })
}

/// `markdown` with the task marker covering bytes `start..end` set to `checked`, given whether it
/// was checked: the byte after the marker's first `[` becomes `x` or a space, and a marker already
/// in the wanted state is left as written. `None` when the range holds no `[`.
pub open spec fn toggled_marker(
    markdown: Seq<char>,
    was_checked: bool,
    start: int,
    end: int,
    checked: bool,
) -> Option<Seq<char>> {
    if was_checked == checked {
        Some(markdown)
    } else {
        let bytes = encode_utf8(markdown);
        match first_bracket(bytes, start, end) {
            None => None,
            Some(k) => Some(decode_utf8(bytes.update(k + 1, mark_byte(checked)))),
        }
    }
}

/// What `toggle_task` gives: `markdown` with its `index`th task list marker set to `checked`, or
/// `None` when it has no such marker or the marker's range cannot be rewritten in place.
pub open spec fn toggled_task(markdown: Seq<char>, index: int, checked: bool) -> Option<Seq<char>> {
    let markers = task_markers(markdown_events(markdown));
    if 0 <= index < markers.len() {
        let m = markers[index];
        match m.kind {
            Kind::TaskListMarker(was) => if was == checked || marker_in_bounds(
                encode_utf8(markdown),
                m.start as int,
                m.end as int,
            ) {
                toggled_marker(markdown, was, m.start as int, m.end as int, checked)
            } else {
                None
            },
            _ => None,
        }
    } else {
        None
    }
}

proof fn lemma_markers_take(ev: Seq<ParsedEvent>, i: int)
    requires
        0 <= i < ev.len(),
    ensures
        task_markers(ev.take(i + 1)) == if ev[i].kind is TaskListMarker {
            task_markers(ev.take(i)).push(ev[i])
        } else {
            task_markers(ev.take(i))
        },
{
    assert(ev.take(i + 1).drop_last() =~= ev.take(i));
}

/// The markers of a prefix of the events are the first markers of all of them.
proof fn lemma_markers_prefix(ev: Seq<ParsedEvent>, i: int)
    requires
        0 <= i <= ev.len(),
    ensures
        task_markers(ev.take(i)).len() <= task_markers(ev).len(),
        forall|j: int|
            0 <= j < task_markers(ev.take(i)).len() ==> #[trigger] task_markers(ev)[j]
                == task_markers(ev.take(i))[j],
    decreases ev.len() - i,
{
    if i == ev.len() {
        assert(ev.take(i) =~= ev);
    } else {
        lemma_markers_prefix(ev, i + 1);
        lemma_markers_take(ev, i);
    }
}

/// The markers of two runs of events are those of the first, then those of the second.
pub proof fn lemma_markers_add(a: Seq<ParsedEvent>, b: Seq<ParsedEvent>)
    ensures
        task_markers(a + b) == task_markers(a) + task_markers(b),
    decreases b.len(),
{
    if b.len() == 0 {
        assert(a + b =~= a);
        assert(task_markers(a) + task_markers(b) =~= task_markers(a));
    } else {
        lemma_markers_add(a, b.drop_last());
        assert((a + b).drop_last() =~= a + b.drop_last());
        assert((a + b).last() == b.last());
        if b.last().kind is TaskListMarker {
            assert(task_markers(a) + task_markers(b) =~= (task_markers(a) + task_markers(
                b.drop_last(),
            )).push(b.last()));
        }
    }
}

/// Events without a task list marker have no markers.
pub proof fn lemma_no_markers(a: Seq<ParsedEvent>)
    requires
        forall|k: int| 0 <= k < a.len() ==> !(#[trigger] a[k].kind is TaskListMarker),
    ensures
        task_markers(a) == Seq::<ParsedEvent>::empty(),
    decreases a.len(),
{
    if a.len() > 0 {
        assert(!(a.last().kind is TaskListMarker));
        lemma_no_markers(a.drop_last());
    }
}

proof fn lemma_first_bracket(bytes: Seq<u8>, start: int, end: int)
    requires
        0 <= start,
        end <= bytes.len(),
    ensures
        first_bracket(bytes, start, end) matches Some(k) ==> start <= k < end && bytes[k] == 91u8,
    decreases end - start,
{
    if start < end && bytes[start] != 91u8 {
        lemma_first_bracket(bytes, start + 1, end);
    }
}

/// A single ASCII byte is UTF-8.
proof fn lemma_ascii_byte_utf8(x: u8)
    requires
        x < 128,
    ensures
        valid_utf8(seq![x]),
{
    assert(leading_bits_width_1(x) < 0xD800) by (bit_vector)
        requires
            x < 128,
    ;
    assert(seq![x].subrange(1, 1) =~= Seq::<u8>::empty());
    reveal_with_fuel(valid_utf8, 2);
}

/// Rewriting a byte that is a whole character as an ASCII byte keeps UTF-8 valid.
proof fn lemma_rewrite_keeps_utf8(bytes: Seq<u8>, m: int, x: u8)
    requires
        valid_utf8(bytes),
        0 <= m < bytes.len(),
        is_char_boundary(bytes, m),
        is_char_boundary(bytes, m + 1),
        x < 128,
    ensures
        valid_utf8(bytes.update(m, x)),
{
    valid_utf8_split(bytes, m);
    valid_utf8_split(bytes, m + 1);
    let head = bytes.subrange(0, m);
    let tail = bytes.subrange(m + 1, bytes.len() as int);
    lemma_ascii_byte_utf8(x);
    valid_utf8_concat(head, seq![x]);
    valid_utf8_concat(head + seq![x], tail);
    assert(bytes.update(m, x) =~= head + seq![x] + tail);
}

/// The first `[` of a marker's bytes is the one before its state byte.
proof fn lemma_marker_bracket(bytes: Seq<u8>, start: int, end: int, checked: bool, from: int)
    requires
        marker_text(bytes, start, end, checked),
        start <= from <= end - 3,
    ensures
        first_bracket(bytes, from, end) == Some(end - 3),
    decreases end - 3 - from,
{
    if from < end - 3 {
        lemma_marker_bracket(bytes, start, end, checked, from + 1);
    }
}

/// Where the parser reports a task list marker, it can be rewritten in place.
proof fn lemma_marker_in_bounds(markdown: Seq<char>, start: int, end: int, checked: bool)
    requires
        marker_text(encode_utf8(markdown), start, end, checked),
    ensures
        marker_in_bounds(encode_utf8(markdown), start, end),
        first_bracket(encode_utf8(markdown), start, end) == Some(end - 3),
{
    let bytes = encode_utf8(markdown);
    encode_utf8_valid_utf8(markdown);
    lemma_marker_bracket(bytes, start, end, checked, start);
    if start < end - 3 {
        assert(bytes[start] == 32u8 || bytes[start] == 9u8);
    }
    is_char_boundary_iff_not_is_continuation_byte(bytes, start);
    is_char_boundary_iff_not_is_continuation_byte(bytes, end);
    is_char_boundary_iff_not_is_continuation_byte(bytes, end - 2);
    is_char_boundary_iff_not_is_continuation_byte(bytes, end - 1);
}

/// Whether `marker_in_bounds` holds for the bytes of `markdown`.
fn marker_fits(markdown: &str, start: usize, end: usize) -> (res: bool)
    ensures
        res == marker_in_bounds(encode_utf8(markdown@), start as int, end as int),
{
    let bytes = markdown.as_bytes_vec();
    if !(start <= end && end <= bytes.len() && markdown.is_char_boundary(start)
        && markdown.is_char_boundary(end)) {
        return false;
    }
    let mut k = start;
    while k < end && bytes[k] != 91u8
        invariant
            start <= k <= end <= bytes@.len(),
            bytes@ == encode_utf8(markdown@),
            first_bracket(bytes@, start as int, end as int) == first_bracket(
                bytes@,
                k as int,
                end as int,
            ),
        decreases end - k,
    {
        k += 1;
    }
    if k == end {
        return true;
    }
    k + 1 < bytes.len() && markdown.is_char_boundary(k + 1) && markdown.is_char_boundary(k + 2)
}

/// Sets the task list marker covering bytes `start..end` of `markdown` to `checked`, given whether
/// it is checked now. Only the byte after the marker's first `[` changes, and a marker already in
/// the wanted state is left as written. `None` when the range holds no `[`.
pub fn toggle_marker(markdown: &str, was_checked: bool, start: usize, end: usize, checked: bool) -> (res:
    Option<String>)
    requires
        was_checked == checked || marker_in_bounds(encode_utf8(markdown@), start as int, end as int),
    ensures
        opt_view(res) == toggled_marker(markdown@, was_checked, start as int, end as int, checked),
{
    if was_checked == checked {
        return Some(markdown.to_owned());
    }
    let mut bytes = markdown.as_bytes_vec();
    let mut k = start;
    while k < end && bytes[k] != 91u8
        invariant
            start <= k <= end <= bytes@.len(),
            bytes@ == encode_utf8(markdown@),
            first_bracket(bytes@, start as int, end as int) == first_bracket(
                bytes@,
                k as int,
                end as int,
            ),
        decreases end - k,
    {
        k += 1;
    }
    if k == end {
        return None;
    }
    let mark: u8 = if checked {
        120u8
    } else {
        32u8
    };
    proof {
        encode_utf8_valid_utf8(markdown@);
        lemma_rewrite_keeps_utf8(bytes@, k + 1, mark);
    }
    bytes.set(k + 1, mark);
    string_from_utf8(bytes)
}

/// Returns `markdown` with its `index`th task list item checked or unchecked, counting items in
/// document order, or `None` if there is no such item. Only the character between the brackets
/// changes, and an item already in the wanted state is left as written.
pub fn toggle_task(markdown: &str, index: usize, checked: bool) -> (res: Option<String>)
    ensures
        opt_view(res) == toggled_task(markdown@, index as int, checked),
        res is Some <==> index < task_markers(markdown_events(markdown@)).len(),
        index < task_markers(markdown_events(markdown@)).len() ==> (opt_view(res) == Some(
            markdown@,
        ) <==> marker_checked(task_markers(markdown_events(markdown@))[index as int]) == checked),
{
    let parsed = ParsedMarkdown::parse(markdown);
    let ghost ev = markdown_events(markdown@);
    let n = parsed.len();
    let mut count: usize = 0;
    let mut i: usize = 0;
    while i < n
        invariant
            parsed_source(parsed) == markdown@,
            ev == markdown_events(markdown@),
            n == ev.len(),
            i <= n,
            count <= i,
            count <= index,
            count == task_markers(ev.take(i as int)).len(),
        decreases n - i,
    {
        proof {
            lemma_markers_take(ev, i as int);
        }
        if let EventKind::TaskListMarker(was) = parsed.kind(i) {
            if count == index {
                let (start, end) = parsed.range(i);
                proof {
                    lemma_markers_prefix(ev, i + 1);
                    assert(task_markers(ev)[index as int] == ev[i as int]);
                    lemma_marker_in_bounds(markdown@, start as int, end as int, was);
                }
                if was != checked && !marker_fits(markdown, start, end) {
                    return None;
                }
                let res = toggle_marker(markdown, was, start, end, checked);
                proof {
                    if was != checked {
                        lemma_toggled_marker_differs(markdown@, was, start as int, end as int);
                    }
                }
                return res;
            }
            count += 1;
        }
        i += 1;
    }
    proof {
        assert(ev.take(n as int) =~= ev);
    }
    None
}

/// Setting a marker to the state it is not in changes the source.
proof fn lemma_toggled_marker_differs(markdown: Seq<char>, was: bool, start: int, end: int)
    requires
        marker_text(encode_utf8(markdown), start, end, was),
    ensures
        toggled_marker(markdown, was, start, end, !was) != Some(markdown),
{
    let bytes = encode_utf8(markdown);
    lemma_marker_in_bounds(markdown, start, end, was);
    encode_utf8_valid_utf8(markdown);
    let updated = bytes.update(end - 2, mark_byte(!was));
    lemma_rewrite_keeps_utf8(bytes, end - 2, mark_byte(!was));
    decode_utf8_encode_utf8(updated);
    assert(updated[end - 2] != bytes[end - 2]);
    assert(encode_utf8(decode_utf8(updated)) != bytes);
}

/// Toggling a task changes one byte of the source at most: a marker already in the wanted state
/// leaves the source as written, and otherwise only the byte after the marker's `[` changes, to
/// `x` when checking and to a space when unchecking.
pub proof fn lemma_toggle_changes_one_byte(markdown: Seq<char>, index: int, checked: bool)
    requires
        toggled_task(markdown, index, checked) is Some,
    ensures
        ({
            let result = toggled_task(markdown, index, checked)->0;
            let marker = task_markers(markdown_events(markdown))[index];
            let bytes = encode_utf8(markdown);
            &&& marker_checked(marker) == checked ==> result == markdown
            &&& marker_checked(marker) != checked ==> exists|p: int|
                marker.start <= p < marker.end && bytes[p] == 91u8 && encode_utf8(result)
                    == bytes.update(p + 1, mark_byte(checked))
        }),
{
    let marker = task_markers(markdown_events(markdown))[index];
    let bytes = encode_utf8(markdown);
    if marker_checked(marker) != checked {
        let p = first_bracket(bytes, marker.start as int, marker.end as int)->0;
        lemma_first_bracket(bytes, marker.start as int, marker.end as int);
        encode_utf8_valid_utf8(markdown);
        lemma_rewrite_keeps_utf8(bytes, p + 1, mark_byte(checked));
        decode_utf8_encode_utf8(bytes.update(p + 1, mark_byte(checked)));
        assert(marker.start <= p < marker.end && bytes[p] == 91u8);
    }
}

} // verus!
