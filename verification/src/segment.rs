//! Segments: pieces of text, each with a style of its own, and the lines
//! that are made of them.

use vstd::prelude::*;
use vstd::std_specs::cmp::PartialEqSpecImpl;
use vstd::string::StringExecFns;
use crate::cells::cell_width;
use crate::cells::lemma_sized_width;
use crate::cells::lemma_spaces_width;
use crate::cells::set_cell_size;
use crate::cells::sized;
use crate::cells::spaces;
use crate::cells::text_width;
use crate::strings::chars_of;
use crate::strings::string_of;
use crate::style::alike_optional_style;
use crate::style::combined;
use crate::style::is_copy_of;
use crate::style::same_optional_style;
use crate::style::Style;
use crate::style::StyleView;

verus! {

/// A segment as plain values.
pub struct SegmentView {
    pub text: Seq<char>,
    pub style: Option<StyleView>,
    pub is_control: bool,
}

/// A piece of text with a style. A control segment holds control codes: it
/// is sent to the terminal and takes no cell.
#[derive(Debug)]
pub struct Segment {
    text: String,
    style: Option<Style>,
    is_control: bool,
}

/// An optional style as plain values.
pub open spec fn style_view(style: Option<Style>) -> Option<StyleView> {
    match style {
        Some(s) => Some(s@),
        None => None,
    }
}

impl View for Segment {
    type V = SegmentView;

    closed spec fn view(&self) -> SegmentView {
        SegmentView { text: self.text@, style: style_view(self.style), is_control: self.is_control }
    }
}

/// The segments of a line as plain values.
pub open spec fn views(line: Seq<Segment>) -> Seq<SegmentView> {
    Seq::new(line.len(), |i: int| line[i]@)
}

/// The segments that a list of references points to, as plain values.
pub open spec fn views_of(line: Seq<&Segment>) -> Seq<SegmentView> {
    Seq::new(line.len(), |i: int| line[i]@)
}

/// The lines of a list as plain values.
pub open spec fn line_views(lines: Seq<Vec<Segment>>) -> Seq<Seq<SegmentView>> {
    Seq::new(lines.len(), |i: int| views(lines[i]@))
}

/// The lines of a list of slices as plain values.
pub open spec fn slice_views(lines: Seq<&[Segment]>) -> Seq<Seq<SegmentView>> {
    Seq::new(lines.len(), |i: int| views(lines[i]@))
}

/// The cells that a segment takes: none for a control segment, the width of
/// its text otherwise.
pub open spec fn segment_width(s: SegmentView) -> nat {
    if s.is_control {
        0
    } else {
        cell_width(s.text)
    }
}

/// The cells that a line takes: the sum over its segments.
pub open spec fn line_width(line: Seq<SegmentView>) -> nat
    decreases line.len(),
{
    if line.len() == 0 {
        0
    } else {
        line_width(line.drop_last()) + segment_width(line.last())
    }
}

/// The width of the widest of the lines, zero where there is none.
pub open spec fn widest(lines: Seq<Seq<SegmentView>>) -> nat
    decreases lines.len(),
{
    if lines.len() == 0 {
        0
    } else {
        let before = widest(lines.drop_last());
        if line_width(lines.last()) > before {
            line_width(lines.last())
        } else {
            before
        }
    }
}

/// Two segments are the same when they have the same text, the same style
/// (or none) and are both control segments or both not.
pub open spec fn same_segment(a: SegmentView, b: SegmentView) -> bool {
    a.text == b.text && same_optional_style(a.style, b.style) && a.is_control == b.is_control
}

/// Two segments are alike when they are the same and their styles are
/// written the same.
pub open spec fn alike(a: SegmentView, b: SegmentView) -> bool {
    a.text == b.text && alike_optional_style(a.style, b.style) && a.is_control == b.is_control
}

/// Two lines are alike when they have as many segments, alike one by one.
pub open spec fn all_alike(a: Seq<SegmentView>, b: Seq<SegmentView>) -> bool {
    a.len() == b.len() && forall|i: int| 0 <= i < a.len() ==> alike(#[trigger] a[i], b[i])
}

/// Two lists of lines are alike when they have as many lines, alike one by
/// one.
pub open spec fn lines_alike(a: Seq<Seq<SegmentView>>, b: Seq<Seq<SegmentView>>) -> bool {
    a.len() == b.len() && forall|i: int| 0 <= i < a.len() ==> all_alike(#[trigger] a[i], b[i])
}

/// A copy of a segment has its text and kind, and a copy of its style.
pub open spec fn is_segment_copy(copy: SegmentView, original: SegmentView) -> bool {
    &&& copy.text == original.text
    &&& copy.is_control == original.is_control
    &&& match (copy.style, original.style) {
        (Some(c), Some(o)) => is_copy_of(c, o),
        (None, None) => true,
        _ => false,
    }
}

/// The segments of `line` whose kind is `want_control`, in their order.
pub open spec fn of_kind(line: Seq<SegmentView>, want_control: bool) -> Seq<SegmentView>
    decreases line.len(),
{
    if line.len() == 0 {
        Seq::empty()
    } else if line.last().is_control == want_control {
        of_kind(line.drop_last(), want_control).push(line.last())
    } else {
        of_kind(line.drop_last(), want_control)
    }
}

/// A segment with `style` laid over its own: a control segment loses its
/// style, any other gets the combination, `style` first.
pub open spec fn styled(s: SegmentView, style: Option<StyleView>) -> SegmentView {
    match style {
        None => s,
        Some(over) => SegmentView {
            text: s.text,
            style: if s.is_control {
                None
            } else {
                Some(combined(over, s.style))
            },
            is_control: s.is_control,
        },
    }
}

/// A segment without its link: a control segment and a segment without a
/// style stay as they are.
pub open spec fn unlinked(s: SegmentView) -> SegmentView {
    match s.style {
        Some(style) if !s.is_control => SegmentView {
            text: s.text,
            style: Some(StyleView { link: None, ..style }),
            is_control: false,
        },
        _ => s,
    }
}

/// A segment without its style.
pub open spec fn unstyled(s: SegmentView) -> SegmentView {
    SegmentView { text: s.text, style: None, is_control: s.is_control }
}

/// A segment as a control segment.
pub open spec fn as_control(s: SegmentView) -> SegmentView {
    SegmentView { text: s.text, style: s.style, is_control: true }
}

/// The line break: a new line without a style.
pub open spec fn line_break(is_control: bool) -> SegmentView {
    SegmentView { text: seq!['\n'], style: None, is_control }
}

impl Clone for Segment {
    fn clone(&self) -> (copy: Self)
        ensures
            is_segment_copy(copy@, self@),
            alike(copy@, self@),
    {
        Segment {
            text: self.text.clone(),
            style: match &self.style {
                Some(s) => Some(s.clone()),
                None => None,
            },
            is_control: self.is_control,
        }
    }
}

impl PartialEq for Segment {
    fn eq(&self, other: &Self) -> (same: bool) {
        let styles = match (&self.style, &other.style) {
            (Some(a), Some(b)) => a == b,
            (None, None) => true,
            _ => false,
        };
        self.text == other.text && styles && self.is_control == other.is_control
    }
}

impl PartialEqSpecImpl for Segment {
    open spec fn obeys_eq_spec() -> bool {
        true
    }

    open spec fn eq_spec(&self, other: &Self) -> bool {
        same_segment(self@, other@)
    }
}

impl Eq for Segment {

}

impl Segment {
    /// A segment of the given text and style.
    pub fn new(text: &str, style: Option<Style>, is_control: bool) -> (segment: Self)
        ensures
            segment@ == (SegmentView { text: text@, style: style_view(style), is_control }),
    {
        Segment { text: text.to_owned(), style, is_control }
    }

    /// A control segment of the given text and style.
    pub fn control(text: &str, style: Option<Style>) -> (segment: Self)
        ensures
            segment@ == (SegmentView { text: text@, style: style_view(style), is_control: true }),
    {
        Segment { text: text.to_owned(), style, is_control: true }
    }

    /// The text, the style, and whether this is a control segment.
    pub fn as_tuple(&self) -> (parts: (&str, &Option<Style>, bool))
        ensures
            parts.0@ == self@.text,
            style_view(*parts.1) == self@.style,
            parts.2 == self@.is_control,
    {
        (self.text.as_str(), &self.style, self.is_control)
    }

    /// The text.
    pub fn text(&self) -> (text: &str)
        ensures
            text@ == self@.text,
    {
        self.text.as_str()
    }

    /// Whether the segment has any text.
    pub fn as_bool(&self) -> (filled: bool)
        ensures
            filled == (self@.text.len() > 0),
    {
        !self.text.as_str().is_empty()
    }

    /// The number of cells that the segment takes.
    pub fn cell_len(&self) -> (width: usize)
        ensures
            width == segment_width(self@),
    {
        if self.is_control {
            0
        } else {
            text_width(self.text.as_str())
        }
    }

    /// The same segments as control segments.
    pub fn make_control(segments: Vec<Segment>) -> (controls: Vec<Segment>)
        ensures
            controls@.len() == segments@.len(),
            forall|i: int|
                0 <= i < segments@.len() ==> (#[trigger] controls@[i])@ == as_control(segments@[i]@),
    {
        let mut segments = segments;
        let mut i: usize = 0;
        let ghost original = segments@;
        while i < segments.len()
            invariant
                i <= segments@.len(),
                segments@.len() == original.len(),
                forall|j: int| 0 <= j < i ==> (#[trigger] segments@[j])@ == as_control(original[j]@),
                forall|j: int| i <= j < segments@.len() ==> segments@[j] == original[j],
            decreases segments@.len() - i,
        {
            let mut segment = Segment { text: String::new(), style: None, is_control: true };
            core::mem::swap(&mut segment, &mut segments[i]);
            segment.is_control = true;
            segments[i] = segment;
            i = i + 1;
        }
        segments
    }

    /// A line break, as a control segment where `is_control` is true.
    pub fn line(is_control: Option<bool>) -> (segment: Self)
        ensures
            segment@ == line_break(is_control == Some(true)),
    {
        let mut text = String::new();
        text.push('\n');
        assert(text@ =~= seq!['\n']);
        Segment {
            text,
            style: None,
            is_control: match is_control {
                Some(c) => c,
                None => false,
            },
        }
    }

    /// Lays `style` over each of the segments. Without a style the segments
    /// are copied as they are. With one, a control segment loses its style
    /// and every other segment gets `style` combined with its own.
    pub fn apply_style(segments: &[Segment], style: Option<Style>) -> (result: Vec<Segment>)
        ensures
            result@.len() == segments@.len(),
            forall|i: int|
                0 <= i < segments@.len() ==> alike(
                    (#[trigger] result@[i])@,
                    styled(segments@[i]@, style_view(style)),
                ),
    {
        let mut result: Vec<Segment> = Vec::new();
        let mut i: usize = 0;
        while i < segments.len()
            invariant
                i <= segments@.len(),
                result@.len() == i,
                forall|j: int|
                    0 <= j < i ==> alike(
                        (#[trigger] result@[j])@,
                        styled(segments@[j]@, style_view(style)),
                    ),
            decreases segments@.len() - i,
        {
            let s = &segments[i];
            let styled_segment = match &style {
                Some(over) => Segment {
                    text: s.text.clone(),
                    style: if s.is_control {
                        None
                    } else {
                        Some(over.combine(s.style.as_ref()))
                    },
                    is_control: s.is_control,
                },
                None => s.clone(),
            };
            result.push(styled_segment);
            i = i + 1;
        }
        result
    }

    /// The segments whose kind is `is_control`, in their order.
    pub fn filter_control(segments: &[Segment], is_control: bool) -> (kept: Vec<&Segment>)
        ensures
            views_of(kept@) == of_kind(views(segments@), is_control),
    {
        let mut kept: Vec<&Segment> = Vec::new();
        let mut i: usize = 0;
        let ghost all = views(segments@);
        assert(all.take(0) =~= Seq::<SegmentView>::empty());
        assert(views_of(kept@) =~= Seq::<SegmentView>::empty());
        while i < segments.len()
            invariant
                i <= segments@.len(),
                all == views(segments@),
                views_of(kept@) == of_kind(all.take(i as int), is_control),
            decreases segments@.len() - i,
        {
            assert(all.take(i + 1).drop_last() =~= all.take(i as int));
            assert(all.take(i + 1).last() == segments@[i as int]@);
            if segments[i].is_control == is_control {
                let ghost before = kept@;
                kept.push(&segments[i]);
                assert(views_of(kept@) =~= views_of(before).push(segments@[i as int]@));
            }
            i = i + 1;
        }
        assert(all.take(segments@.len() as int) =~= all);
        kept
    }

    /// The segments without their links. Control segments and segments
    /// without a style are copied as they are.
    pub fn strip_links(segments: &[Segment]) -> (result: Vec<Segment>)
        ensures
            result@.len() == segments@.len(),
            forall|i: int|
                0 <= i < segments@.len() ==> alike((#[trigger] result@[i])@, unlinked(segments@[i]@)),
    {
        let mut result: Vec<Segment> = Vec::new();
        let mut i: usize = 0;
        while i < segments.len()
            invariant
                i <= segments@.len(),
                result@.len() == i,
                forall|j: int|
                    0 <= j < i ==> alike((#[trigger] result@[j])@, unlinked(segments@[j]@)),
            decreases segments@.len() - i,
        {
            let segment = &segments[i];
            let stripped = match &segment.style {
                Some(style) if !segment.is_control => Segment {
                    text: segment.text.clone(),
                    style: Some(style.update_link(None)),
                    is_control: false,
                },
                _ => segment.clone(),
            };
            result.push(stripped);
            i = i + 1;
        }
        result
    }

    /// The segments without their styles.
    pub fn strip_styles(segments: &[Segment]) -> (result: Vec<Segment>)
        ensures
            result@.len() == segments@.len(),
            forall|i: int|
                0 <= i < segments@.len() ==> (#[trigger] result@[i])@ == unstyled(segments@[i]@),
    {
        let mut result: Vec<Segment> = Vec::new();
        let mut i: usize = 0;
        while i < segments.len()
            invariant
                i <= segments@.len(),
                result@.len() == i,
                forall|j: int| 0 <= j < i ==> (#[trigger] result@[j])@ == unstyled(segments@[j]@),
            decreases segments@.len() - i,
        {
            let segment = &segments[i];
            result.push(
                Segment { text: segment.text.clone(), style: None, is_control: segment.is_control },
            );
            i = i + 1;
        }
        result
    }

    /// The number of cells that a line takes.
    pub fn get_line_length(line: &[Segment]) -> (width: usize)
        requires
            line_width(views(line@)) <= usize::MAX,
        ensures
            width == line_width(views(line@)),
    {
        let mut total: usize = 0;
        let mut i: usize = 0;
        let ghost all = views(line@);
        assert(all.take(0) =~= Seq::<SegmentView>::empty());
        while i < line.len()
            invariant
                i <= line@.len(),
                all == views(line@),
                total == line_width(all.take(i as int)),
                line_width(all) <= usize::MAX,
            decreases line@.len() - i,
        {
            let w = line[i].cell_len();
            proof {
                assert(all.take(i + 1).drop_last() =~= all.take(i as int));
                assert(all.take(i + 1).last() == line@[i as int]@);
                lemma_line_width_prefix(all, i + 1);
            }
            total = total + w;
            i = i + 1;
        }
        assert(all.take(line@.len() as int) =~= all);
        total
    }

    /// The shape of a list of lines: the width of the widest, and their
    /// number.
    pub fn get_shape(lines: &[&[Segment]]) -> (shape: (usize, usize))
        requires
            forall|i: int|
                0 <= i < lines@.len() ==> line_width(#[trigger] slice_views(lines@)[i]) <= usize::MAX,
        ensures
            shape.0 == widest(slice_views(lines@)),
            shape.1 == lines@.len(),
    {
        let mut max_width: usize = 0;
        let mut i: usize = 0;
        let ghost all = slice_views(lines@);
        assert(all.take(0) =~= Seq::<Seq<SegmentView>>::empty());
        while i < lines.len()
            invariant
                i <= lines@.len(),
                all == slice_views(lines@),
                max_width == widest(all.take(i as int)),
                forall|j: int| 0 <= j < lines@.len() ==> line_width(#[trigger] all[j]) <= usize::MAX,
            decreases lines@.len() - i,
        {
            assert(all.take(i + 1).drop_last() =~= all.take(i as int));
            assert(all.take(i + 1).last() == all[i as int]);
            assert(all[i as int] == views(lines@[i as int]@));
            let w = Segment::get_line_length(lines[i]);
            if w > max_width {
                max_width = w;
            }
            i = i + 1;
        }
        assert(all.take(lines@.len() as int) =~= all);
        (max_width, lines.len())
    }
}

/// The width of a line is the sum of the widths of its two parts.
pub proof fn lemma_line_width_concat(a: Seq<SegmentView>, b: Seq<SegmentView>)
    ensures
        line_width(a + b) == line_width(a) + line_width(b),
    decreases b.len(),
{
    if b.len() == 0 {
        assert(a + b =~= a);
    } else {
        lemma_line_width_concat(a, b.drop_last());
        assert((a + b).drop_last() =~= a + b.drop_last());
    }
}

/// The start of a line is never wider than the line.
pub proof fn lemma_line_width_prefix(line: Seq<SegmentView>, n: int)
    requires
        0 <= n <= line.len(),
    ensures
        line_width(line.take(n)) <= line_width(line),
{
    lemma_line_width_concat(line.take(n), line.skip(n));
    assert(line.take(n) + line.skip(n) =~= line);
}

/// The segment of spaces that fills a line up.
pub open spec fn padding_segment(n: nat, style: Option<StyleView>) -> SegmentView {
    SegmentView { text: spaces(n), style, is_control: false }
}

/// A line cut to `budget` cells. Going from the left, a control segment is
/// kept as it is, and so is a segment that leaves at least one cell of the
/// budget free. The first segment that does not is cut to the cells that are
/// left, and nothing after it is kept.
pub open spec fn cropped(line: Seq<SegmentView>, budget: nat) -> Seq<SegmentView>
    decreases line.len(),
{
    if line.len() == 0 {
        Seq::empty()
    } else {
        let s = line[0];
        if s.is_control || segment_width(s) < budget {
            seq![s] + cropped(line.drop_first(), (budget - segment_width(s)) as nat)
        } else {
            seq![SegmentView { text: sized(s.text, budget), style: s.style, is_control: false }]
        }
    }
}

/// A line brought to `length` cells: filled up with one segment of spaces in
/// the style `style` where it is shorter and `padding` is true, cut where it
/// is longer, and left as it is otherwise.
pub open spec fn adjusted(
    line: Seq<SegmentView>,
    length: nat,
    style: Option<StyleView>,
    padding: bool,
) -> Seq<SegmentView> {
    let width = line_width(line);
    if width < length {
        if padding {
            line.push(padding_segment((length - width) as nat, style))
        } else {
            line
        }
    } else if width > length {
        cropped(line, length)
    } else {
        line
    }
}

/// The width of a line is the width of its first segment and of the rest.
pub proof fn lemma_line_width_first(line: Seq<SegmentView>)
    requires
        line.len() > 0,
    ensures
        line_width(line) == segment_width(line[0]) + line_width(line.drop_first()),
{
    let head = seq![line[0]];
    lemma_line_width_concat(head, line.drop_first());
    assert(head + line.drop_first() =~= line);
    assert(head.drop_last() =~= Seq::<SegmentView>::empty());
    assert(line_width(head.drop_last()) == 0);
}

/// Lines that are alike are equally wide.
pub proof fn lemma_alike_width(a: Seq<SegmentView>, b: Seq<SegmentView>)
    requires
        all_alike(a, b),
    ensures
        line_width(a) == line_width(b),
    decreases a.len(),
{
    if a.len() > 0 {
        assert(alike(a[a.len() - 1], b[a.len() - 1]));
        assert forall|i: int| 0 <= i < a.len() - 1 implies alike(
            #[trigger] a.drop_last()[i],
            b.drop_last()[i],
        ) by {
            assert(alike(a[i], b[i]));
        }
        lemma_alike_width(a.drop_last(), b.drop_last());
    }
}

/// A line that is at least as wide as the budget is exactly as wide as the
/// budget once it is cut.
pub proof fn lemma_cropped_width(line: Seq<SegmentView>, budget: nat)
    requires
        line_width(line) >= budget,
    ensures
        line_width(cropped(line, budget)) == budget,
    decreases line.len(),
{
    if line.len() > 0 {
        let s = line[0];
        lemma_line_width_first(line);
        if s.is_control || segment_width(s) < budget {
            let rest = cropped(line.drop_first(), (budget - segment_width(s)) as nat);
            lemma_cropped_width(line.drop_first(), (budget - segment_width(s)) as nat);
            lemma_line_width_first(seq![s] + rest);
            assert((seq![s] + rest).drop_first() =~= rest);
        } else {
            let cut = SegmentView { text: sized(s.text, budget), style: s.style, is_control: false };
            lemma_sized_width(s.text, budget);
            lemma_line_width_first(seq![cut]);
            assert(seq![cut].drop_first() =~= Seq::<SegmentView>::empty());
        }
    }
}

/// A line that is adjusted with padding takes exactly the cells asked for.
pub proof fn lemma_adjusted_width(line: Seq<SegmentView>, length: nat, style: Option<StyleView>)
    ensures
        line_width(adjusted(line, length, style, true)) == length,
{
    let width = line_width(line);
    if width < length {
        let pad = padding_segment((length - width) as nat, style);
        lemma_spaces_width((length - width) as nat);
        assert(line.push(pad).drop_last() =~= line);
    } else if width > length {
        lemma_cropped_width(line, length);
    }
}

/// Cutting lines that are alike gives lines that are alike.
pub proof fn lemma_cropped_alike(a: Seq<SegmentView>, b: Seq<SegmentView>, budget: nat)
    requires
        all_alike(a, b),
    ensures
        all_alike(cropped(a, budget), cropped(b, budget)),
    decreases a.len(),
{
    if a.len() > 0 {
        assert(alike(a[0], b[0]));
        let s = a[0];
        if s.is_control || segment_width(s) < budget {
            assert forall|i: int| 0 <= i < a.len() - 1 implies alike(
                #[trigger] a.drop_first()[i],
                b.drop_first()[i],
            ) by {
                assert(alike(a[i + 1], b[i + 1]));
            }
            let rest = (budget - segment_width(s)) as nat;
            lemma_cropped_alike(a.drop_first(), b.drop_first(), rest);
            let ca = cropped(a.drop_first(), rest);
            let cb = cropped(b.drop_first(), rest);
            assert forall|i: int| 0 <= i < (seq![a[0]] + ca).len() implies alike(
                #[trigger] (seq![a[0]] + ca)[i],
                (seq![b[0]] + cb)[i],
            ) by {
                if i > 0 {
                    assert(alike(ca[i - 1], cb[i - 1]));
                }
            }
        }
    }
}

/// Adjusting lines that are alike, with styles that are alike, gives lines
/// that are alike.
pub proof fn lemma_adjusted_alike(
    a: Seq<SegmentView>,
    b: Seq<SegmentView>,
    length: nat,
    style_a: Option<StyleView>,
    style_b: Option<StyleView>,
    padding: bool,
)
    requires
        all_alike(a, b),
        alike_optional_style(style_a, style_b),
    ensures
        all_alike(adjusted(a, length, style_a, padding), adjusted(b, length, style_b, padding)),
{
    lemma_alike_width(a, b);
    lemma_cropped_alike(a, b, length);
}

/// Copies of the segments of a line.
fn copy_line(line: &[Segment]) -> (copy: Vec<Segment>)
    ensures
        all_alike(views(copy@), views(line@)),
{
    let mut copy: Vec<Segment> = Vec::new();
    let mut i: usize = 0;
    while i < line.len()
        invariant
            i <= line@.len(),
            copy@.len() == i,
            forall|j: int| 0 <= j < i ==> alike((#[trigger] copy@[j])@, line@[j]@),
        decreases line@.len() - i,
    {
        copy.push(line[i].clone());
        i = i + 1;
    }
    copy
}

/// A string of `n` spaces.
fn spaces_string(n: usize) -> (s: String)
    ensures
        s@ == spaces(n as nat),
{
    let mut s = String::new();
    let mut i: usize = 0;
    assert(s@ =~= spaces(0));
    while i < n
        invariant
            i <= n,
            s@ == spaces(i as nat),
        decreases n - i,
    {
        s.push(' ');
        i = i + 1;
        assert(s@ =~= spaces(i as nat));
    }
    s
}

/// A line of segments that take no cell takes no cell, and the other way
/// round.
pub proof fn lemma_line_width_zero(line: Seq<SegmentView>)
    ensures
        line_width(line) == 0 <==> (forall|i: int|
            0 <= i < line.len() ==> segment_width(#[trigger] line[i]) == 0),
    decreases line.len(),
{
    if line.len() > 0 {
        lemma_line_width_zero(line.drop_last());
        if line_width(line) == 0 {
            assert forall|i: int| 0 <= i < line.len() implies segment_width(#[trigger] line[i])
                == 0 by {
                if i < line.len() - 1 {
                    assert(line.drop_last()[i] == line[i]);
                }
            }
        } else {
            if forall|i: int| 0 <= i < line.len() ==> segment_width(#[trigger] line[i]) == 0 {
                assert forall|i: int| 0 <= i < line.len() - 1 implies segment_width(
                    #[trigger] line.drop_last()[i],
                ) == 0 by {
                    assert(line.drop_last()[i] == line[i]);
                }
                assert(segment_width(line[line.len() - 1]) == 0);
            }
        }
    }
}

/// Whether the segments from `from` on take no cell at all.
fn takes_no_cell(line: &[Segment], from: usize) -> (none: bool)
    requires
        from <= line@.len(),
    ensures
        none == (line_width(views(line@).skip(from as int)) == 0),
{
    let ghost rest = views(line@).skip(from as int);
    let mut i: usize = from;
    while i < line.len()
        invariant
            from <= i <= line@.len(),
            rest == views(line@).skip(from as int),
            forall|j: int| 0 <= j < i - from ==> segment_width(#[trigger] rest[j]) == 0,
        decreases line@.len() - i,
    {
        let w = line[i].cell_len();
        assert(rest[i - from] == line@[i as int]@);
        if w > 0 {
            proof {
                assert(segment_width(rest[i - from]) > 0);
                lemma_line_width_zero(rest);
            }
            return false;
        }
        i = i + 1;
    }
    proof {
        lemma_line_width_zero(rest);
    }
    true
}

/// Adds copies of the segments from `from` on to `copy`.
fn copy_rest(copy: &mut Vec<Segment>, line: &[Segment], from: usize)
    requires
        from <= line@.len(),
        old(copy)@.len() == from,
        forall|j: int| 0 <= j < from ==> alike((#[trigger] old(copy)@[j])@, line@[j]@),
    ensures
        all_alike(views(final(copy)@), views(line@)),
{
    let mut i: usize = from;
    while i < line.len()
        invariant
            from <= i <= line@.len(),
            copy@.len() == i,
            forall|j: int| 0 <= j < i ==> alike((#[trigger] copy@[j])@, line@[j]@),
        decreases line@.len() - i,
    {
        copy.push(line[i].clone());
        i = i + 1;
    }
}

impl Segment {
    /// Brings a line to `length` cells. A shorter line is filled up with
    /// one segment of spaces in the style `style`, unless `padding` is
    /// `Some(false)`. A longer line is cut: see `cropped`. The segments of
    /// the result are copies.
    pub fn adjust_line_length(
        line: &[Segment],
        length: usize,
        style: Option<Style>,
        padding: Option<bool>,
    ) -> (new_line: Vec<Segment>)
        ensures
            all_alike(
                views(new_line@),
                adjusted(views(line@), length as nat, style_view(style), padding != Some(false)),
            ),
            padding != Some(false) ==> line_width(views(new_line@)) == length,
    {
        let padding = match padding {
            Some(p) => p,
            None => true,
        };
        let ghost all = views(line@);
        let ghost want = adjusted(all, length as nat, style_view(style), padding);
        proof {
            if padding {
                lemma_adjusted_width(all, length as nat, style_view(style));
            }
            assert(all.take(0) =~= Seq::<SegmentView>::empty());
            assert(all.skip(0) =~= all);
            assert(all.take(0) + cropped(all, length as nat) =~= cropped(all, length as nat));
        }
        let mut new_line: Vec<Segment> = Vec::new();
        let mut used: usize = 0;
        let mut i: usize = 0;
        let mut stopped = false;
        while i < line.len() && !stopped
            invariant
                i <= line@.len(),
                all == views(line@),
                used <= length,
                used == line_width(all.take(i as int)),
                new_line@.len() == i,
                cropped(all, length as nat) == all.take(i as int) + cropped(
                    all.skip(i as int),
                    (length - used) as nat,
                ),
                forall|j: int| 0 <= j < i ==> alike((#[trigger] new_line@[j])@, all[j]),
                stopped ==> i < line@.len() && !all[i as int].is_control && segment_width(
                    all[i as int],
                ) >= length - used,
            decreases line@.len() - i, if stopped { 0int } else { 1int },
        {
            let segment = &line[i];
            let segment_length = segment.cell_len();
            if segment.is_control || segment_length < length - used {
                proof {
                    let rest = all.skip(i as int);
                    assert(rest[0] == all[i as int]);
                    assert(rest.drop_first() =~= all.skip(i + 1));
                    assert(all.take(i + 1).drop_last() =~= all.take(i as int));
                    assert(all.take(i as int) + (seq![all[i as int]] + cropped(
                        all.skip(i + 1),
                        (length - used - segment_length) as nat,
                    )) =~= all.take(i + 1) + cropped(
                        all.skip(i + 1),
                        (length - used - segment_length) as nat,
                    ));
                }
                new_line.push(segment.clone());
                used = used + segment_length;
                i = i + 1;
            } else {
                stopped = true;
            }
        }
        if stopped {
            let segment = &line[i];
            let segment_length = segment.cell_len();
            let ghost rest = all.skip(i as int);
            proof {
                assert(rest[0] == all[i as int]);
                assert(rest.drop_first() =~= all.skip(i + 1));
                lemma_line_width_concat(all.take(i as int), rest);
                assert(all.take(i as int) + rest =~= all);
                lemma_line_width_first(rest);
            }
            if segment_length == length - used && takes_no_cell(line, i + 1) {
                copy_rest(&mut new_line, line, i);
                proof {
                    assert(line_width(all) == length);
                    assert(want == all);
                    lemma_alike_width(views(new_line@), want);
                }
                return new_line;
            }
            let text = set_cell_size(segment.text.as_str(), length - used);
            let ghost cut = SegmentView {
                text: sized(all[i as int].text, (length - used) as nat),
                style: all[i as int].style,
                is_control: false,
            };
            new_line.push(
                Segment {
                    text,
                    style: match &segment.style {
                        Some(s) => Some(s.clone()),
                        None => None,
                    },
                    is_control: false,
                },
            );
            proof {
                assert(line_width(all) > length);
                assert(cropped(rest, (length - used) as nat) =~= seq![cut]);
                assert(want =~= all.take(i as int).push(cut));
                assert forall|j: int| 0 <= j < views(new_line@).len() implies alike(
                    #[trigger] views(new_line@)[j],
                    want[j],
                ) by {
                    if j < i {
                        assert(alike(new_line@[j]@, all[j]));
                    }
                }
                lemma_alike_width(views(new_line@), want);
            }
            return new_line;
        }
        proof {
            assert(all.take(line@.len() as int) =~= all);
        }
        if used < length && padding {
            let fill = spaces_string(length - used);
            let ghost before = new_line@;
            new_line.push(Segment { text: fill, style, is_control: false });
            assert(views(new_line@) =~= views(before).push(new_line@.last()@));
            assert forall|j: int| 0 <= j < views(new_line@).len() implies alike(
                #[trigger] views(new_line@)[j],
                want[j],
            ) by {
                if j < before.len() {
                    assert(alike(before[j]@, all[j]));
                }
            }
        } else {
            assert(want == all);
            assert forall|j: int| 0 <= j < views(new_line@).len() implies alike(
                #[trigger] views(new_line@)[j],
                want[j],
            ) by {
                assert(alike(new_line@[j]@, all[j]));
            }
        }
        proof {
            lemma_alike_width(views(new_line@), want);
        }
        new_line
    }
}

/// The place of the first line feed in `s`, or the length of `s` where it
/// has none.
pub open spec fn first_newline(s: Seq<char>) -> nat
    decreases s.len(),
{
    if s.len() == 0 || s[0] == '\n' {
        0
    } else {
        1 + first_newline(s.drop_first())
    }
}

/// The first line feed is never past the end.
pub proof fn lemma_first_newline_bound(s: Seq<char>)
    ensures
        first_newline(s) <= s.len(),
        first_newline(s) < s.len() ==> s[first_newline(s) as int] == '\n',
    decreases s.len(),
{
    if !(s.len() == 0 || s[0] == '\n') {
        lemma_first_newline_bound(s.drop_first());
    }
}

/// Lines in the making: the lines that are complete, and the segments of
/// the line that is still open.
pub struct SplitLines {
    pub complete: Seq<Seq<SegmentView>>,
    pub open: Seq<SegmentView>,
}

/// A text spread over lines: each line feed in it closes the open line,
/// after the text before it has gone to that line as a segment. What
/// follows the last line feed goes to the open line, unless it is empty.
pub open spec fn split_text(lines: SplitLines, text: Seq<char>, style: Option<StyleView>) -> SplitLines
    decreases text.len(),
{
    if text.len() == 0 {
        lines
    } else {
        let i = first_newline(text);
        let piece = SegmentView { text: text.take(i as int), style, is_control: false };
        if i < text.len() {
            split_text(
                SplitLines { complete: lines.complete.push(lines.open.push(piece)), open: Seq::empty() },
                text.skip(i as int + 1),
                style,
            )
        } else {
            SplitLines { complete: lines.complete, open: lines.open.push(piece) }
        }
    }
}

/// One more segment for lines in the making: a segment with a line feed in
/// its text is spread over lines, unless it is a control segment; any other
/// segment goes to the open line.
pub open spec fn split_segment(lines: SplitLines, s: SegmentView) -> SplitLines {
    if first_newline(s.text) < s.text.len() && !s.is_control {
        split_text(lines, s.text, s.style)
    } else {
        SplitLines { complete: lines.complete, open: lines.open.push(s) }
    }
}

/// The lines that a sequence of segments makes.
pub open spec fn split_all(segments: Seq<SegmentView>) -> SplitLines
    decreases segments.len(),
{
    if segments.len() == 0 {
        SplitLines { complete: Seq::empty(), open: Seq::empty() }
    } else {
        split_segment(split_all(segments.drop_last()), segments.last())
    }
}

/// The lines of a sequence of segments: the complete ones, and the open one
/// after them where it holds anything.
pub open spec fn split(segments: Seq<SegmentView>) -> Seq<Seq<SegmentView>> {
    let lines = split_all(segments);
    if lines.open.len() > 0 {
        lines.complete.push(lines.open)
    } else {
        lines.complete
    }
}

/// A line that a line feed closed, brought to `length` cells, with a line
/// break after it where `include_new_lines` is true.
pub open spec fn closed_line(
    line: Seq<SegmentView>,
    length: nat,
    style: Option<StyleView>,
    padding: bool,
    include_new_lines: bool,
) -> Seq<SegmentView> {
    let line = adjusted(line, length, style, padding);
    if include_new_lines {
        line.push(line_break(false))
    } else {
        line
    }
}

/// The lines of a sequence of segments, each brought to `length` cells. A
/// line that a line feed closed gets a line break after it where
/// `include_new_lines` is true.
pub open spec fn split_and_cropped(
    segments: Seq<SegmentView>,
    length: nat,
    style: Option<StyleView>,
    padding: bool,
    include_new_lines: bool,
) -> Seq<Seq<SegmentView>> {
    let lines = split_all(segments);
    let complete = Seq::new(
        lines.complete.len(),
        |i: int| closed_line(lines.complete[i], length, style, padding, include_new_lines),
    );
    if lines.open.len() > 0 {
        complete.push(adjusted(lines.open, length, style, padding))
    } else {
        complete
    }
}

/// Lines brought to a shape: `height` lines of `width` cells each. The lines
/// that are there are adjusted, in order; lines of spaces stand in for those
/// that are missing.
pub open spec fn shaped(
    lines: Seq<Seq<SegmentView>>,
    width: nat,
    height: nat,
    style: Option<StyleView>,
) -> Seq<Seq<SegmentView>> {
    Seq::new(
        height,
        |i: int|
            if i < lines.len() {
                adjusted(lines[i], width, style, true)
            } else {
                seq![padding_segment(width, style)]
            },
    )
}

/// The place of the first line feed in `chars[from..]`, counted from `from`.
pub fn find_newline(chars: &[char], from: usize) -> (place: usize)
    requires
        from <= chars@.len(),
    ensures
        place == first_newline(chars@.skip(from as int)),
        from + place <= chars@.len(),
{
    let ghost s = chars@.skip(from as int);
    let mut i: usize = from;
    assert(s.skip(0) =~= s);
    while i < chars.len() && chars[i] != '\n'
        invariant
            from <= i <= chars@.len(),
            s == chars@.skip(from as int),
            first_newline(s) == (i - from) + first_newline(s.skip(i - from)),
        decreases chars@.len() - i,
    {
        assert(s.skip(i - from).drop_first() =~= s.skip(i - from + 1));
        i = i + 1;
    }
    i - from
}

/// A copy of an optional style.
fn copy_style(style: &Option<Style>) -> (copy: Option<Style>)
    ensures
        alike_optional_style(style_view(copy), style_view(*style)),
{
    match style {
        Some(s) => Some(s.clone()),
        None => None,
    }
}

/// The lines that `segments` make: the complete ones, and the open one.
fn split_into(segments: &[Segment]) -> (lines: (Vec<Vec<Segment>>, Vec<Segment>))
    ensures
        lines_alike(line_views(lines.0@), split_all(views(segments@)).complete),
        all_alike(views(lines.1@), split_all(views(segments@)).open),
{
    let mut complete: Vec<Vec<Segment>> = Vec::new();
    let mut line: Vec<Segment> = Vec::new();
    let ghost all = views(segments@);
    let mut i: usize = 0;
    assert(all.take(0) =~= Seq::<SegmentView>::empty());
    while i < segments.len()
        invariant
            i <= segments@.len(),
            all == views(segments@),
            lines_alike(line_views(complete@), split_all(all.take(i as int)).complete),
            all_alike(views(line@), split_all(all.take(i as int)).open),
        decreases segments@.len() - i,
    {
        let segment = &segments[i];
        let ghost before = split_all(all.take(i as int));
        proof {
            assert(all.take(i + 1).drop_last() =~= all.take(i as int));
            assert(all.take(i + 1).last() == segment@);
        }
        let chars = chars_of(segment.text.as_str());
        let first = find_newline(chars.as_slice(), 0);
        assert(chars@.skip(0) =~= chars@);
        if first < chars.len() && !segment.is_control {
            let mut from: usize = 0;
            let ghost mut expected = before;
            while from < chars.len()
                invariant
                    from <= chars@.len(),
                    chars@ == segment@.text,
                    lines_alike(line_views(complete@), expected.complete),
                    all_alike(views(line@), expected.open),
                    split_text(expected, chars@.skip(from as int), segment@.style) == split_text(
                        before,
                        chars@,
                        segment@.style,
                    ),
                decreases chars@.len() - from,
            {
                let place = find_newline(chars.as_slice(), from);
                let ghost rest = chars@.skip(from as int);
                let text = string_of(chars.as_slice(), from, from + place);
                let ghost piece = SegmentView {
                    text: rest.take(place as int),
                    style: segment@.style,
                    is_control: false,
                };
                assert(chars@.subrange(from as int, from + place) =~= rest.take(place as int));
                let ghost old_line = line@;
                line.push(Segment { text, style: copy_style(&segment.style), is_control: false });
                proof {
                    assert(alike(line@.last()@, piece));
                    assert forall|j: int| 0 <= j < views(line@).len() implies alike(
                        #[trigger] views(line@)[j],
                        expected.open.push(piece)[j],
                    ) by {
                        if j < old_line.len() {
                            assert(alike(views(old_line)[j], expected.open[j]));
                        }
                    }
                }
                if from + place < chars.len() {
                    let ghost old_complete = complete@;
                    complete.push(line);
                    line = Vec::new();
                    proof {
                        let next = SplitLines {
                            complete: expected.complete.push(expected.open.push(piece)),
                            open: Seq::empty(),
                        };
                        assert forall|j: int| 0 <= j < line_views(complete@).len() implies all_alike(
                            #[trigger] line_views(complete@)[j],
                            next.complete[j],
                        ) by {
                            if j < old_complete.len() {
                                assert(all_alike(line_views(old_complete)[j], expected.complete[j]));
                            }
                        }
                        assert(rest.skip(place + 1) =~= chars@.skip(from + place + 1));
                        expected = next;
                    }
                    from = from + place + 1;
                } else {
                    proof {
                        expected =
                        SplitLines { complete: expected.complete, open: expected.open.push(piece) };
                        assert(chars@.skip(chars@.len() as int) =~= Seq::<char>::empty());
                    }
                    from = chars.len();
                }
            }
            assert(chars@.skip(from as int) =~= Seq::<char>::empty());
        } else {
            let ghost old_line = line@;
            line.push(segment.clone());
            proof {
                assert forall|j: int| 0 <= j < views(line@).len() implies alike(
                    #[trigger] views(line@)[j],
                    before.open.push(segment@)[j],
                ) by {
                    if j < old_line.len() {
                        assert(alike(views(old_line)[j], before.open[j]));
                    }
                }
            }
        }
        i = i + 1;
    }
    assert(all.take(segments@.len() as int) =~= all);
    (complete, line)
}

impl Segment {
    /// Splits a sequence of segments into lines at the line feeds of its
    /// texts. The line feeds themselves are in no line, and a control
    /// segment is never split.
    pub fn split_lines(segments: &[Segment]) -> (lines: Vec<Vec<Segment>>)
        ensures
            lines_alike(line_views(lines@), split(views(segments@))),
    {
        let (mut complete, line) = split_into(segments);
        if line.len() > 0 {
            let ghost before = complete@;
            let ghost want = split_all(views(segments@));
            complete.push(line);
            proof {
                assert forall|j: int| 0 <= j < line_views(complete@).len() implies all_alike(
                    #[trigger] line_views(complete@)[j],
                    want.complete.push(want.open)[j],
                ) by {
                    if j < before.len() {
                        assert(all_alike(line_views(before)[j], want.complete[j]));
                    }
                }
            }
        }
        complete
    }

    /// Splits a sequence of segments into lines and brings each line to
    /// `length` cells, as `adjust_line_length` does with `style` and
    /// `padding`. Unless `include_new_lines` is `Some(false)`, each line
    /// that a line feed closed gets a line break after it.
    pub fn split_and_crop_lines(
        segments: &[Segment],
        length: usize,
        style: Option<Style>,
        padding: Option<bool>,
        include_new_lines: Option<bool>,
    ) -> (lines: Vec<Vec<Segment>>)
        ensures
            lines_alike(
                line_views(lines@),
                split_and_cropped(
                    views(segments@),
                    length as nat,
                    style_view(style),
                    padding != Some(false),
                    include_new_lines != Some(false),
                ),
            ),
    {
        let include_new_lines = match include_new_lines {
            Some(b) => b,
            None => true,
        };
        let ghost pad = padding != Some(false);
        let ghost want = split_all(views(segments@));
        let ghost target = split_and_cropped(
            views(segments@),
            length as nat,
            style_view(style),
            pad,
            include_new_lines,
        );
        let (complete, open) = split_into(segments);
        let mut lines: Vec<Vec<Segment>> = Vec::new();
        let mut i: usize = 0;
        while i < complete.len()
            invariant
                i <= complete@.len(),
                lines@.len() == i,
                complete@.len() == want.complete.len(),
                lines_alike(line_views(complete@), want.complete),
                pad == (padding != Some(false)),
                forall|j: int|
                    0 <= j < i ==> all_alike(
                        views((#[trigger] lines@[j])@),
                        closed_line(
                            want.complete[j],
                            length as nat,
                            style_view(style),
                            pad,
                            include_new_lines,
                        ),
                    ),
            decreases complete@.len() - i,
        {
            proof {
                assert(all_alike(line_views(complete@)[i as int], want.complete[i as int]));
            }
            let pad_style = copy_style(&style);
            let mut cropped_line = Segment::adjust_line_length(
                complete[i].as_slice(),
                length,
                pad_style,
                padding,
            );
            proof {
                lemma_adjusted_alike(
                    views(complete@[i as int]@),
                    want.complete[i as int],
                    length as nat,
                    style_view(pad_style),
                    style_view(style),
                    pad,
                );
            }
            let ghost adjusted_line = adjusted(
                want.complete[i as int],
                length as nat,
                style_view(style),
                pad,
            );
            assert(all_alike(views(cropped_line@), adjusted_line)) by {
                let mid = adjusted(
                    views(complete@[i as int]@),
                    length as nat,
                    style_view(pad_style),
                    pad,
                );
                assert forall|j: int| 0 <= j < mid.len() implies alike(
                    #[trigger] views(cropped_line@)[j],
                    adjusted_line[j],
                ) by {
                    assert(alike(views(cropped_line@)[j], mid[j]));
                    assert(alike(mid[j], adjusted_line[j]));
                }
            }
            if include_new_lines {
                let ghost before = cropped_line@;
                cropped_line.push(Segment::line(None));
                assert forall|j: int| 0 <= j < views(cropped_line@).len() implies alike(
                    #[trigger] views(cropped_line@)[j],
                    adjusted_line.push(line_break(false))[j],
                ) by {
                    if j < before.len() {
                        assert(alike(views(before)[j], adjusted_line[j]));
                    }
                }
            }
            lines.push(cropped_line);
            i = i + 1;
        }
        if open.len() > 0 {
            let last = Segment::adjust_line_length(open.as_slice(), length, style, padding);
            proof {
                lemma_adjusted_alike(
                    views(open@),
                    want.open,
                    length as nat,
                    style_view(style),
                    style_view(style),
                    pad,
                );
                let mid = adjusted(views(open@), length as nat, style_view(style), pad);
                let end = adjusted(want.open, length as nat, style_view(style), pad);
                assert forall|j: int| 0 <= j < mid.len() implies alike(
                    #[trigger] views(last@)[j],
                    end[j],
                ) by {
                    assert(alike(views(last@)[j], mid[j]));
                    assert(alike(mid[j], end[j]));
                }
            }
            lines.push(last);
        }
        proof {
            assert forall|j: int| 0 <= j < line_views(lines@).len() implies all_alike(
                #[trigger] line_views(lines@)[j],
                target[j],
            ) by {
                if j < complete@.len() {
                    assert(all_alike(views(lines@[j]@), target[j]));
                }
            }
        }
        lines
    }

    /// Brings a list of lines to a shape: `height` lines, or as many as
    /// there are where no height is given, of `width` cells each. Lines
    /// beyond the height are left out; lines of spaces in the style `style`
    /// stand in for those that are missing.
    pub fn set_shape(
        lines: &[&[Segment]],
        width: usize,
        height: Option<usize>,
        style: Option<Style>,
    ) -> (shaped_lines: Vec<Vec<Segment>>)
        ensures
            lines_alike(
                line_views(shaped_lines@),
                shaped(
                    slice_views(lines@),
                    width as nat,
                    match height {
                        Some(h) => h as nat,
                        None => lines@.len(),
                    },
                    style_view(style),
                ),
            ),
    {
        let height = match height {
            Some(h) => h,
            None => lines.len(),
        };
        let ghost all = slice_views(lines@);
        let ghost target = shaped(all, width as nat, height as nat, style_view(style));
        let mut shaped_lines: Vec<Vec<Segment>> = Vec::new();
        let mut i: usize = 0;
        while i < height
            invariant
                i <= height,
                shaped_lines@.len() == i,
                all == slice_views(lines@),
                target == shaped(all, width as nat, height as nat, style_view(style)),
                forall|j: int|
                    0 <= j < i ==> all_alike(views((#[trigger] shaped_lines@[j])@), target[j]),
            decreases height - i,
        {
            let pad_style = copy_style(&style);
            if i < lines.len() {
                assert(all[i as int] == views(lines@[i as int]@));
                let line = Segment::adjust_line_length(lines[i], width, pad_style, None);
                proof {
                    let same = views(lines@[i as int]@);
                    assert(all_alike(same, same));
                    lemma_adjusted_alike(
                        same,
                        same,
                        width as nat,
                        style_view(pad_style),
                        style_view(style),
                        true,
                    );
                    let mid = adjusted(same, width as nat, style_view(pad_style), true);
                    assert forall|j: int| 0 <= j < mid.len() implies alike(
                        #[trigger] views(line@)[j],
                        target[i as int][j],
                    ) by {
                        assert(alike(views(line@)[j], mid[j]));
                        assert(alike(mid[j], target[i as int][j]));
                    }
                }
                shaped_lines.push(line);
            } else {
                let mut line: Vec<Segment> = Vec::new();
                line.push(Segment { text: spaces_string(width), style: pad_style, is_control: false });
                assert(all_alike(views(line@), target[i as int]));
                shaped_lines.push(line);
            }
            i = i + 1;
        }
        assert forall|j: int| 0 <= j < line_views(shaped_lines@).len() implies all_alike(
            #[trigger] line_views(shaped_lines@)[j],
            target[j],
        ) by {
            assert(all_alike(views(shaped_lines@[j]@), target[j]));
        }
        shaped_lines
    }
}

/// Whether two segments that follow each other go together: neither is a
/// control segment, and they have the same style, or both have none.
pub open spec fn can_merge(a: SegmentView, b: SegmentView) -> bool {
    !a.is_control && !b.is_control && same_optional_style(a.style, b.style)
}

/// Two segments that go together as one: their texts after each other, in
/// the style of the first.
pub open spec fn merge(a: SegmentView, b: SegmentView) -> SegmentView {
    SegmentView { text: a.text + b.text, style: a.style, is_control: false }
}

/// A sequence of segments in which every run of segments that go together
/// has become one segment. A control segment goes with nothing and stays as
/// it is.
pub open spec fn simplified(segments: Seq<SegmentView>) -> Seq<SegmentView>
    decreases segments.len(),
{
    if segments.len() == 0 {
        Seq::empty()
    } else {
        let before = simplified(segments.drop_last());
        let next = segments.last();
        if before.len() > 0 && can_merge(before.last(), next) {
            before.drop_last().push(merge(before.last(), next))
        } else {
            before.push(next)
        }
    }
}

/// A sequence of segments is compact when no two neighbours go together.
pub open spec fn compact(segments: Seq<SegmentView>) -> bool {
    forall|i: int|
        0 <= i < segments.len() - 1 ==> !can_merge(#[trigger] segments[i], segments[i + 1])
}

/// What is simplified is compact.
pub proof fn lemma_simplified_compact(segments: Seq<SegmentView>)
    ensures
        compact(simplified(segments)),
    decreases segments.len(),
{
    if segments.len() > 0 {
        let before = simplified(segments.drop_last());
        let next = segments.last();
        let after = simplified(segments);
        lemma_simplified_compact(segments.drop_last());
        assert forall|i: int| 0 <= i < after.len() - 1 implies !can_merge(
            #[trigger] after[i],
            after[i + 1],
        ) by {
            if before.len() > 0 && can_merge(before.last(), next) {
                assert(after[i] == before[i]);
                if i + 1 < after.len() - 1 {
                    assert(after[i + 1] == before[i + 1]);
                } else {
                    assert(!can_merge(before[i], before[i + 1]));
                }
            } else {
                if i + 1 < before.len() {
                    assert(!can_merge(before[i], before[i + 1]));
                }
            }
        }
    }
}

/// What is compact stays as it is when it is simplified.
pub proof fn lemma_compact_simplified(segments: Seq<SegmentView>)
    requires
        compact(segments),
    ensures
        simplified(segments) == segments,
    decreases segments.len(),
{
    if segments.len() > 0 {
        let shorter = segments.drop_last();
        assert forall|i: int| 0 <= i < shorter.len() - 1 implies !can_merge(
            #[trigger] shorter[i],
            shorter[i + 1],
        ) by {
            assert(!can_merge(segments[i], segments[i + 1]));
        }
        lemma_compact_simplified(shorter);
        if shorter.len() > 0 {
            assert(!can_merge(segments[shorter.len() - 1], segments[shorter.len() - 1 + 1]));
        }
        assert(shorter.push(segments.last()) =~= segments);
    }
}

/// Simplifying twice gives what simplifying once gives.
pub proof fn lemma_simplify_idempotent(segments: Seq<SegmentView>)
    ensures
        simplified(simplified(segments)) == simplified(segments),
{
    lemma_simplified_compact(segments);
    lemma_compact_simplified(simplified(segments));
}

/// Simplifying sequences that are alike gives sequences that are alike.
pub proof fn lemma_simplified_alike(a: Seq<SegmentView>, b: Seq<SegmentView>)
    requires
        all_alike(a, b),
    ensures
        all_alike(simplified(a), simplified(b)),
    decreases a.len(),
{
    if a.len() > 0 {
        assert forall|i: int| 0 <= i < a.len() - 1 implies alike(
            #[trigger] a.drop_last()[i],
            b.drop_last()[i],
        ) by {
            assert(alike(a[i], b[i]));
        }
        lemma_simplified_alike(a.drop_last(), b.drop_last());
        let sa = simplified(a.drop_last());
        let sb = simplified(b.drop_last());
        assert(alike(a[a.len() - 1], b[a.len() - 1]));
        if sa.len() > 0 {
            assert(alike(sa[sa.len() - 1], sb[sa.len() - 1]));
        }
        let ra = simplified(a);
        let rb = simplified(b);
        assert forall|i: int| 0 <= i < ra.len() implies alike(#[trigger] ra[i], rb[i]) by {
            if i < sa.len() - 1 {
                assert(alike(sa[i], sb[i]));
            } else if i < sa.len() {
                assert(alike(sa[i], sb[i]));
            }
        }
    }
}

/// Segments that were simplified, by any two runs that each give what
/// `simplified` asks for, do not change when they are simplified again.
pub proof fn lemma_simplify_twice(
    segments: Seq<SegmentView>,
    once: Seq<SegmentView>,
    twice: Seq<SegmentView>,
)
    requires
        all_alike(once, simplified(segments)),
        all_alike(twice, simplified(once)),
    ensures
        all_alike(twice, once),
{
    lemma_simplified_alike(once, simplified(segments));
    lemma_simplify_idempotent(segments);
    let s = simplified(segments);
    assert forall|i: int| 0 <= i < twice.len() implies alike(#[trigger] twice[i], once[i]) by {
        assert(alike(twice[i], simplified(once)[i]));
        assert(alike(simplified(once)[i], s[i]));
        assert(alike(once[i], s[i]));
    }
}

impl Segment {
    /// Simplifies a sequence of segments: segments that follow each other
    /// and have the same style become one segment with their texts after
    /// each other. A control segment is kept as it is and ends a run.
    pub fn simplify(segments: &[Segment]) -> (result: Vec<Segment>)
        ensures
            all_alike(views(result@), simplified(views(segments@))),
    {
        let mut result: Vec<Segment> = Vec::new();
        let ghost all = views(segments@);
        let mut i: usize = 0;
        assert(all.take(0) =~= Seq::<SegmentView>::empty());
        while i < segments.len()
            invariant
                i <= segments@.len(),
                all == views(segments@),
                all_alike(views(result@), simplified(all.take(i as int))),
            decreases segments@.len() - i,
        {
            let segment = &segments[i];
            let ghost before = simplified(all.take(i as int));
            let ghost held = result@;
            proof {
                assert(all.take(i + 1).drop_last() =~= all.take(i as int));
                assert(all.take(i + 1).last() == segment@);
                if held.len() > 0 {
                    assert(alike(views(held)[held.len() - 1], before[held.len() - 1]));
                }
            }
            let n = result.len();
            let goes_with_last = n > 0 && !result[n - 1].is_control && !segment.is_control && (match (
                &result[n - 1].style,
                &segment.style,
            ) {
                (Some(a), Some(b)) => a == b,
                (None, None) => true,
                _ => false,
            });
            if goes_with_last {
                let last = result.pop().unwrap();
                let mut text = last.text;
                text.append(segment.text.as_str());
                result.push(Segment { text, style: last.style, is_control: false });
                proof {
                    let want = before.drop_last().push(merge(before.last(), segment@));
                    assert forall|j: int| 0 <= j < views(result@).len() implies alike(
                        #[trigger] views(result@)[j],
                        want[j],
                    ) by {
                        if j < n - 1 {
                            assert(alike(views(held)[j], before[j]));
                        }
                    }
                }
            } else {
                result.push(segment.clone());
                proof {
                    let want = before.push(segment@);
                    assert forall|j: int| 0 <= j < views(result@).len() implies alike(
                        #[trigger] views(result@)[j],
                        want[j],
                    ) by {
                        if j < n {
                            assert(alike(views(held)[j], before[j]));
                        }
                    }
                }
            }
            i = i + 1;
        }
        assert(all.take(segments@.len() as int) =~= all);
        result
    }
}

} // verus!
