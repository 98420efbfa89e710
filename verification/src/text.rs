//! Spans: the stretch of a text that a style holds for.

use vstd::prelude::*;
use vstd::std_specs::cmp::PartialEqSpecImpl;
use crate::style::is_copy_of;
use crate::style::same_style;
use crate::style::Style;
use crate::style::StyleView;

verus! {

/// A span as plain values.
pub struct SpanView {
    pub start: usize,
    pub end: usize,
    pub style: StyleView,
}

/// A stretch of text, from `start` up to `end`, with the style that holds
/// for it.
#[derive(Debug)]
pub struct Span {
    start: usize,
    end: usize,
    style: Style,
}

/// A text with its spans.
#[derive(Clone, Copy)]
pub struct Text {}

impl View for Span {
    type V = SpanView;

    closed spec fn view(&self) -> SpanView {
        SpanView { start: self.start, end: self.end, style: self.style@ }
    }
}

/// Two spans are the same when they cover the same stretch in the same
/// style.
pub open spec fn same_span(a: SpanView, b: SpanView) -> bool {
    a.start == b.start && a.end == b.end && same_style(a.style, b.style)
}

/// Whether `span` covers the stretch from `start` to `end` with a copy of
/// the style `style`.
pub open spec fn is_span(span: SpanView, start: usize, end: usize, style: StyleView) -> bool {
    span.start == start && span.end == end && is_copy_of(span.style, style)
}

impl Clone for Span {
    fn clone(&self) -> (copy: Self)
        ensures
            is_span(copy@, self@.start, self@.end, self@.style),
    {
        Span { start: self.start, end: self.end, style: self.style.clone() }
    }
}

impl PartialEq for Span {
    fn eq(&self, other: &Self) -> (same: bool) {
        self.start == other.start && self.end == other.end && self.style == other.style
    }
}

impl PartialEqSpecImpl for Span {
    open spec fn obeys_eq_spec() -> bool {
        true
    }

    open spec fn eq_spec(&self, other: &Self) -> bool {
        same_span(self@, other@)
    }
}

impl Eq for Span {

}

impl Span {
    /// The span from `start` up to `end` in the given style.
    pub fn new(start: usize, end: usize, style: Style) -> (span: Self)
        ensures
            span@ == (SpanView { start, end, style: style@ }),
    {
        Span { start, end, style }
    }

    /// The start, the end and the style.
    pub fn as_tuple(&self) -> (parts: (usize, usize, &Style))
        ensures
            parts.0 == self@.start,
            parts.1 == self@.end,
            parts.2@ == self@.style,
    {
        (self.start, self.end, &self.style)
    }

    /// Whether the span covers anything.
    pub fn as_bool(&self) -> (covers: bool)
        ensures
            covers == (self@.end > self@.start),
    {
        self.end > self.start
    }

    /// Splits the span in two at `offset`. An offset before the start, or
    /// at the end or past it, leaves the span whole.
    pub fn split(&self, offset: usize) -> (parts: (Span, Option<Span>))
        ensures
            offset < self@.start || offset >= self@.end ==> is_span(
                parts.0@,
                self@.start,
                self@.end,
                self@.style,
            ) && parts.1 is None,
            self@.start <= offset < self@.end ==> is_span(
                parts.0@,
                self@.start,
                offset,
                self@.style,
            ) && (parts.1 matches Some(second) && is_span(second@, offset, self@.end, self@.style)),
    {
        if offset < self.start {
            return (self.clone(), None);
        }
        if offset >= self.end {
            return (self.clone(), None);
        }
        let span1 = Span { start: self.start, end: offset, style: self.style.clone() };
        let span2 = Span { start: offset, end: self.end, style: self.style.clone() };
        (span1, Some(span2))
    }

    /// The span moved to the right by `offset`.
    pub fn with_offset(&self, offset: usize) -> (span: Span)
        requires
            self@.start + offset <= usize::MAX,
            self@.end + offset <= usize::MAX,
        ensures
            is_span(
                span@,
                (self@.start + offset) as usize,
                (self@.end + offset) as usize,
                self@.style,
            ),
    {
        Span { start: self.start + offset, end: self.end + offset, style: self.style.clone() }
    }

    /// The span cut off at `offset`: an offset at the end or past it leaves
    /// the span as it is.
    pub fn right_crop(&self, offset: usize) -> (span: Span)
        ensures
            is_span(
                span@,
                self@.start,
                if offset >= self@.end {
                    self@.end
                } else {
                    offset
                },
                self@.style,
            ),
    {
        if offset >= self.end {
            return self.clone();
        }
        Span { start: self.start, end: offset, style: self.style.clone() }
    }
}

} // verus!
