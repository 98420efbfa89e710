//! Boxes: the characters that draw the frame and the rules of a table.

use vstd::prelude::*;
use vstd::std_specs::cmp::PartialEqSpecImpl;
use crate::options::ConsoleOptions;
use crate::segment::find_newline;
use crate::segment::first_newline;
use crate::segment::lemma_first_newline_bound;
use crate::strings::chars_of;

verus! {

/// The rows of a box that a rule between rows of a table can be taken from.
#[derive(Clone, Copy, Debug, PartialEq, Eq, Structural)]
pub enum RenderBoxLevel {
    Head,
    Row,
    Foot,
    Mid,
}

/// What is left of `s` after its first `k` lines: nothing where it has
/// fewer.
pub open spec fn rest_after(s: Seq<char>, k: nat) -> Seq<char>
    decreases k,
{
    if k == 0 {
        s
    } else {
        let r = rest_after(s, (k - 1) as nat);
        let i = first_newline(r);
        if i < r.len() {
            r.skip(i as int + 1)
        } else {
            Seq::empty()
        }
    }
}

/// Whether `s` has a line `k`, counted from 0: a text has a first line, and
/// one more after each line feed.
pub open spec fn has_line(s: Seq<char>, k: nat) -> bool
    decreases k,
{
    k == 0 || (has_line(s, (k - 1) as nat) && first_newline(rest_after(s, (k - 1) as nat))
        < rest_after(s, (k - 1) as nat).len())
}

/// Line `k` of `s`, without its line feed.
pub open spec fn nth_line(s: Seq<char>, k: nat) -> Seq<char> {
    rest_after(s, k).take(first_newline(rest_after(s, k)) as int)
}

/// A text draws a box when it has eight lines of four characters at least:
/// the top, the head, the rule under the head, a row, the rule between
/// rows, the rule over the foot, the foot, and the bottom; in each line the
/// left edge, what fills a column, what divides columns, and the right
/// edge.
pub open spec fn box_shaped(s: Seq<char>) -> bool {
    forall|k: nat| k < 8 ==> #[trigger] has_line(s, k) && nth_line(s, k).len() >= 4
}

/// A box as plain values.
pub struct BoxView {
    pub inner_box: Seq<char>,
    pub ascii: bool,
    /// The first four characters of each of the eight lines.
    pub rows: Seq<Seq<char>>,
}

/// The box that a text draws.
pub open spec fn box_of(s: Seq<char>, ascii: bool) -> BoxView {
    BoxView { inner_box: s, ascii, rows: Seq::new(8, |k: int| nth_line(s, k as nat).take(4)) }
}

/// The characters to draw a box with.
/// ```text
/// ┌─┬┐ top
/// │ ││ head
/// ├─┼┤ head_row
/// │ ││ mid
/// ├─┼┤ row
/// ├─┼┤ foot_row
/// │ ││ foot
/// └─┴┘ bottom
/// ```
#[derive(Debug, Hash)]
pub struct RenderBox {
    inner_box: String,
    ascii: bool,
    rows: [[char; 4]; 8],
}

impl View for RenderBox {
    type V = BoxView;

    closed spec fn view(&self) -> BoxView {
        BoxView {
            inner_box: self.inner_box@,
            ascii: self.ascii,
            rows: Seq::new(8, |k: int| self.rows@[k]@),
        }
    }
}

impl Clone for RenderBox {
    fn clone(&self) -> (copy: Self)
        ensures
            copy@ == self@,
    {
        RenderBox { inner_box: self.inner_box.clone(), ascii: self.ascii, rows: self.rows }
    }
}

impl PartialEq for RenderBox {
    fn eq(&self, other: &Self) -> (same: bool) {
        let mut rows_same = true;
        let mut k: usize = 0;
        while k < 8
            invariant
                k <= 8,
                rows_same <==> (forall|i: int| 0 <= i < k ==> self.rows@[i]@ == other.rows@[i]@),
            decreases 8 - k,
        {
            let a = &self.rows[k];
            let b = &other.rows[k];
            let row_same = a[0] == b[0] && a[1] == b[1] && a[2] == b[2] && a[3] == b[3];
            proof {
                if row_same {
                    assert(a@ =~= b@);
                } else {
                    assert(a@ != b@);
                }
            }
            if !row_same {
                rows_same = false;
            }
            k = k + 1;
        }
        proof {
            if rows_same {
                assert(self@.rows =~= other@.rows);
            } else {
                let i = choose|i: int| 0 <= i < 8 && self.rows@[i]@ != other.rows@[i]@;
                assert(self@.rows[i] != other@.rows[i]);
            }
        }
        self.inner_box == other.inner_box && self.ascii == other.ascii && rows_same
    }
}

impl PartialEqSpecImpl for RenderBox {
    open spec fn obeys_eq_spec() -> bool {
        true
    }

    open spec fn eq_spec(&self, other: &Self) -> bool {
        self@ == other@
    }
}

impl Eq for RenderBox {

}

/// A rule or an edge of a table: the left edge, then for each width the
/// filling character that many times, with the divider between each two
/// columns, then the right edge.
pub open spec fn ruled(left: Seq<char>, fill: char, divider: char, right: Seq<char>, widths: Seq<usize>) -> Seq<
    char,
> {
    left + columns(fill, divider, widths) + right
}

/// The columns of a rule, without the edges.
pub open spec fn columns(fill: char, divider: char, widths: Seq<usize>) -> Seq<char>
    decreases widths.len(),
{
    if widths.len() == 0 {
        Seq::empty()
    } else if widths.len() == 1 {
        Seq::new(widths[0] as nat, |i: int| fill)
    } else {
        columns(fill, divider, widths.drop_last()).push(divider) + Seq::new(
            widths.last() as nat,
            |i: int| fill,
        )
    }
}

/// The row of a box that a rule of the given level is drawn with.
pub open spec fn level_row(level: RenderBoxLevel) -> int {
    match level {
        RenderBoxLevel::Head => 2,
        RenderBoxLevel::Row => 4,
        RenderBoxLevel::Foot => 5,
        RenderBoxLevel::Mid => 3,
    }
}

/// A rule of a table between rows. The rule in the middle of a row is
/// filled with spaces.
pub open spec fn row_rule(v: BoxView, widths: Seq<usize>, level: RenderBoxLevel, edge: bool) -> Seq<char> {
    let row = v.rows[level_row(level)];
    let fill = if level == RenderBoxLevel::Mid {
        ' '
    } else {
        row[1]
    };
    ruled(
        if edge {
            seq![row[0]]
        } else {
            Seq::empty()
        },
        fill,
        row[2],
        if edge {
            seq![row[3]]
        } else {
            Seq::empty()
        },
        widths,
    )
}

/// Writes the columns of a rule after `text`.
fn push_columns(text: &mut String, fill: char, divider: char, widths: &[usize])
    ensures
        final(text)@ == old(text)@ + columns(fill, divider, widths@),
{
    let ghost start = text@;
    let mut i: usize = 0;
    proof {
        assert(widths@.take(0) =~= Seq::<usize>::empty());
        assert(start + columns(fill, divider, widths@.take(0)) =~= start);
    }
    while i < widths.len()
        invariant
            i <= widths@.len(),
            text@ == start + columns(fill, divider, widths@.take(i as int)),
        decreases widths@.len() - i,
    {
        let ghost before = columns(fill, divider, widths@.take(i as int));
        if i > 0 {
            text.push(divider);
        }
        let ghost base = text@;
        let mut j: usize = 0;
        assert(base + Seq::new(0, |k: int| fill) =~= base);
        while j < widths[i]
            invariant
                i < widths@.len(),
                j <= widths@[i as int],
                text@ == base + Seq::new(j as nat, |k: int| fill),
            decreases widths@[i as int] - j,
        {
            text.push(fill);
            j = j + 1;
            assert(text@ =~= base + Seq::new(j as nat, |k: int| fill));
        }
        proof {
            let part = widths@.take(i + 1);
            assert(part.drop_last() =~= widths@.take(i as int));
            assert(part.last() == widths@[i as int]);
            let run = Seq::new(widths@[i as int] as nat, |k: int| fill);
            if i > 0 {
                assert(text@ =~= start + (before.push(divider) + run));
            } else {
                assert(before =~= Seq::<char>::empty());
                assert(text@ =~= start + run);
            }
        }
        i = i + 1;
    }
    assert(widths@.take(widths@.len() as int) =~= widths@);
}

/// Whether `text` draws a box.
pub fn draws_box(text: &str) -> (shaped: bool)
    ensures
        shaped == box_shaped(text@),
{
    let chars = chars_of(text);
    let ghost s = chars@;
    let n = chars.len();
    let mut pos: usize = 0;
    let mut k: usize = 0;
    assert(s.skip(0) =~= s);
    while k < 8
        invariant
            k <= 8,
            s == chars@,
            s == text@,
            n == s.len(),
            pos <= n,
            k < 8 ==> s.skip(pos as int) == rest_after(s, k as nat) && has_line(s, k as nat),
            forall|i: nat| i < k ==> #[trigger] has_line(s, i) && nth_line(s, i).len() >= 4,
        decreases 8 - k,
    {
        let ghost rest = s.skip(pos as int);
        let len = find_newline(chars.as_slice(), pos);
        proof {
            lemma_first_newline_bound(rest);
        }
        if len < 4 {
            assert(!(has_line(s, k as nat) && nth_line(s, k as nat).len() >= 4));
            return false;
        }
        if k + 1 < 8 {
            if pos + len >= n {
                assert(!has_line(s, (k + 1) as nat));
                return false;
            }
            assert(rest.skip(len + 1) =~= s.skip(pos + len + 1));
            pos = pos + len + 1;
        }
        k = k + 1;
    }
    true
}

impl RenderBox {
    /// The box that `inner_box` draws: see `box_shaped`. The box counts as
    /// made of ASCII where `ascii` is `Some(true)`.
    pub fn new(inner_box: &str, ascii: Option<bool>) -> (render_box: Self)
        requires
            box_shaped(inner_box@),
        ensures
            render_box@ == box_of(inner_box@, ascii == Some(true)),
    {
        let ascii = match ascii {
            Some(a) => a,
            None => false,
        };
        let chars = chars_of(inner_box);
        let ghost s = chars@;
        let n = chars.len();
        let mut lines: Vec<[char; 4]> = Vec::new();
        let mut pos: usize = 0;
        let mut k: usize = 0;
        assert(s.skip(0) =~= s);
        while k < 8
            invariant
                k <= 8,
                s == chars@,
                n == s.len(),
                box_shaped(s),
                pos <= n,
                lines@.len() == k,
                k < 8 ==> s.skip(pos as int) == rest_after(s, k as nat),
                forall|i: int| 0 <= i < k ==> (#[trigger] lines@[i])@ == nth_line(s, i as nat).take(4),
            decreases 8 - k,
        {
            let ghost rest = s.skip(pos as int);
            let len = find_newline(chars.as_slice(), pos);
            assert(len >= 4 && pos + len <= n) by {
                assert(has_line(s, k as nat) && nth_line(s, k as nat).len() >= 4);
                lemma_first_newline_bound(rest);
            }
            let line: [char; 4] = [chars[pos], chars[pos + 1], chars[pos + 2], chars[pos + 3]];
            assert(line@ =~= nth_line(s, k as nat).take(4)) by {
                let whole = nth_line(s, k as nat);
                assert(whole == rest.take(len as int));
                assert(whole[0] == s[pos as int]);
                assert(whole[1] == s[pos + 1]);
                assert(whole[2] == s[pos + 2]);
                assert(whole[3] == s[pos + 3]);
            }
            lines.push(line);
            if k + 1 < 8 {
                assert(pos + len < n && s.skip(pos + len + 1) == rest_after(s, (k + 1) as nat)) by {
                    assert(has_line(s, (k + 1) as nat));
                    assert(rest.skip(len + 1) =~= s.skip(pos + len + 1));
                }
                pos = pos + len + 1;
            }
            k = k + 1;
        }
        let rows: [[char; 4]; 8] = [
            lines[0],
            lines[1],
            lines[2],
            lines[3],
            lines[4],
            lines[5],
            lines[6],
            lines[7],
        ];
        let render_box = RenderBox { inner_box: inner_box.to_owned(), ascii, rows };
        assert(render_box@.rows =~= box_of(inner_box@, ascii).rows);
        render_box
    }

    /// The text that draws the box.
    pub fn to_string(&self) -> (text: String)
        ensures
            text@ == self@.inner_box,
    {
        self.inner_box.clone()
    }

    /// The top of a table with columns of the given widths.
    pub fn get_top(&self, widths: &[usize]) -> (text: String)
        ensures
            text@ == ruled(
                seq![self@.rows[0][0]],
                self@.rows[0][1],
                self@.rows[0][2],
                seq![self@.rows[0][3]],
                widths@,
            ),
    {
        let row = &self.rows[0];
        let mut text = String::new();
        text.push(row[0]);
        push_columns(&mut text, row[1], row[2], widths);
        text.push(row[3]);
        assert(text@ =~= ruled(seq![row@[0]], row@[1], row@[2], seq![row@[3]], widths@));
        text
    }

    /// A rule between rows of a table with columns of the given widths: the
    /// rule between rows where no level is given, with the edges unless
    /// `edge` is `Some(false)`.
    pub fn get_row(&self, widths: &[usize], level: Option<RenderBoxLevel>, edge: Option<bool>) -> (text:
        String)
        ensures
            text@ == row_rule(
                self@,
                widths@,
                match level {
                    Some(l) => l,
                    None => RenderBoxLevel::Row,
                },
                edge != Some(false),
            ),
    {
        let edge = match edge {
            Some(e) => e,
            None => true,
        };
        let level = match level {
            Some(l) => l,
            None => RenderBoxLevel::Row,
        };
        let (row, fill): (&[char; 4], char) = match level {
            RenderBoxLevel::Head => (&self.rows[2], self.rows[2][1]),
            RenderBoxLevel::Row => (&self.rows[4], self.rows[4][1]),
            RenderBoxLevel::Foot => (&self.rows[5], self.rows[5][1]),
            RenderBoxLevel::Mid => (&self.rows[3], ' '),
        };
        let mut text = String::new();
        if edge {
            text.push(row[0]);
        }
        let ghost left = text@;
        push_columns(&mut text, fill, row[2], widths);
        let ghost middle = text@;
        if edge {
            text.push(row[3]);
        }
        proof {
            let right = if edge {
                seq![row@[3]]
            } else {
                Seq::<char>::empty()
            };
            assert(left =~= if edge {
                seq![row@[0]]
            } else {
                Seq::<char>::empty()
            });
            assert(text@ =~= middle + right);
            assert(row@ == self@.rows[level_row(level)]);
        }
        text
    }

    /// The bottom of a table with columns of the given widths.
    pub fn get_bottom(&self, widths: &[usize]) -> (text: String)
        ensures
            text@ == ruled(
                seq![self@.rows[7][0]],
                self@.rows[7][1],
                self@.rows[7][2],
                seq![self@.rows[7][3]],
                widths@,
            ),
    {
        let row = &self.rows[7];
        let mut text = String::new();
        text.push(row[0]);
        push_columns(&mut text, row[1], row[2], widths);
        text.push(row[3]);
        assert(text@ =~= ruled(seq![row@[0]], row@[1], row@[2], seq![row@[3]], widths@));
        text
    }
}

/// A text of eight lines of four characters, each with a line feed after
/// it, draws a box.
pub proof fn lemma_grid_box_shaped(s: Seq<char>)
    requires
        s.len() == 40,
        forall|k: int| 0 <= k < 8 ==> #[trigger] s[5 * k + 4] == '\n',
        forall|k: int, j: int| 0 <= k < 8 && 0 <= j < 4 ==> #[trigger] s[5 * k + j] != '\n',
    ensures
        box_shaped(s),
        forall|k: int| 0 <= k < 8 ==> #[trigger] nth_line(s, k as nat) == s.subrange(5 * k, 5 * k + 4),
{
    assert forall|k: int| 0 <= k < 8 implies #[trigger] nth_line(s, k as nat) == s.subrange(
        5 * k,
        5 * k + 4,
    ) by {
        lemma_grid_line(s, k as nat);
    }
    assert forall|k: nat| k < 8 implies #[trigger] has_line(s, k) && rest_after(s, k) == s.skip(
        5 * (k as int),
    ) && nth_line(s, k) == s.subrange(5 * (k as int), 5 * (k as int) + 4) by {
        lemma_grid_line(s, k);
    }
}

/// Line `k` of a text of eight lines of four characters.
proof fn lemma_grid_line(s: Seq<char>, k: nat)
    requires
        s.len() == 40,
        forall|k: int| 0 <= k < 8 ==> #[trigger] s[5 * (k as int) + 4] == '\n',
        forall|k: int, j: int| 0 <= k < 8 && 0 <= j < 4 ==> #[trigger] s[5 * (k as int) + j] != '\n',
        k < 8,
    ensures
        has_line(s, k),
        rest_after(s, k) == s.skip(5 * (k as int)),
        first_newline(rest_after(s, k)) == 4,
        nth_line(s, k) == s.subrange(5 * (k as int), 5 * (k as int) + 4),
    decreases k,
{
    if k > 0 {
        lemma_grid_line(s, (k - 1) as nat);
        assert(s.skip(5 * (k as int - 1)).skip(5) =~= s.skip(5 * (k as int)));
    } else {
        assert(s.skip(0) =~= s);
    }
    let r = s.skip(5 * (k as int));
    assert(r[0] == s[5 * (k as int) + 0]);
    assert(r[1] == s[5 * (k as int) + 1]);
    assert(r[2] == s[5 * (k as int) + 2]);
    assert(r[3] == s[5 * (k as int) + 3]);
    assert(r[4] == s[5 * (k as int) + 4]);
    assert(r.drop_first()[0] == r[1]);
    assert(r.drop_first().drop_first()[0] == r[2]);
    assert(r.drop_first().drop_first().drop_first()[0] == r[3]);
    assert(r.drop_first().drop_first().drop_first().drop_first()[0] == r[4]);
    reveal_with_fuel(first_newline, 6);
    assert(first_newline(r) == 4);
    assert(r.take(4) =~= s.subrange(5 * (k as int), 5 * (k as int) + 4));
}

/// The text of `ascii`.
pub const ASCII_TEXT: &'static str = "+--+\n| ||\n|-+|\n| ||\n|-+|\n|-+|\n| ||\n+--+\n";

/// The box drawn in ASCII.
pub fn ascii() -> (render_box: RenderBox)
    ensures
        render_box@ == box_of(ASCII_TEXT@, true),
{
    proof {
        reveal_strlit("+--+\n| ||\n|-+|\n| ||\n|-+|\n|-+|\n| ||\n+--+\n");
        lemma_grid_box_shaped(ASCII_TEXT@);
    }
    RenderBox::new(ASCII_TEXT, Some(true))
}

/// The text of `ascii2`.
pub const ASCII2_TEXT: &'static str = "+-++\n| ||\n+-++\n| ||\n+-++\n+-++\n| ||\n+-++\n";

/// The box drawn in ASCII, with corners at every crossing.
pub fn ascii2() -> (render_box: RenderBox)
    ensures
        render_box@ == box_of(ASCII2_TEXT@, true),
{
    proof {
        reveal_strlit("+-++\n| ||\n+-++\n| ||\n+-++\n+-++\n| ||\n+-++\n");
        lemma_grid_box_shaped(ASCII2_TEXT@);
    }
    RenderBox::new(ASCII2_TEXT, Some(true))
}

/// The text of `ascii_double_head`.
pub const ASCII_DOUBLE_HEAD_TEXT: &'static str = "+-++\n| ||\n+=++\n| ||\n+-++\n+-++\n| ||\n+-++\n";

/// The box drawn in ASCII, with a double rule under the head.
pub fn ascii_double_head() -> (render_box: RenderBox)
    ensures
        render_box@ == box_of(ASCII_DOUBLE_HEAD_TEXT@, true),
{
    proof {
        reveal_strlit("+-++\n| ||\n+=++\n| ||\n+-++\n+-++\n| ||\n+-++\n");
        lemma_grid_box_shaped(ASCII_DOUBLE_HEAD_TEXT@);
    }
    RenderBox::new(ASCII_DOUBLE_HEAD_TEXT, Some(true))
}

/// The text of `square`.
pub const SQUARE_TEXT: &'static str = "┌─┬┐\n│ ││\n├─┼┤\n│ ││\n├─┼┤\n├─┼┤\n│ ││\n└─┴┘\n";

/// The box with square corners.
pub fn square() -> (render_box: RenderBox)
    ensures
        render_box@ == box_of(SQUARE_TEXT@, false),
{
    proof {
        reveal_strlit("┌─┬┐\n│ ││\n├─┼┤\n│ ││\n├─┼┤\n├─┼┤\n│ ││\n└─┴┘\n");
        lemma_grid_box_shaped(SQUARE_TEXT@);
    }
    RenderBox::new(SQUARE_TEXT, None)
}

/// The text of `square_double_head`.
pub const SQUARE_DOUBLE_HEAD_TEXT: &'static str = "┌─┬┐\n│ ││\n╞═╪╡\n│ ││\n├─┼┤\n├─┼┤\n│ ││\n└─┴┘\n";

/// The box with square corners and a double rule under the head.
pub fn square_double_head() -> (render_box: RenderBox)
    ensures
        render_box@ == box_of(SQUARE_DOUBLE_HEAD_TEXT@, false),
{
    proof {
        reveal_strlit("┌─┬┐\n│ ││\n╞═╪╡\n│ ││\n├─┼┤\n├─┼┤\n│ ││\n└─┴┘\n");
        lemma_grid_box_shaped(SQUARE_DOUBLE_HEAD_TEXT@);
    }
    RenderBox::new(SQUARE_DOUBLE_HEAD_TEXT, None)
}

/// The text of `minimal`.
pub const MINIMAL_TEXT: &'static str = "  ╷ \n  │ \n╶─┼╴\n  │ \n╶─┼╴\n╶─┼╴\n  │ \n  ╵ \n";

/// The box without a frame.
pub fn minimal() -> (render_box: RenderBox)
    ensures
        render_box@ == box_of(MINIMAL_TEXT@, false),
{
    proof {
        reveal_strlit("  ╷ \n  │ \n╶─┼╴\n  │ \n╶─┼╴\n╶─┼╴\n  │ \n  ╵ \n");
        lemma_grid_box_shaped(MINIMAL_TEXT@);
    }
    RenderBox::new(MINIMAL_TEXT, None)
}

/// The text of `minimal_heavy_head`.
pub const MINIMAL_HEAVY_HEAD_TEXT: &'static str = "  ╷ \n  │ \n╺━┿╸\n  │ \n╶─┼╴\n╶─┼╴\n  │ \n  ╵ \n";

/// The box without a frame, with a heavy rule under the head.
pub fn minimal_heavy_head() -> (render_box: RenderBox)
    ensures
        render_box@ == box_of(MINIMAL_HEAVY_HEAD_TEXT@, false),
{
    proof {
        reveal_strlit("  ╷ \n  │ \n╺━┿╸\n  │ \n╶─┼╴\n╶─┼╴\n  │ \n  ╵ \n");
        lemma_grid_box_shaped(MINIMAL_HEAVY_HEAD_TEXT@);
    }
    RenderBox::new(MINIMAL_HEAVY_HEAD_TEXT, None)
}

/// The text of `minimal_double_head`.
pub const MINIMAL_DOUBLE_HEAD_TEXT: &'static str = "  ╷ \n  │ \n ═╪ \n  │ \n ─┼ \n ─┼ \n  │ \n  ╵ \n";

/// The box without a frame, with a double rule under the head.
pub fn minimal_double_head() -> (render_box: RenderBox)
    ensures
        render_box@ == box_of(MINIMAL_DOUBLE_HEAD_TEXT@, false),
{
    proof {
        reveal_strlit("  ╷ \n  │ \n ═╪ \n  │ \n ─┼ \n ─┼ \n  │ \n  ╵ \n");
        lemma_grid_box_shaped(MINIMAL_DOUBLE_HEAD_TEXT@);
    }
    RenderBox::new(MINIMAL_DOUBLE_HEAD_TEXT, None)
}

/// The text of `simple`.
pub const SIMPLE_TEXT: &'static str = "    \n    \n ── \n    \n    \n ── \n    \n    \n";

/// The box of two rules: under the head and over the foot.
pub fn simple() -> (render_box: RenderBox)
    ensures
        render_box@ == box_of(SIMPLE_TEXT@, false),
{
    proof {
        reveal_strlit("    \n    \n ── \n    \n    \n ── \n    \n    \n");
        lemma_grid_box_shaped(SIMPLE_TEXT@);
    }
    RenderBox::new(SIMPLE_TEXT, None)
}

/// The text of `simple_head`.
pub const SIMPLE_HEAD_TEXT: &'static str = "    \n    \n ── \n    \n    \n    \n    \n    \n";

/// The box of one rule under the head.
pub fn simple_head() -> (render_box: RenderBox)
    ensures
        render_box@ == box_of(SIMPLE_HEAD_TEXT@, false),
{
    proof {
        reveal_strlit("    \n    \n ── \n    \n    \n    \n    \n    \n");
        lemma_grid_box_shaped(SIMPLE_HEAD_TEXT@);
    }
    RenderBox::new(SIMPLE_HEAD_TEXT, None)
}

/// The text of `simple_heavy`.
pub const SIMPLE_HEAVY_TEXT: &'static str = "    \n    \n ━━ \n    \n    \n ━━ \n    \n    \n";

/// The box of two heavy rules: under the head and over the foot.
pub fn simple_heavy() -> (render_box: RenderBox)
    ensures
        render_box@ == box_of(SIMPLE_HEAVY_TEXT@, false),
{
    proof {
        reveal_strlit("    \n    \n ━━ \n    \n    \n ━━ \n    \n    \n");
        lemma_grid_box_shaped(SIMPLE_HEAVY_TEXT@);
    }
    RenderBox::new(SIMPLE_HEAVY_TEXT, None)
}

/// The text of `horizontals`.
pub const HORIZONTALS_TEXT: &'static str = " ── \n    \n ── \n    \n ── \n ── \n    \n ── \n";

/// The box of horizontal rules only.
pub fn horizontals() -> (render_box: RenderBox)
    ensures
        render_box@ == box_of(HORIZONTALS_TEXT@, false),
{
    proof {
        reveal_strlit(" ── \n    \n ── \n    \n ── \n ── \n    \n ── \n");
        lemma_grid_box_shaped(HORIZONTALS_TEXT@);
    }
    RenderBox::new(HORIZONTALS_TEXT, None)
}

/// The text of `rounded`.
pub const ROUNDED_TEXT: &'static str = "╭─┬╮\n│ ││\n├─┼┤\n│ ││\n├─┼┤\n├─┼┤\n│ ││\n╰─┴╯\n";

/// The box with round corners.
pub fn rounded() -> (render_box: RenderBox)
    ensures
        render_box@ == box_of(ROUNDED_TEXT@, false),
{
    proof {
        reveal_strlit("╭─┬╮\n│ ││\n├─┼┤\n│ ││\n├─┼┤\n├─┼┤\n│ ││\n╰─┴╯\n");
        lemma_grid_box_shaped(ROUNDED_TEXT@);
    }
    RenderBox::new(ROUNDED_TEXT, None)
}

/// The text of `heavy`.
pub const HEAVY_TEXT: &'static str = "┏━┳┓\n┃ ┃┃\n┣━╋┫\n┃ ┃┃\n┣━╋┫\n┣━╋┫\n┃ ┃┃\n┗━┻┛\n";

/// The box drawn in heavy lines.
pub fn heavy() -> (render_box: RenderBox)
    ensures
        render_box@ == box_of(HEAVY_TEXT@, false),
{
    proof {
        reveal_strlit("┏━┳┓\n┃ ┃┃\n┣━╋┫\n┃ ┃┃\n┣━╋┫\n┣━╋┫\n┃ ┃┃\n┗━┻┛\n");
        lemma_grid_box_shaped(HEAVY_TEXT@);
    }
    RenderBox::new(HEAVY_TEXT, None)
}

/// The text of `heavy_edge`.
pub const HEAVY_EDGE_TEXT: &'static str = "┏━┯┓\n┃ │┃\n┠─┼┨\n┃ │┃\n┠─┼┨\n┠─┼┨\n┃ │┃\n┗━┷┛\n";

/// The box with a heavy frame.
pub fn heavy_edge() -> (render_box: RenderBox)
    ensures
        render_box@ == box_of(HEAVY_EDGE_TEXT@, false),
{
    proof {
        reveal_strlit("┏━┯┓\n┃ │┃\n┠─┼┨\n┃ │┃\n┠─┼┨\n┠─┼┨\n┃ │┃\n┗━┷┛\n");
        lemma_grid_box_shaped(HEAVY_EDGE_TEXT@);
    }
    RenderBox::new(HEAVY_EDGE_TEXT, None)
}

/// The text of `heavy_head`.
pub const HEAVY_HEAD_TEXT: &'static str = "┏━┳┓\n┃ ┃┃\n┡━╇┩\n│ ││\n├─┼┤\n├─┼┤\n│ ││\n└─┴┘\n";

/// The box with a heavy head.
pub fn heavy_head() -> (render_box: RenderBox)
    ensures
        render_box@ == box_of(HEAVY_HEAD_TEXT@, false),
{
    proof {
        reveal_strlit("┏━┳┓\n┃ ┃┃\n┡━╇┩\n│ ││\n├─┼┤\n├─┼┤\n│ ││\n└─┴┘\n");
        lemma_grid_box_shaped(HEAVY_HEAD_TEXT@);
    }
    RenderBox::new(HEAVY_HEAD_TEXT, None)
}

/// The text of `double`.
pub const DOUBLE_TEXT: &'static str = "╔═╦╗\n║ ║║\n╠═╬╣\n║ ║║\n╠═╬╣\n╠═╬╣\n║ ║║\n╚═╩╝\n";

/// The box drawn in double lines.
pub fn double() -> (render_box: RenderBox)
    ensures
        render_box@ == box_of(DOUBLE_TEXT@, false),
{
    proof {
        reveal_strlit("╔═╦╗\n║ ║║\n╠═╬╣\n║ ║║\n╠═╬╣\n╠═╬╣\n║ ║║\n╚═╩╝\n");
        lemma_grid_box_shaped(DOUBLE_TEXT@);
    }
    RenderBox::new(DOUBLE_TEXT, None)
}

/// The text of `double_edge`.
pub const DOUBLE_EDGE_TEXT: &'static str = "╔═╤╗\n║ │║\n╟─┼╢\n║ │║\n╟─┼╢\n╟─┼╢\n║ │║\n╚═╧╝\n";

/// The box with a double frame.
pub fn double_edge() -> (render_box: RenderBox)
    ensures
        render_box@ == box_of(DOUBLE_EDGE_TEXT@, false),
{
    proof {
        reveal_strlit("╔═╤╗\n║ │║\n╟─┼╢\n║ │║\n╟─┼╢\n╟─┼╢\n║ │║\n╚═╧╝\n");
        lemma_grid_box_shaped(DOUBLE_EDGE_TEXT@);
    }
    RenderBox::new(DOUBLE_EDGE_TEXT, None)
}

/// The box that stands in for a box where the console cannot show it: on an
/// old Windows console the box with square corners for the round and the
/// heavy ones, and the plain rules for the heavy ones; then, where the
/// console shows ASCII only, the box drawn in ASCII for any box that is not.
pub open spec fn substituted(v: BoxView, legacy_windows: bool, ascii_only: bool) -> BoxView {
    let first = if !legacy_windows {
        v
    } else if v == box_of(ROUNDED_TEXT@, false) {
        box_of(SQUARE_TEXT@, false)
    } else if v == box_of(MINIMAL_HEAVY_HEAD_TEXT@, false) {
        box_of(MINIMAL_TEXT@, false)
    } else if v == box_of(SIMPLE_HEAVY_TEXT@, false) {
        box_of(SIMPLE_TEXT@, false)
    } else if v == box_of(HEAVY_TEXT@, false) {
        box_of(SQUARE_TEXT@, false)
    } else if v == box_of(HEAVY_EDGE_TEXT@, false) {
        box_of(SQUARE_TEXT@, false)
    } else if v == box_of(HEAVY_HEAD_TEXT@, false) {
        box_of(SQUARE_TEXT@, false)
    } else {
        v
    };
    if ascii_only && !first.ascii {
        box_of(ASCII_TEXT@, true)
    } else {
        first
    }
}

impl RenderBox {
    /// The box to draw in the place of this one on a console with the given
    /// options. An old Windows console is taken into account unless `safe`
    /// is `Some(false)`.
    pub fn substitute(&self, options: &ConsoleOptions, safe: Option<bool>) -> (render_box: RenderBox)
        ensures
            render_box@ == substituted(
                self@,
                options.legacy_windows && safe != Some(false),
                options.encoding.0@ != "utf-8"@,
            ),
    {
        let safe = match safe {
            Some(s) => s,
            None => true,
        };
        let mut new_render_box = self.clone();
        if options.legacy_windows && safe {
            if new_render_box == rounded() {
                new_render_box = square();
            } else if new_render_box == minimal_heavy_head() {
                new_render_box = minimal();
            } else if new_render_box == simple_heavy() {
                new_render_box = simple();
            } else if new_render_box == heavy() {
                new_render_box = square();
            } else if new_render_box == heavy_edge() {
                new_render_box = square();
            } else if new_render_box == heavy_head() {
                new_render_box = square();
            }
        }
        if options.ascii_only() && !new_render_box.ascii {
            new_render_box = ascii();
        }
        new_render_box
    }
}

} // verus!
