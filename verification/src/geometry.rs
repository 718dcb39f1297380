//! Rectangles in logical pixels, and their one-line text form.
use crate::text::{self, chars_of, decimal_i32, parse_i32, split_at_char};
use vstd::prelude::*;
use vstd::string::*;

verus! {

/// Rectangle of an accessibility element, in logical pixels. Coordinates may be
/// negative, for instance where an element is scrolled off the top of the
/// viewport.
#[derive(Debug, Clone, Copy, PartialEq, Eq, Structural)]
pub struct Rect {
    pub x: i32,
    pub y: i32,
    pub width: i32,
    pub height: i32,
}

/// `n` moved into the range of `i32` by the shortest way.
pub open spec fn saturated(n: int) -> i32 {
    if n > i32::MAX {
        i32::MAX
    } else if n < i32::MIN {
        i32::MIN
    } else {
        n as i32
    }
}

/// Half of `n`, rounded toward zero.
pub open spec fn half(n: int) -> int {
    if n < 0 {
        -((-n) / 2)
    } else {
        n / 2
    }
}

fn saturating_sum(a: i32, b: i32) -> (r: i32)
    ensures
        r == saturated(a + b),
{
    let n: i64 = a as i64 + b as i64;
    if n > i32::MAX as i64 {
        i32::MAX
    } else if n < i32::MIN as i64 {
        i32::MIN
    } else {
        n as i32
    }
}

fn truncated_half(n: i32) -> (r: i32)
    ensures
        r == half(n as int),
{
    if n < 0 {
        let m: i64 = -(n as i64);
        (-(m / 2)) as i32
    } else {
        n / 2
    }
}

/// The four numbers of a rectangle, separated by commas.
pub open spec fn bbox_text(r: Rect) -> Seq<char> {
    text::decimal_int(r.x as int) + ","@ + text::decimal_int(r.y as int) + ","@ + text::decimal_int(
        r.width as int,
    ) + ","@ + text::decimal_int(r.height as int)
}

/// What one number of a bounding box reads as.
pub open spec fn bbox_number(s: Seq<char>) -> Option<int> {
    text::parsed_int(s, true, i32::MIN as int, i32::MAX as int)
}

/// The rectangle that `s` describes: exactly four numbers between commas.
pub open spec fn parsed_bbox(s: Seq<char>) -> Option<Rect> {
    let p = text::pieces(s, ',');
    if p.len() == 4 && bbox_number(p[0]) is Some && bbox_number(p[1]) is Some && bbox_number(
        p[2],
    ) is Some && bbox_number(p[3]) is Some {
        Some(
            Rect {
                x: bbox_number(p[0])->0 as i32,
                y: bbox_number(p[1])->0 as i32,
                width: bbox_number(p[2])->0 as i32,
                height: bbox_number(p[3])->0 as i32,
            },
        )
    } else {
        None
    }
}

impl Rect {
    /// X coordinate of the right edge, exclusive.
    pub open spec fn right_edge(self) -> i32 {
        saturated(self.x + self.width)
    }

    /// Y coordinate of the bottom edge, exclusive.
    pub open spec fn bottom_edge(self) -> i32 {
        saturated(self.y + self.height)
    }

    /// X coordinate of the horizontal midpoint.
    pub open spec fn middle_x(self) -> i32 {
        saturated(self.x + half(self.width as int))
    }

    /// Y coordinate of the vertical midpoint.
    pub open spec fn middle_y(self) -> i32 {
        saturated(self.y + half(self.height as int))
    }

    /// Whether `self` lies entirely within `outer`.
    pub open spec fn inside(self, outer: Rect) -> bool {
        &&& self.x >= outer.x
        &&& self.y >= outer.y
        &&& self.right_edge() <= outer.right_edge()
        &&& self.bottom_edge() <= outer.bottom_edge()
    }

    /// Format as `"x,y,width,height"`, the shape stored in a snapshot's `bbox`
    /// attribute.
    pub fn to_bbox_string(&self) -> (r: String)
        ensures
            r@ == bbox_text(*self),
    {
        let mut s = decimal_i32(self.x);
        s.append(",");
        s.append(decimal_i32(self.y).as_str());
        s.append(",");
        s.append(decimal_i32(self.width).as_str());
        s.append(",");
        s.append(decimal_i32(self.height).as_str());
        s
    }

    /// X coordinate of the right edge, exclusive.
    pub fn right(&self) -> (r: i32)
        ensures
            r == self.right_edge(),
    {
        saturating_sum(self.x, self.width)
    }

    /// Y coordinate of the bottom edge, exclusive.
    pub fn bottom(&self) -> (r: i32)
        ensures
            r == self.bottom_edge(),
    {
        saturating_sum(self.y, self.height)
    }

    /// X coordinate of the horizontal midpoint.
    pub fn center_x(&self) -> (r: i32)
        ensures
            r == self.middle_x(),
    {
        saturating_sum(self.x, truncated_half(self.width))
    }

    /// Y coordinate of the vertical midpoint.
    pub fn center_y(&self) -> (r: i32)
        ensures
            r == self.middle_y(),
    {
        saturating_sum(self.y, truncated_half(self.height))
    }

    /// Whether `self` lies entirely within `outer`.
    pub fn is_inside(&self, outer: &Rect) -> (r: bool)
        ensures
            r == self.inside(*outer),
    {
        self.x >= outer.x && self.y >= outer.y && self.right() <= outer.right() && self.bottom()
            <= outer.bottom()
    }

    /// Reads a `"x,y,width,height"` string; `None` where it is malformed.
    pub fn parse_bbox(s: &str) -> (r: Option<Self>)
        ensures
            r == parsed_bbox(s@),
    {
        let p = split_at_char(&chars_of(s), ',');
        if p.len() != 4 {
            return None;
        }
        match (parse_i32(&p[0]), parse_i32(&p[1]), parse_i32(&p[2]), parse_i32(&p[3])) {
            (Some(x), Some(y), Some(width), Some(height)) => Some(Rect { x, y, width, height }),
            _ => None,
        }
    }
}

// ── Laws ────────────────────────────────────────────────────────────────────

proof fn lemma_decimal_reads_back(n: nat)
    ensures
        text::decimal(n).len() >= 1,
        text::all_digits(text::decimal(n)),
        text::digits_value(text::decimal(n)) == n,
    decreases n,
{
    reveal_with_fuel(text::digits_value, 2);
    if n < 10 {
        assert(text::decimal(n).drop_last() =~= Seq::empty());
    } else {
        lemma_decimal_reads_back(n / 10);
        assert(text::decimal(n).drop_last() =~= text::decimal(n / 10));
    }
}

proof fn lemma_number_reads_back(n: int)
    requires
        i32::MIN <= n <= i32::MAX,
    ensures
        bbox_number(text::decimal_int(n)) == Some(n),
        !text::decimal_int(n).contains(','),
{
    let s = text::decimal_int(n);
    if n < 0 {
        lemma_decimal_reads_back((-n) as nat);
        assert(s.skip(1) =~= text::decimal((-n) as nat));
        assert forall|i: int| 0 <= i < s.len() implies s[i] != ',' by {
            if i > 0 {
                assert(s[i] == s.skip(1)[i - 1]);
            }
        }
    } else {
        lemma_decimal_reads_back(n as nat);
        assert(text::is_digit(s[0]));
        assert forall|i: int| 0 <= i < s.len() implies s[i] != ',' by {
            assert(text::is_digit(s[i]));
        }
    }
}

proof fn lemma_bbox_pieces(r: Rect)
    ensures
        text::pieces(bbox_text(r), ',') == seq![
            text::decimal_int(r.x as int),
            text::decimal_int(r.y as int),
            text::decimal_int(r.width as int),
            text::decimal_int(r.height as int),
        ],
{
    let a = text::decimal_int(r.x as int);
    let b = text::decimal_int(r.y as int);
    let c = text::decimal_int(r.width as int);
    let d = text::decimal_int(r.height as int);
    lemma_number_reads_back(r.x as int);
    lemma_number_reads_back(r.y as int);
    lemma_number_reads_back(r.width as int);
    lemma_number_reads_back(r.height as int);
    reveal_strlit(",");
    let none = Seq::<char>::empty();
    text::lemma_pieces_extend(none, a, ',');
    assert(none + a =~= a);
    let s1 = a + ","@;
    assert(s1 =~= a.push(','));
    text::lemma_pieces_separator(a, ',');
    text::lemma_pieces_extend(s1, b, ',');
    let s2 = s1 + b + ","@;
    assert(s2 =~= (s1 + b).push(','));
    text::lemma_pieces_separator(s1 + b, ',');
    text::lemma_pieces_extend(s2, c, ',');
    let s3 = s2 + c + ","@;
    assert(s3 =~= (s2 + c).push(','));
    text::lemma_pieces_separator(s2 + c, ',');
    text::lemma_pieces_extend(s3, d, ',');
    assert(text::pieces(none, ',') =~= seq![none]);
    assert(none + a =~= a);
    assert(none + b =~= b);
    assert(none + c =~= c);
    assert(none + d =~= d);
    assert(text::pieces(s3 + d, ',') =~= seq![a, b, c, d]);
}

/// Reading a written bounding box gives the rectangle back.
pub proof fn law_bbox_reads_back(r: Rect)
    ensures
        parsed_bbox(bbox_text(r)) == Some(r),
{
    lemma_bbox_pieces(r);
    lemma_number_reads_back(r.x as int);
    lemma_number_reads_back(r.y as int);
    lemma_number_reads_back(r.width as int);
    lemma_number_reads_back(r.height as int);
}

/// A rectangle lies within itself.
pub proof fn law_inside_reflexive(r: Rect)
    ensures
        r.inside(r),
{
}

/// What lies within a rectangle lies within every rectangle around that one.
pub proof fn law_inside_transitive(a: Rect, b: Rect, c: Rect)
    requires
        a.inside(b),
        b.inside(c),
    ensures
        a.inside(c),
{
}

/// The far edges lie the width and the height beyond the near ones, and stop at the end of
/// the coordinate range.
pub proof fn law_far_edges(r: Rect)
    ensures
        i32::MIN <= r.x + r.width <= i32::MAX ==> r.right_edge() == r.x + r.width,
        i32::MIN <= r.y + r.height <= i32::MAX ==> r.bottom_edge() == r.y + r.height,
        r.x + r.width > i32::MAX ==> r.right_edge() == i32::MAX,
        r.x + r.width < i32::MIN ==> r.right_edge() == i32::MIN,
        r.y + r.height > i32::MAX ==> r.bottom_edge() == i32::MAX,
        r.y + r.height < i32::MIN ==> r.bottom_edge() == i32::MIN,
{
}

/// The middle lies as far from the near edge as from the far one, or one pixel closer to the
/// near one where the extent is odd.
pub proof fn law_middle_halves(r: Rect)
    requires
        r.width >= 0,
        r.height >= 0,
        r.x + r.width <= i32::MAX,
        r.y + r.height <= i32::MAX,
    ensures
        0 <= (r.x + r.width - r.middle_x()) - (r.middle_x() - r.x) <= 1,
        0 <= (r.y + r.height - r.middle_y()) - (r.middle_y() - r.y) <= 1,
{
}

/// A negative extent is halved toward the near edge too, and a middle beyond the coordinate
/// range stops at its end.
pub proof fn law_middle_stays_in_range(r: Rect)
    ensures
        r.width < 0 && r.x + r.width >= i32::MIN ==> 0 <= (r.middle_x() - r.x - r.width) - (r.x
            - r.middle_x()) <= 1,
        r.height < 0 && r.y + r.height >= i32::MIN ==> 0 <= (r.middle_y() - r.y - r.height) - (
        r.y - r.middle_y()) <= 1,
        2 * r.x + r.width >= 2 * i32::MAX && r.width >= 0 ==> r.middle_x() == i32::MAX,
        2 * r.y + r.height >= 2 * i32::MAX && r.height >= 0 ==> r.middle_y() == i32::MAX,
        2 * r.x + r.width <= 2 * i32::MIN && r.width <= 0 ==> r.middle_x() == i32::MIN,
        2 * r.y + r.height <= 2 * i32::MIN && r.height <= 0 ==> r.middle_y() == i32::MIN,
{
}

/// A rectangle lies inside another exactly where each of its points is one of the other's.
pub proof fn law_inside_holds_every_point(a: Rect, b: Rect)
    requires
        a.width > 0,
        a.height > 0,
        a.x + a.width <= i32::MAX,
        a.y + a.height <= i32::MAX,
        i32::MIN <= b.x + b.width <= i32::MAX,
        i32::MIN <= b.y + b.height <= i32::MAX,
    ensures
        a.inside(b) <==> forall|x: int, y: int|
            #![trigger a.holds(x, y)]
            a.holds(x, y) ==> b.holds(x, y),
{
    if !a.inside(b) {
        let (near_x, near_y) = (a.x as int, a.y as int);
        let (far_x, far_y) = (a.x + a.width - 1, a.y + a.height - 1);
        assert(a.holds(near_x, near_y) && a.holds(far_x, far_y));
        assert(!b.holds(near_x, near_y) || !b.holds(far_x, far_y));
    }
}

impl Rect {
    /// Whether the point is one of the rectangle's.
    pub open spec fn holds(self, x: int, y: int) -> bool {
        self.x <= x < self.x + self.width && self.y <= y < self.y + self.height
    }
}

/// Whatever its extent, a rectangle inside another begins and ends between the other's edges.
pub proof fn law_inside_goes_by_edges(a: Rect, b: Rect)
    requires
        i32::MIN <= a.x + a.width <= i32::MAX,
        i32::MIN <= a.y + a.height <= i32::MAX,
        i32::MIN <= b.x + b.width <= i32::MAX,
        i32::MIN <= b.y + b.height <= i32::MAX,
    ensures
        a.inside(b) <==> b.x <= a.x && a.x + a.width <= b.x + b.width && b.y <= a.y && a.y
            + a.height <= b.y + b.height,
{
}

/// A bounding box is written as its position and its extent, four numbers with a comma
/// between two.
pub proof fn law_bbox_shows_position_and_extent(r: Rect)
    ensures
        text::pieces(bbox_text(r), ',').len() == 4,
        text::pieces(bbox_text(r), ',')[0] == text::decimal_int(r.x as int),
        text::pieces(bbox_text(r), ',')[1] == text::decimal_int(r.y as int),
        text::pieces(bbox_text(r), ',')[2] == text::decimal_int(r.width as int),
        text::pieces(bbox_text(r), ',')[3] == text::decimal_int(r.height as int),
{
    lemma_bbox_pieces(r);
}

/// Whatever is read as a bounding box is four numbers with a comma between two, each within
/// the coordinate range; anything else is none.
pub proof fn law_only_four_numbers_are_a_bbox(s: Seq<char>)
    ensures
        ({
            let p = text::pieces(s, ',');
            match parsed_bbox(s) {
                Some(r) => {
                    &&& p.len() == 4
                    &&& text::parsed_int(p[0], true, i32::MIN as int, i32::MAX as int) == Some(
                        r.x as int,
                    )
                    &&& text::parsed_int(p[1], true, i32::MIN as int, i32::MAX as int) == Some(
                        r.y as int,
                    )
                    &&& text::parsed_int(p[2], true, i32::MIN as int, i32::MAX as int) == Some(
                        r.width as int,
                    )
                    &&& text::parsed_int(p[3], true, i32::MIN as int, i32::MAX as int) == Some(
                        r.height as int,
                    )
                },
                None => p.len() != 4 || exists|i: int|
                    0 <= i < 4 && text::parsed_int(
                        #[trigger] p[i],
                        true,
                        i32::MIN as int,
                        i32::MAX as int,
                    ) is None,
            }
        }),
{
    let p = text::pieces(s, ',');
    if parsed_bbox(s) is None && p.len() == 4 {
        assert(bbox_number(p[0]) is None || bbox_number(p[1]) is None || bbox_number(p[2]) is None
            || bbox_number(p[3]) is None);
    }
}

} // verus!
