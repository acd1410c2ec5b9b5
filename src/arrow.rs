//! Arrows: directed curves between two cards, allowed only along the
//! event-modeling cycle.

use vstd::prelude::*;
use vstd::string::StringExecFns;
use crate::card::{
    bottom_anchor, card_fits, card_index, cards_view, find_card, left_anchor, right_anchor,
    top_anchor, Card, CardModel, CardType, Point,
};
use crate::chars::{push_ticks, ticks_text};
use crate::error::{EmlError, ErrorModel};

verus! {

/// How far short of its target card an arrow's curve ends, in ticks, to
/// leave room for the arrowhead.
pub const ARROW_GAP: i128 = 180;

/// An arrow from `begin_at` to `end_at`; both are copies of cards of the
/// document, matched again by id when the document is laid out.
#[derive(Clone, Debug)]
pub struct Arrow {
    pub begin_at: Card,
    pub end_at: Card,
}

pub struct ArrowModel {
    pub begin: CardModel,
    pub end: CardModel,
}

impl View for Arrow {
    type V = ArrowModel;

    open spec fn view(&self) -> ArrowModel {
        ArrowModel { begin: self.begin_at@, end: self.end_at@ }
    }
}

pub open spec fn arrows_view(v: Seq<Arrow>) -> Seq<ArrowModel> {
    Seq::new(v.len(), |i: int| v[i]@)
}

/// The transitions of the cycle: trigger, command, event, view, trigger.
pub open spec fn legal(from: CardType, to: CardType) -> bool {
    match (from, to) {
        (CardType::Job, CardType::Command) => true,
        (CardType::Form, CardType::Command) => true,
        (CardType::Command, CardType::Event) => true,
        (CardType::Event, CardType::View) => true,
        (CardType::View, CardType::Job) => true,
        (CardType::View, CardType::Form) => true,
        _ => false,
    }
}

pub fn is_legal(from: CardType, to: CardType) -> (r: bool)
    ensures
        r == legal(from, to),
{
    match (from, to) {
        (CardType::Job, CardType::Command) => true,
        (CardType::Form, CardType::Command) => true,
        (CardType::Command, CardType::Event) => true,
        (CardType::Event, CardType::View) => true,
        (CardType::View, CardType::Job) => true,
        (CardType::View, CardType::Form) => true,
        _ => false,
    }
}

/// An arrow that can be drawn: legal, with geometry in range.
pub open spec fn arrow_fits(a: ArrowModel) -> bool {
    card_fits(a.begin) && card_fits(a.end) && legal(a.begin.card_type, a.end.card_type)
}

/// Where the curve leaves its source and meets its target.
pub open spec fn anchor_points(a: ArrowModel) -> (Point, Point) {
    match a.begin.card_type {
        CardType::Job | CardType::Form => (right_anchor(a.begin), top_anchor(a.end)),
        CardType::Command => (bottom_anchor(a.begin), left_anchor(a.end)),
        CardType::Event => (right_anchor(a.begin), bottom_anchor(a.end)),
        CardType::View => (top_anchor(a.begin), left_anchor(a.end)),
    }
}

/// The end of the curve: the target anchor moved out from the card by
/// [`ARROW_GAP`].
pub open spec fn tip(a: ArrowModel) -> Point {
    let p = anchor_points(a).1;
    match a.end.card_type {
        CardType::Command => Point { x: p.x, y: (p.y - ARROW_GAP) as i128 },
        CardType::View => Point { x: p.x, y: (p.y + ARROW_GAP) as i128 },
        _ => Point { x: (p.x - ARROW_GAP) as i128, y: p.y },
    }
}

#[derive(Clone, Copy, Debug, PartialEq, Eq, Structural)]
pub enum Direction {
    Vertical,
    Horizontal,
}

/// Where the line through `p` along `d` meets the line through `q` along
/// `e`; nothing when they are parallel.
pub open spec fn intersection(p: Point, d: Direction, q: Point, e: Direction) -> Option<Point> {
    if d == e {
        None
    } else if d == Direction::Vertical {
        Some(Point { x: p.x, y: q.y })
    } else {
        Some(Point { x: q.x, y: p.y })
    }
}

/// The control point of the curve: where a vertical line through one anchor
/// meets a horizontal line through the other. From a job, form or event the
/// vertical line runs through the target; from a command or view, through
/// the source.
pub open spec fn control_point(a: ArrowModel) -> Point {
    let (s, t) = anchor_points(a);
    match a.begin.card_type {
        CardType::Command | CardType::View => Point { x: s.x, y: t.y },
        _ => Point { x: t.x, y: s.y },
    }
}

/// A quadratic curve from `s` through control point `c` to `t`, with an
/// arrowhead at `t`.
pub open spec fn path_svg(s: Point, c: Point, t: Point) -> Seq<char> {
    "<path d='M "@ + ticks_text(s.x as int) + " "@ + ticks_text(s.y as int) + " Q "@ + ticks_text(
        c.x as int,
    ) + " "@ + ticks_text(c.y as int) + " "@ + ticks_text(t.x as int) + " "@ + ticks_text(
        t.y as int,
    ) + "' stroke='black' stroke-width='2' fill='none' marker-end='url(#triangle)' />"@
}

pub open spec fn arrow_svg(a: ArrowModel) -> Seq<char> {
    path_svg(anchor_points(a).0, control_point(a), tip(a))
}

fn path_into(out: &mut String, s: Point, c: Point, t: Point)
    ensures
        final(out)@ == old(out)@ + path_svg(s, c, t),
{
    let ghost start = out@;
    out.append("<path d='M ");
    push_ticks(out, s.x);
    out.append(" ");
    push_ticks(out, s.y);
    out.append(" Q ");
    push_ticks(out, c.x);
    let ghost mid = out@;
    assert(mid =~= start + ("<path d='M "@ + ticks_text(s.x as int) + " "@ + ticks_text(s.y as int)
        + " Q "@ + ticks_text(c.x as int)));
    out.append(" ");
    push_ticks(out, c.y);
    out.append(" ");
    push_ticks(out, t.x);
    out.append(" ");
    push_ticks(out, t.y);
    out.append("' stroke='black' stroke-width='2' fill='none' marker-end='url(#triangle)' />");
    assert(out@ =~= start + path_svg(s, c, t));
}

/// The point where two lines meet, each given by a point and a direction;
/// parallel lines are a degenerate construction.
pub fn line_intersection(p: Point, d: Direction, q: Point, e: Direction) -> (r: Result<
    Point,
    EmlError,
>)
    ensures
        match intersection(p, d, q, e) {
            Some(x) => r == Ok::<Point, EmlError>(x),
            None => r == Err::<Point, EmlError>(EmlError::DegenerateGeometry),
        },
{
    match (d, e) {
        (Direction::Vertical, Direction::Horizontal) => Ok(Point { x: p.x, y: q.y }),
        (Direction::Horizontal, Direction::Vertical) => Ok(Point { x: q.x, y: p.y }),
        _ => Err(EmlError::DegenerateGeometry),
    }
}

impl Arrow {
    /// An arrow between two cards, refused unless the pair is legal.
    pub fn new(begin_at: Card, end_at: Card) -> (r: Result<Arrow, EmlError>)
        ensures
            legal(begin_at.card_type, end_at.card_type) ==> r is Ok && (r->Ok_0)@ == (ArrowModel {
                begin: begin_at@,
                end: end_at@,
            }),
            !legal(begin_at.card_type, end_at.card_type) ==> r is Err && (r->Err_0)@
                == ErrorModel::IllegalArrow(begin_at.id@, end_at.id@),
    {
        if is_legal(begin_at.card_type, end_at.card_type) {
            Ok(Arrow { begin_at, end_at })
        } else {
            Err(EmlError::IllegalArrow(begin_at.id, end_at.id))
        }
    }

    /// Takes both cards again, by id, from `cards`: the first with each id.
    pub fn set_dimensions(&mut self, cards: &Vec<Card>) -> (r: Result<(), EmlError>)
        ensures
            match (
                find_card(cards_view(cards@), old(self).begin_at.id@),
                find_card(cards_view(cards@), old(self).end_at.id@),
            ) {
                (Some(i), Some(j)) => r is Ok && final(self)@ == (ArrowModel {
                    begin: cards@[i]@,
                    end: cards@[j]@,
                }),
                (None, _) => r is Err && (r->Err_0)@ == ErrorModel::UnresolvedReference(
                    old(self).begin_at.id@,
                ) && final(self)@ == old(self)@,
                (Some(_), None) => r is Err && (r->Err_0)@ == ErrorModel::UnresolvedReference(
                    old(self).end_at.id@,
                ) && final(self)@ == old(self)@,
            },
    {
        let i = match card_index(cards, &self.begin_at.id) {
            Some(i) => i,
            None => return Err(EmlError::UnresolvedReference(self.begin_at.id.clone())),
        };
        let j = match card_index(cards, &self.end_at.id) {
            Some(j) => j,
            None => return Err(EmlError::UnresolvedReference(self.end_at.id.clone())),
        };
        proof {
            crate::card::lemma_find_card(cards_view(cards@), old(self).begin_at.id@);
            crate::card::lemma_find_card(cards_view(cards@), old(self).end_at.id@);
        }
        self.begin_at = cards[i].duplicate();
        self.end_at = cards[j].duplicate();
        Ok(())
    }

    /// The anchors where the curve leaves its source and meets its target.
    pub fn get_points(&self) -> (r: (Point, Point))
        requires
            arrow_fits(self@),
        ensures
            r == anchor_points(self@),
    {
        match self.begin_at.card_type {
            CardType::Job | CardType::Form => (self.begin_at.right_anchor(), self.end_at.top_anchor()),
            CardType::Command => (self.begin_at.bottom_anchor(), self.end_at.left_anchor()),
            CardType::Event => (self.begin_at.right_anchor(), self.end_at.bottom_anchor()),
            CardType::View => (self.begin_at.top_anchor(), self.end_at.left_anchor()),
        }
    }

    /// The control point of the curve.
    pub fn control_point(&self) -> (r: Point)
        requires
            arrow_fits(self@),
        ensures
            r == control_point(self@),
    {
        let (s, t) = self.get_points();
        let r = match self.begin_at.card_type {
            CardType::Command | CardType::View => line_intersection(
                s,
                Direction::Vertical,
                t,
                Direction::Horizontal,
            ),
            _ => line_intersection(t, Direction::Vertical, s, Direction::Horizontal),
        };
        // One line is vertical and the other horizontal, so they meet.
        match r {
            Ok(p) => p,
            Err(_) => s,
        }
    }

    /// The end of the curve, short of the target card.
    pub fn tip(&self) -> (r: Point)
        requires
            arrow_fits(self@),
        ensures
            r == tip(self@),
    {
        let (_, t) = self.get_points();
        match self.end_at.card_type {
            CardType::Command => Point { x: t.x, y: t.y - ARROW_GAP },
            CardType::View => Point { x: t.x, y: t.y + ARROW_GAP },
            _ => Point { x: t.x - ARROW_GAP, y: t.y },
        }
    }

    /// Appends this arrow's SVG path to `out`.
    pub fn render_into(&self, out: &mut String)
        requires
            arrow_fits(self@),
        ensures
            final(out)@ == old(out)@ + arrow_svg(self@),
    {
        let (s, _) = self.get_points();
        let c = self.control_point();
        let t = self.tip();
        path_into(out, s, c, t);
    }

    /// The arrow as an SVG path: a quadratic curve with an arrowhead.
    pub fn render(&self) -> (r: String)
        requires
            arrow_fits(self@),
        ensures
            r@ == arrow_svg(self@),
    {
        let mut out = String::new();
        self.render_into(&mut out);
        assert(out@ =~= arrow_svg(self@));
        out
    }
}

} // verus!
