//! Cards: the boxes of the diagram, their anchors and their SVG.

use vstd::prelude::*;
use vstd::string::StringExecFns;
use crate::chars::{push_ticks, ticks_text};
use crate::eventmodel::strings_view;

verus! {

/// No coordinate or size that the layout computes reaches this many ticks;
/// within it, sums of a few never overflow.
pub const COORD_LIMIT: i128 = 1_000_000_000_000_000_000_000_000_000_000_000;

pub open spec fn in_range(v: int) -> bool {
    -COORD_LIMIT <= v <= COORD_LIMIT
}

/// A point, in ticks.
#[derive(Clone, Copy, Debug, PartialEq, Eq, Structural)]
pub struct Point {
    pub x: i128,
    pub y: i128,
}

/// Where a card's text block starts, in ticks.
#[derive(Clone, Copy, Debug, PartialEq, Eq, Structural)]
pub struct TextTranslate {
    pub x: i128,
    pub y: i128,
}

#[derive(Clone, Copy, Debug, PartialEq, Eq, Structural)]
pub enum CardType {
    Job,
    Form,
    Command,
    Event,
    View,
}

/// A box: id, type, geometry in ticks, and its lines of text.
#[derive(Clone, Debug)]
pub struct Card {
    pub id: String,
    pub card_type: CardType,
    pub origin: Point,
    pub width: i128,
    pub height: i128,
    pub text_lines: Vec<String>,
    pub text_translate: TextTranslate,
}

pub struct CardModel {
    pub id: Seq<char>,
    pub card_type: CardType,
    pub origin: Point,
    pub width: i128,
    pub height: i128,
    pub lines: Seq<Seq<char>>,
    pub text_translate: TextTranslate,
}

impl View for Card {
    type V = CardModel;

    open spec fn view(&self) -> CardModel {
        CardModel {
            id: self.id@,
            card_type: self.card_type,
            origin: self.origin,
            width: self.width,
            height: self.height,
            lines: strings_view(self.text_lines@),
            text_translate: self.text_translate,
        }
    }
}

pub open spec fn cards_view(v: Seq<Card>) -> Seq<CardModel> {
    Seq::new(v.len(), |i: int| v[i]@)
}

/// A card as ingestion makes it: at the origin, of no size.
pub open spec fn fresh_card(id: Seq<char>, t: CardType, lines: Seq<Seq<char>>) -> CardModel {
    CardModel {
        id,
        card_type: t,
        origin: Point { x: 0, y: 0 },
        width: 0,
        height: 0,
        lines,
        text_translate: TextTranslate { x: 0, y: 0 },
    }
}

/// Geometry that the anchors and the renderer can compute without overflow.
pub open spec fn card_fits(c: CardModel) -> bool {
    &&& in_range(c.origin.x as int)
    &&& in_range(c.origin.y as int)
    &&& 0 <= c.width <= COORD_LIMIT
    &&& 0 <= c.height <= COORD_LIMIT
}

pub open spec fn top_anchor(c: CardModel) -> Point {
    Point { x: (c.origin.x + c.width / 2) as i128, y: c.origin.y }
}

pub open spec fn right_anchor(c: CardModel) -> Point {
    Point { x: (c.origin.x + c.width) as i128, y: (c.origin.y + c.height / 2) as i128 }
}

pub open spec fn bottom_anchor(c: CardModel) -> Point {
    Point { x: (c.origin.x + c.width / 2) as i128, y: (c.origin.y + c.height) as i128 }
}

pub open spec fn left_anchor(c: CardModel) -> Point {
    Point { x: c.origin.x, y: (c.origin.y + c.height / 2) as i128 }
}

/// The fill colour of each type; jobs and forms share white.
pub open spec fn fill_of(t: CardType) -> Seq<char> {
    match t {
        CardType::Job => "#ffffff"@,
        CardType::Form => "#ffffff"@,
        CardType::Command => "#60b3f7"@,
        CardType::Event => "#f7a660"@,
        CardType::View => "#60f765"@,
    }
}

/// One `tspan` per line of text.
pub open spec fn tspans(ls: Seq<Seq<char>>) -> Seq<char>
    decreases ls.len(),
{
    if ls.len() == 0 {
        seq![]
    } else {
        tspans(ls.drop_last()) + "<tspan x='0' dy='1rem'>"@ + ls.last() + "</tspan>"@
    }
}

/// The filled rectangle.
pub open spec fn rect_svg(c: CardModel) -> Seq<char> {
    "<rect id='"@ + c.id + "' stroke='black' stroke-width='2' x='"@ + ticks_text(c.origin.x as int)
        + "' y='"@ + ticks_text(c.origin.y as int) + "' height='"@ + ticks_text(c.height as int)
        + "' width='"@ + ticks_text(c.width as int) + "' fill='"@ + fill_of(c.card_type) + "' />"@
}

/// The start of the text block: its position, the id in bold, a rule.
pub open spec fn text_head_svg(c: CardModel) -> Seq<char> {
    "<text transform='translate("@ + ticks_text(c.text_translate.x as int) + " "@ + ticks_text(
        c.text_translate.y as int,
    ) + ")' x='0' y='0' style='white-space: pre;' font-family='monospace' >"@
        + "<tspan x='0' dy='1rem' font-size='larger' font-weight='bold'>"@ + c.id + "</tspan>"@
        + "<tspan x='0' dy='1rem'>==========</tspan>"@
}

/// The rectangle, then the text block: the id in bold, a rule, the lines.
pub open spec fn card_svg(c: CardModel) -> Seq<char> {
    rect_svg(c) + text_head_svg(c) + tspans(c.lines) + "</text>"@
}

/// The index of the first card whose id is `id`.
pub open spec fn find_card(cards: Seq<CardModel>, id: Seq<char>) -> Option<int>
    decreases cards.len(),
{
    if cards.len() == 0 {
        None
    } else {
        match find_card(cards.drop_last(), id) {
            Some(i) => Some(i),
            None => if cards.last().id == id {
                Some(cards.len() - 1)
            } else {
                None
            },
        }
    }
}

/// What `find_card` finds is the first card with that id; when it finds
/// nothing, no card has it.
pub proof fn lemma_find_card(cards: Seq<CardModel>, id: Seq<char>)
    ensures
        match find_card(cards, id) {
            Some(i) => 0 <= i < cards.len() && cards[i].id == id && forall|k: int|
                0 <= k < i ==> (#[trigger] cards[k]).id != id,
            None => forall|k: int| 0 <= k < cards.len() ==> (#[trigger] cards[k]).id != id,
        },
    decreases cards.len(),
{
    if cards.len() > 0 {
        lemma_find_card(cards.drop_last(), id);
        assert(forall|k: int| 0 <= k < cards.len() - 1 ==> cards.drop_last()[k] == cards[k]);
    }
}

/// A match in a prefix is the match in the whole.
pub proof fn lemma_find_card_prefix(cards: Seq<CardModel>, id: Seq<char>, k: int)
    requires
        0 <= k <= cards.len(),
        find_card(cards.take(k), id) is Some,
    ensures
        find_card(cards, id) == find_card(cards.take(k), id),
    decreases cards.len(),
{
    if k < cards.len() {
        assert(cards.drop_last().take(k) =~= cards.take(k));
        lemma_find_card_prefix(cards.drop_last(), id, k);
    } else {
        assert(cards.take(k) =~= cards);
    }
}

/// Cards added after the first match do not change it.
pub proof fn lemma_find_card_push(cards: Seq<CardModel>, c: CardModel, id: Seq<char>)
    requires
        find_card(cards, id) is Some,
    ensures
        find_card(cards.push(c), id) == find_card(cards, id),
{
    assert(cards.push(c).drop_last() =~= cards);
}

/// The index of the first of `cards` whose id is `id`.
pub fn card_index(cards: &Vec<Card>, id: &String) -> (r: Option<usize>)
    ensures
        find_card(cards_view(cards@), id@) == (match r {
            Some(i) => Some(i as int),
            None => None,
        }),
{
    let ghost cv = cards_view(cards@);
    let mut j: usize = 0;
    while j < cards.len()
        invariant
            j <= cards.len(),
            cv == cards_view(cards@),
            find_card(cv.take(j as int), id@) is None,
        decreases cards.len() - j,
    {
        assert(cv.take(j + 1).drop_last() =~= cv.take(j as int));
        if cards[j].id == *id {
            proof {
                lemma_find_card_prefix(cv, id@, j + 1);
            }
            return Some(j);
        }
        j += 1;
    }
    assert(cv.take(j as int) =~= cv);
    None
}

/// Copies of the strings of `v`.
pub fn copy_strings(v: &Vec<String>) -> (r: Vec<String>)
    ensures
        strings_view(r@) == strings_view(v@),
{
    let mut r: Vec<String> = Vec::new();
    for i in 0..v.len()
        invariant
            r.len() == i,
            i <= v.len(),
            forall|k: int| 0 <= k < i ==> (#[trigger] r@[k])@ == v@[k]@,
    {
        r.push(v[i].clone());
    }
    assert(strings_view(r@) =~= strings_view(v@));
    r
}

impl Card {
    pub fn new(id: String, card_type: CardType, text_lines: Vec<String>) -> (r: Card)
        ensures
            r@ == fresh_card(id@, card_type, strings_view(text_lines@)),
    {
        Card {
            id,
            card_type,
            text_lines,
            origin: Point { x: 0, y: 0 },
            width: 0,
            height: 0,
            text_translate: TextTranslate { x: 0, y: 0 },
        }
    }

    /// A card equal to this one.
    pub fn duplicate(&self) -> (r: Card)
        ensures
            r@ == self@,
    {
        Card {
            id: self.id.clone(),
            card_type: self.card_type,
            origin: self.origin,
            width: self.width,
            height: self.height,
            text_lines: copy_strings(&self.text_lines),
            text_translate: self.text_translate,
        }
    }

    /// The middle of the top edge.
    pub fn top_anchor(&self) -> (r: Point)
        requires
            card_fits(self@),
        ensures
            r == top_anchor(self@),
    {
        Point { x: self.origin.x + self.width / 2, y: self.origin.y }
    }

    /// The middle of the right edge.
    pub fn right_anchor(&self) -> (r: Point)
        requires
            card_fits(self@),
        ensures
            r == right_anchor(self@),
    {
        Point { x: self.origin.x + self.width, y: self.origin.y + self.height / 2 }
    }

    /// The middle of the bottom edge.
    pub fn bottom_anchor(&self) -> (r: Point)
        requires
            card_fits(self@),
        ensures
            r == bottom_anchor(self@),
    {
        Point { x: self.origin.x + self.width / 2, y: self.origin.y + self.height }
    }

    /// The middle of the left edge.
    pub fn left_anchor(&self) -> (r: Point)
        requires
            card_fits(self@),
        ensures
            r == left_anchor(self@),
    {
        Point { x: self.origin.x, y: self.origin.y + self.height / 2 }
    }

    pub fn set_origin(&mut self, x: i128, y: i128)
        ensures
            final(self)@ == (CardModel { origin: Point { x, y }, ..old(self)@ }),
    {
        self.origin = Point { x, y };
    }

    /// Sets the size, and puts the text block a twelfth of `pad` inside the
    /// origin (all in ticks).
    pub fn set_dimensions(&mut self, width: i128, height: i128, pad: i128)
        requires
            in_range(old(self).origin.x as int),
            in_range(old(self).origin.y as int),
            0 <= pad <= COORD_LIMIT,
        ensures
            final(self)@ == (CardModel {
                width,
                height,
                text_translate: TextTranslate {
                    x: (old(self).origin.x + pad / 12) as i128,
                    y: (old(self).origin.y + pad / 12) as i128,
                },
                ..old(self)@
            }),
    {
        self.width = width;
        self.height = height;
        self.text_translate = TextTranslate {
            x: self.origin.x + pad / 12,
            y: self.origin.y + pad / 12,
        };
    }

    fn rect_into(&self, out: &mut String)
        ensures
            final(out)@ == old(out)@ + rect_svg(self@),
    {
        let ghost start = out@;
        out.append("<rect id='");
        out.append(self.id.as_str());
        out.append("' stroke='black' stroke-width='2' x='");
        push_ticks(out, self.origin.x);
        out.append("' y='");
        push_ticks(out, self.origin.y);
        let ghost mid = out@;
        assert(mid =~= start + ("<rect id='"@ + self.id@ + "' stroke='black' stroke-width='2' x='"@
            + ticks_text(self.origin.x as int) + "' y='"@ + ticks_text(self.origin.y as int)));
        out.append("' height='");
        push_ticks(out, self.height);
        out.append("' width='");
        push_ticks(out, self.width);
        out.append("' fill='");
        let fill = match self.card_type {
            CardType::Job => "#ffffff",
            CardType::Form => "#ffffff",
            CardType::Command => "#60b3f7",
            CardType::Event => "#f7a660",
            CardType::View => "#60f765",
        };
        out.append(fill);
        out.append("' />");
        assert(out@ =~= start + rect_svg(self@));
    }

    fn text_head_into(&self, out: &mut String)
        ensures
            final(out)@ == old(out)@ + text_head_svg(self@),
    {
        let ghost start = out@;
        out.append("<text transform='translate(");
        push_ticks(out, self.text_translate.x);
        out.append(" ");
        push_ticks(out, self.text_translate.y);
        out.append(")' x='0' y='0' style='white-space: pre;' font-family='monospace' >");
        out.append("<tspan x='0' dy='1rem' font-size='larger' font-weight='bold'>");
        out.append(self.id.as_str());
        out.append("</tspan>");
        out.append("<tspan x='0' dy='1rem'>==========</tspan>");
        assert(out@ =~= start + text_head_svg(self@));
    }

    fn lines_into(&self, out: &mut String)
        ensures
            final(out)@ == old(out)@ + tspans(strings_view(self.text_lines@)),
    {
        let ghost before_lines = out@;
        assert(strings_view(self.text_lines@).take(0) =~= Seq::<Seq<char>>::empty());
        assert(out@ =~= before_lines + tspans(Seq::<Seq<char>>::empty()));
        for i in 0..self.text_lines.len()
            invariant
                out@ == before_lines + tspans(strings_view(self.text_lines@).take(i as int)),
        {
            let ghost prev = out@;
            out.append("<tspan x='0' dy='1rem'>");
            out.append(self.text_lines[i].as_str());
            out.append("</tspan>");
            let ghost ls = strings_view(self.text_lines@).take(i + 1);
            assert(ls.drop_last() =~= strings_view(self.text_lines@).take(i as int));
            assert(out@ =~= before_lines + tspans(ls));
        }
        assert(strings_view(self.text_lines@).take(self.text_lines.len() as int) =~= strings_view(
            self.text_lines@,
        ));
    }

    /// Appends this card's SVG to `out`.
    pub fn render_into(&self, out: &mut String)
        ensures
            final(out)@ == old(out)@ + card_svg(self@),
    {
        let ghost start = out@;
        self.rect_into(out);
        self.text_head_into(out);
        self.lines_into(out);
        out.append("</text>");
        assert(out@ =~= start + card_svg(self@));
    }

    /// The card as SVG: a filled rectangle and its text block.
    pub fn render(&self) -> (r: String)
        ensures
            r@ == card_svg(self@),
    {
        let mut out = String::new();
        self.render_into(&mut out);
        assert(out@ =~= card_svg(self@));
        out
    }
}

} // verus!
