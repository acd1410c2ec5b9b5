//! The document: cards and arrows, the fixed three-row layout, and the SVG.

use vstd::prelude::*;
use vstd::string::StringExecFns;
use crate::arrow::{arrow_fits, arrow_svg, arrows_view, is_legal, legal, Arrow, ArrowModel};
use crate::card::{
    card_fits, card_index, card_svg, cards_view, find_card, Card, CardModel, CardType, Point,
    TextTranslate,
};
use crate::chars::{push_ticks, ticks_text};
use crate::error::{EmlError, ErrorModel};
use crate::swimlane::Swimlane;

verus! {

/// The layout's lengths, in whole units.
#[derive(Clone, Copy, Debug, PartialEq, Eq, Structural)]
pub struct SvgConfig {
    /// The margin around and between cards.
    pub pad: u32,
    pub card_height: u32,
    pub card_width: u32,
}

pub struct SvgDocument {
    pub width: i128,
    pub height: i128,
    pub cards: Vec<Card>,
    pub arrows: Vec<Arrow>,
    pub swimlane: Swimlane,
}

pub struct DocumentModel {
    pub width: i128,
    pub height: i128,
    pub cards: Seq<CardModel>,
    pub arrows: Seq<ArrowModel>,
    pub swimlane: Swimlane,
}

impl View for SvgDocument {
    type V = DocumentModel;

    open spec fn view(&self) -> DocumentModel {
        DocumentModel {
            width: self.width,
            height: self.height,
            cards: cards_view(self.cards@),
            arrows: arrows_view(self.arrows@),
            swimlane: self.swimlane,
        }
    }
}

/// The top of a card's row, in units: forms and jobs on top, commands and
/// views in the middle, events at the bottom.
pub open spec fn row_y(t: CardType, cfg: SvgConfig) -> int {
    match t {
        CardType::Form | CardType::Job => cfg.pad as int,
        CardType::Command | CardType::View => cfg.card_height + 3 * cfg.pad,
        CardType::Event => 3 * cfg.card_height + 5 * cfg.pad,
    }
}

/// The left of the `i`-th card, in units: one column per card, in order.
pub open spec fn column_x(i: int, cfg: SvgConfig) -> int {
    cfg.pad + i * (cfg.card_width + cfg.pad)
}

pub open spec fn canvas_width(n: int, cfg: SvgConfig) -> int {
    2 * cfg.pad + (cfg.pad + cfg.card_width) * n
}

pub open spec fn canvas_height(cfg: SvgConfig) -> int {
    3 * cfg.card_height + 6 * cfg.pad
}

pub open spec fn swimlane_top(cfg: SvgConfig) -> int {
    cfg.card_height + 2 * cfg.pad
}

pub open spec fn swimlane_bottom(cfg: SvgConfig) -> int {
    2 * cfg.card_height + 4 * cfg.pad
}

/// The `i`-th card in its place: row by type, column by position, the text
/// block a twelfth of the padding inside. Ticks are twelfths of units.
pub open spec fn placed(c: CardModel, i: int, cfg: SvgConfig) -> CardModel {
    let x = 12 * column_x(i, cfg);
    let y = 12 * row_y(c.card_type, cfg);
    CardModel {
        origin: Point { x: x as i128, y: y as i128 },
        width: (12 * cfg.card_width) as i128,
        height: (12 * cfg.card_height) as i128,
        text_translate: TextTranslate { x: (x + cfg.pad) as i128, y: (y + cfg.pad) as i128 },
        ..c
    }
}

/// What is wrong with an arrow, against the cards it must be found among.
pub open spec fn arrow_error(cards: Seq<CardModel>, a: ArrowModel) -> Option<ErrorModel> {
    match find_card(cards, a.begin.id) {
        None => Some(ErrorModel::UnresolvedReference(a.begin.id)),
        Some(i) => match find_card(cards, a.end.id) {
            None => Some(ErrorModel::UnresolvedReference(a.end.id)),
            Some(j) => if legal(cards[i].card_type, cards[j].card_type) {
                None
            } else {
                Some(ErrorModel::IllegalArrow(a.begin.id, a.end.id))
            },
        },
    }
}

/// The error of the first arrow that has one.
pub open spec fn layout_error(cards: Seq<CardModel>, arrows: Seq<ArrowModel>) -> Option<ErrorModel>
    decreases arrows.len(),
{
    if arrows.len() == 0 {
        None
    } else {
        match layout_error(cards, arrows.drop_last()) {
            Some(e) => Some(e),
            None => arrow_error(cards, arrows.last()),
        }
    }
}

/// The arrow again, its cards taken by id from `placed_cards` at the indices
/// where `cards` has them.
pub open spec fn relinked(cards: Seq<CardModel>, placed_cards: Seq<CardModel>, a: ArrowModel) -> ArrowModel {
    ArrowModel {
        begin: placed_cards[find_card(cards, a.begin.id)->0],
        end: placed_cards[find_card(cards, a.end.id)->0],
    }
}

/// The document once laid out.
pub open spec fn laid_out(d: DocumentModel, cfg: SvgConfig) -> DocumentModel {
    let cards = Seq::new(d.cards.len(), |i: int| placed(d.cards[i], i, cfg));
    let width = 12 * canvas_width(d.cards.len() as int, cfg);
    DocumentModel {
        width: width as i128,
        height: (12 * canvas_height(cfg)) as i128,
        cards,
        arrows: Seq::new(d.arrows.len(), |k: int| relinked(d.cards, cards, d.arrows[k])),
        swimlane: Swimlane {
            top: (12 * swimlane_top(cfg)) as i128,
            bottom: (12 * swimlane_bottom(cfg)) as i128,
            width: width as i128,
        },
    }
}

/// A document that can be drawn: its geometry in range, its arrows legal.
pub open spec fn renderable(d: DocumentModel) -> bool {
    &&& forall|i: int| 0 <= i < d.cards.len() ==> card_fits(#[trigger] d.cards[i])
    &&& forall|k: int| 0 <= k < d.arrows.len() ==> arrow_fits(#[trigger] d.arrows[k])
}

/// The root element and the arrowhead marker.
pub open spec fn svg_open(width: i128, height: i128) -> Seq<char> {
    "<svg xmlns='http://www.w3.org/2000/svg' width='"@ + ticks_text(width as int) + "' height='"@
        + ticks_text(height as int) + "'>"@
        + "<defs><marker id='triangle' viewBox='0 0 10 10' refX='0' refY='5' markerUnits='strokeWidth' markerWidth='10' markerHeight='8' orient='auto'><path d='M 0 0 L 10 5 L 0 10 z' /></marker></defs>"@
}

/// A horizontal guide line across the swimlane's width.
pub open spec fn guide_svg(name: Seq<char>, y: i128, width: i128) -> Seq<char> {
    "<line id='"@ + name + "' x1='0' y1='"@ + ticks_text(y as int) + "' x2='"@ + ticks_text(
        width as int,
    ) + "' y2='"@ + ticks_text(y as int) + "' />"@
}

pub open spec fn swimlane_svg(l: Swimlane) -> Seq<char> {
    "<g id='swimlane' stroke='black' stroke-width='3' >"@ + guide_svg("swimlane_top"@, l.top, l.width)
        + guide_svg("swimlane_bottom"@, l.bottom, l.width) + "</g>"@
}

pub open spec fn arrows_svg(arrows: Seq<ArrowModel>) -> Seq<char>
    decreases arrows.len(),
{
    if arrows.len() == 0 {
        seq![]
    } else {
        arrows_svg(arrows.drop_last()) + arrow_svg(arrows.last())
    }
}

pub open spec fn cards_svg(cards: Seq<CardModel>) -> Seq<char>
    decreases cards.len(),
{
    if cards.len() == 0 {
        seq![]
    } else {
        cards_svg(cards.drop_last()) + card_svg(cards.last())
    }
}

/// The whole drawing: the canvas, the swimlane, every arrow in order, then
/// every card in order.
pub open spec fn document_svg(d: DocumentModel) -> Seq<char> {
    svg_open(d.width, d.height) + swimlane_svg(d.swimlane) + arrows_svg(d.arrows) + cards_svg(d.cards)
        + "</svg>"@
}

/// Rendering is pure: two documents of equal value render to the same text,
/// so rendering one document twice gives the same bytes.
pub proof fn render_is_deterministic(a: DocumentModel, b: DocumentModel)
    requires
        a == b,
    ensures
        document_svg(a) == document_svg(b),
{
}

/// An error found in a prefix of the arrows is the error of all of them.
pub proof fn lemma_layout_error_prefix(cards: Seq<CardModel>, arrows: Seq<ArrowModel>, k: int)
    requires
        0 <= k <= arrows.len(),
        layout_error(cards, arrows.take(k)) is Some,
    ensures
        layout_error(cards, arrows) == layout_error(cards, arrows.take(k)),
    decreases arrows.len(),
{
    if k < arrows.len() {
        assert(arrows.drop_last().take(k) =~= arrows.take(k));
        lemma_layout_error_prefix(cards, arrows.drop_last(), k);
    } else {
        assert(arrows.take(k) =~= arrows);
    }
}


/// Where the layout puts a card, and that its geometry is in range.
pub proof fn lemma_placed(c: CardModel, i: int, cfg: SvgConfig)
    requires
        0 <= i <= 0x1_0000_0000_0000_0000,
    ensures
        placed(c, i, cfg).origin.x == 12 * column_x(i, cfg),
        placed(c, i, cfg).origin.y == 12 * row_y(c.card_type, cfg),
        placed(c, i, cfg).card_type == c.card_type,
        placed(c, i, cfg).id == c.id,
        card_fits(placed(c, i, cfg)),
{
    assert(0 <= i * (cfg.card_width + cfg.pad) <= 0x1_0000_0000_0000_0000 * 0x2_0000_0000)
        by (nonlinear_arith)
        requires
            0 <= i <= 0x1_0000_0000_0000_0000,
            0 <= cfg.card_width + cfg.pad <= 0x2_0000_0000,
    ;
}

/// Columns advance with the position of the card, when a column has width.
pub proof fn lemma_columns_increase(cfg: SvgConfig, i: int, j: int)
    requires
        0 <= i < j,
        cfg.card_width + cfg.pad > 0,
    ensures
        column_x(i, cfg) < column_x(j, cfg),
{
    assert(i * (cfg.card_width + cfg.pad) < j * (cfg.card_width + cfg.pad)) by (nonlinear_arith)
        requires
            0 <= i < j,
            cfg.card_width + cfg.pad > 0,
    ;
}

/// With no layout error, every arrow finds both its cards, and they form a
/// legal pair.
pub proof fn lemma_no_layout_error(cards: Seq<CardModel>, arrows: Seq<ArrowModel>, k: int)
    requires
        layout_error(cards, arrows) is None,
        0 <= k < arrows.len(),
    ensures
        arrow_error(cards, arrows[k]) is None,
    decreases arrows.len(),
{
    if k < arrows.len() - 1 {
        assert(arrows.drop_last()[k] == arrows[k]);
        lemma_no_layout_error(cards, arrows.drop_last(), k);
    }
}

/// For each arrow, the indices of its two cards; or the first error.
fn resolve_arrows(cards: &Vec<Card>, arrows: &Vec<Arrow>) -> (r: Result<Vec<(usize, usize)>, EmlError>)
    ensures
        match layout_error(cards_view(cards@), arrows_view(arrows@)) {
            Some(e) => r is Err && (r->Err_0)@ == e,
            None => r is Ok && (r->Ok_0).len() == arrows.len() && forall|k: int|
                0 <= k < arrows.len() ==> {
                    &&& find_card(cards_view(cards@), arrows@[k].begin_at.id@) == Some(
                        (#[trigger] (r->Ok_0)@[k]).0 as int,
                    )
                    &&& find_card(cards_view(cards@), arrows@[k].end_at.id@) == Some(
                        (r->Ok_0)@[k].1 as int,
                    )
                },
        },
{
    let ghost cv = cards_view(cards@);
    let ghost av = arrows_view(arrows@);
    let mut idx: Vec<(usize, usize)> = Vec::new();
    for k in 0..arrows.len()
        invariant
            cv == cards_view(cards@),
            av == arrows_view(arrows@),
            idx.len() == k,
            k <= arrows.len(),
            layout_error(cv, av.take(k as int)) is None,
            forall|m: int|
                0 <= m < k ==> {
                    &&& find_card(cv, arrows@[m].begin_at.id@) == Some((#[trigger] idx@[m]).0 as int)
                    &&& find_card(cv, arrows@[m].end_at.id@) == Some(idx@[m].1 as int)
                },
    {
        assert(av.take(k + 1).drop_last() =~= av.take(k as int));
        let a = &arrows[k];
        let i = match card_index(cards, &a.begin_at.id) {
            Some(i) => i,
            None => {
                proof {
                    lemma_layout_error_prefix(cv, av, k + 1);
                }
                return Err(EmlError::UnresolvedReference(a.begin_at.id.clone()));
            },
        };
        let j = match card_index(cards, &a.end_at.id) {
            Some(j) => j,
            None => {
                proof {
                    lemma_layout_error_prefix(cv, av, k + 1);
                }
                return Err(EmlError::UnresolvedReference(a.end_at.id.clone()));
            },
        };
        proof {
            crate::card::lemma_find_card(cv, a.begin_at.id@);
            crate::card::lemma_find_card(cv, a.end_at.id@);
        }
        if !is_legal(cards[i].card_type, cards[j].card_type) {
            proof {
                lemma_layout_error_prefix(cv, av, k + 1);
            }
            return Err(EmlError::IllegalArrow(a.begin_at.id.clone(), a.end_at.id.clone()));
        }
        idx.push((i, j));
    }
    assert(av.take(arrows.len() as int) =~= av);
    Ok(idx)
}

/// The cards in their places.
fn place_cards(cards: &Vec<Card>, cfg: &SvgConfig) -> (r: Vec<Card>)
    ensures
        cards_view(r@) == Seq::new(cards.len() as nat, |i: int| placed(cards@[i]@, i, *cfg)),
{
    let pad = cfg.pad as i128;
    let w = cfg.card_width as i128;
    let h = cfg.card_height as i128;
    let mut out: Vec<Card> = Vec::new();
    let mut x: i128 = 12 * pad;
    let n = cards.len();
    for i in 0..n
        invariant
            n == cards.len(),
            pad == cfg.pad,
            w == cfg.card_width,
            h == cfg.card_height,
            out.len() == i,
            i <= n,
            x == 12 * column_x(i as int, *cfg),
            forall|m: int| 0 <= m < i ==> (#[trigger] out@[m])@ == placed(cards@[m]@, m, *cfg),
    {
        assert(0 <= ((i + 1) as int) * (w + pad) <= 0x1_0000_0000_0000_0000 * 0x2_0000_0000)
            by (nonlinear_arith)
            requires
                0 <= i + 1 <= 0x1_0000_0000_0000_0000,
                0 <= w + pad <= 0x2_0000_0000,
        ;
        assert(0 <= (i as int) * (w + pad) <= 0x1_0000_0000_0000_0000 * 0x2_0000_0000)
            by (nonlinear_arith)
            requires
                0 <= i < 0x1_0000_0000_0000_0000,
                0 <= w + pad <= 0x2_0000_0000,
        ;
        let c = &cards[i];
        let y: i128 = match c.card_type {
            CardType::Form | CardType::Job => 12 * pad,
            CardType::Command | CardType::View => 12 * (h + 3 * pad),
            CardType::Event => 12 * (3 * h + 5 * pad),
        };
        let mut placed_card = c.duplicate();
        placed_card.set_origin(x, y);
        placed_card.set_dimensions(12 * w, 12 * h, 12 * pad);
        assert((12 * pad) / 12 == pad);
        out.push(placed_card);
        assert(((i + 1) as int) * (w + pad) == (i as int) * (w + pad) + (w + pad)) by (nonlinear_arith);
        x = x + 12 * (w + pad);
    }
    assert(cards_view(out@) =~= Seq::new(cards.len() as nat, |i: int| placed(cards@[i]@, i, *cfg)));
    out
}

fn svg_open_into(out: &mut String, width: i128, height: i128)
    ensures
        final(out)@ == old(out)@ + svg_open(width, height),
{
    let ghost start = out@;
    out.append("<svg xmlns='http://www.w3.org/2000/svg' width='");
    push_ticks(out, width);
    out.append("' height='");
    push_ticks(out, height);
    out.append("'>");
    out.append(
        "<defs><marker id='triangle' viewBox='0 0 10 10' refX='0' refY='5' markerUnits='strokeWidth' markerWidth='10' markerHeight='8' orient='auto'><path d='M 0 0 L 10 5 L 0 10 z' /></marker></defs>",
    );
    assert(out@ =~= start + svg_open(width, height));
}

fn guide_into(out: &mut String, name: &str, y: i128, width: i128)
    ensures
        final(out)@ == old(out)@ + guide_svg(name@, y, width),
{
    let ghost start = out@;
    out.append("<line id='");
    out.append(name);
    out.append("' x1='0' y1='");
    push_ticks(out, y);
    out.append("' x2='");
    push_ticks(out, width);
    out.append("' y2='");
    push_ticks(out, y);
    out.append("' />");
    assert(out@ =~= start + guide_svg(name@, y, width));
}

fn swimlane_into(out: &mut String, l: Swimlane)
    ensures
        final(out)@ == old(out)@ + swimlane_svg(l),
{
    let ghost start = out@;
    out.append("<g id='swimlane' stroke='black' stroke-width='3' >");
    guide_into(out, "swimlane_top", l.top, l.width);
    guide_into(out, "swimlane_bottom", l.bottom, l.width);
    out.append("</g>");
    assert(out@ =~= start + swimlane_svg(l));
}

fn arrows_into(out: &mut String, arrows: &Vec<Arrow>)
    requires
        forall|k: int| 0 <= k < arrows.len() ==> arrow_fits(#[trigger] arrows@[k]@),
    ensures
        final(out)@ == old(out)@ + arrows_svg(arrows_view(arrows@)),
{
    let ghost head = out@;
    let ghost av = arrows_view(arrows@);
    for k in 0..arrows.len()
        invariant
            av == arrows_view(arrows@),
            forall|m: int| 0 <= m < arrows.len() ==> arrow_fits(#[trigger] arrows@[m]@),
            out@ == head + arrows_svg(av.take(k as int)),
    {
        assert(av.take(k + 1).drop_last() =~= av.take(k as int));
        arrows[k].render_into(out);
    }
    assert(av.take(arrows.len() as int) =~= av);
}

fn cards_into(out: &mut String, cards: &Vec<Card>)
    ensures
        final(out)@ == old(out)@ + cards_svg(cards_view(cards@)),
{
    let ghost mid = out@;
    let ghost cv = cards_view(cards@);
    for i in 0..cards.len()
        invariant
            cv == cards_view(cards@),
            out@ == mid + cards_svg(cv.take(i as int)),
    {
        assert(cv.take(i + 1).drop_last() =~= cv.take(i as int));
        cards[i].render_into(out);
    }
    assert(cv.take(cards.len() as int) =~= cv);
}

impl SvgDocument {
    /// The document as SVG. Rendering is a function of the document's value
    /// alone.
    pub fn render(self) -> (r: String)
        requires
            renderable(self@),
        ensures
            r@ == document_svg(self@),
    {
        let ghost d = self@;
        let mut out = String::new();
        svg_open_into(&mut out, self.width, self.height);
        swimlane_into(&mut out, self.swimlane);
        proof {
            assert forall|k: int| 0 <= k < self.arrows.len() implies arrow_fits(
                #[trigger] self.arrows@[k]@,
            ) by {
                assert(d.arrows[k] == self.arrows@[k]@);
            }
        }
        let ghost after_head = out@;
        arrows_into(&mut out, &self.arrows);
        let ghost after_arrows = out@;
        cards_into(&mut out, &self.cards);
        let ghost after_cards = out@;
        out.append("</svg>");
        assert(after_head == svg_open(d.width, d.height) + swimlane_svg(d.swimlane));
        assert(after_arrows == after_head + arrows_svg(d.arrows));
        assert(after_cards == after_arrows + cards_svg(d.cards));
        assert(out@ =~= document_svg(d));
        out
    }

    /// A document with no cards and no arrows.
    pub fn new() -> (r: SvgDocument)
        ensures
            r@ == (DocumentModel {
                width: 0,
                height: 0,
                cards: Seq::empty(),
                arrows: Seq::empty(),
                swimlane: Swimlane { top: 0, bottom: 0, width: 0 },
            }),
    {
        let r = SvgDocument {
            width: 0,
            height: 0,
            cards: Vec::new(),
            arrows: Vec::new(),
            swimlane: Swimlane::new(),
        };
        assert(r@.cards =~= Seq::<CardModel>::empty());
        assert(r@.arrows =~= Seq::<ArrowModel>::empty());
        r
    }

    /// Lays the document out: each card in the row of its type and the
    /// column of its position, the canvas and the swimlane sized to hold
    /// them, and each arrow's cards taken again, by id, from the placed
    /// cards. Fails, leaving the document as it was, at the first arrow whose
    /// cards are missing or form an illegal pair.
    pub fn set_dimensions(&mut self, config: &SvgConfig) -> (r: Result<(), EmlError>)
        ensures
            match layout_error(old(self)@.cards, old(self)@.arrows) {
                Some(e) => r is Err && (r->Err_0)@ == e && final(self)@ == old(self)@,
                None => r is Ok && final(self)@ == laid_out(old(self)@, *config),
            },
            r is Ok ==> forall|i: int|
                0 <= i < final(self)@.cards.len() ==> (#[trigger] final(self)@.cards[i]).origin.y == 12
                    * row_y(final(self)@.cards[i].card_type, *config),
            r is Ok && config.card_width + config.pad > 0 ==> forall|i: int, j: int|
                0 <= i < j < final(self)@.cards.len() ==> (#[trigger] final(self)@.cards[i]).origin.x
                    < (#[trigger] final(self)@.cards[j]).origin.x,
            r is Ok ==> forall|k: int|
                0 <= k < final(self)@.arrows.len() ==> legal(
                    (#[trigger] final(self)@.arrows[k]).begin.card_type,
                    final(self)@.arrows[k].end.card_type,
                ),
            r is Ok ==> renderable(final(self)@),
    {
        let idx = match resolve_arrows(&self.cards, &self.arrows) {
            Ok(v) => v,
            Err(e) => return Err(e),
        };
        let ghost old_cards = cards_view(self.cards@);
        let ghost old_arrows = arrows_view(self.arrows@);
        let cards = place_cards(&self.cards, config);
        let ghost pc = cards_view(cards@);
        proof {
            assert forall|i: int| 0 <= i < pc.len() implies pc[i] == placed(old_cards[i], i, *config)
                && card_fits(#[trigger] pc[i]) by {
                lemma_placed(old_cards[i], i, *config);
            }
        }
        let mut arrows: Vec<Arrow> = Vec::new();
        for k in 0..idx.len()
            invariant
                idx.len() == old_arrows.len(),
                pc == cards_view(cards@),
                pc.len() == old_cards.len(),
                arrows.len() == k,
                forall|m: int|
                    0 <= m < idx.len() ==> {
                        &&& find_card(old_cards, old_arrows[m].begin.id) == Some(
                            (#[trigger] idx@[m]).0 as int,
                        )
                        &&& find_card(old_cards, old_arrows[m].end.id) == Some(idx@[m].1 as int)
                    },
                forall|m: int|
                    0 <= m < k ==> (#[trigger] arrows@[m])@ == relinked(old_cards, pc, old_arrows[m]),
        {
            let (i, j) = idx[k];
            proof {
                crate::card::lemma_find_card(old_cards, old_arrows[k as int].begin.id);
                crate::card::lemma_find_card(old_cards, old_arrows[k as int].end.id);
            }
            arrows.push(Arrow { begin_at: cards[i].duplicate(), end_at: cards[j].duplicate() });
        }
        let pad = config.pad as i128;
        let w = config.card_width as i128;
        let h = config.card_height as i128;
        let n = self.cards.len() as i128;
        assert(0 <= n * (pad + w) <= 0x1_0000_0000_0000_0000 * 0x2_0000_0000) by (nonlinear_arith)
            requires
                0 <= n <= 0x1_0000_0000_0000_0000,
                0 <= pad + w <= 0x2_0000_0000,
        ;
        let width = 12 * (2 * pad + n * (pad + w));
        self.width = width;
        self.height = 12 * (3 * h + 6 * pad);
        self.swimlane = Swimlane { top: 12 * (h + 2 * pad), bottom: 12 * (2 * h + 4 * pad), width };
        self.cards = cards;
        self.arrows = arrows;
        proof {
            let lo = laid_out(DocumentModel {
                width: old(self).width,
                height: old(self).height,
                cards: old_cards,
                arrows: old_arrows,
                swimlane: old(self).swimlane,
            }, *config);
            assert(pc =~= lo.cards);
            assert(arrows_view(self.arrows@) =~= lo.arrows);
            assert forall|k: int| 0 <= k < old_arrows.len() implies arrow_fits(
                #[trigger] arrows_view(self.arrows@)[k],
            ) by {
                lemma_no_layout_error(old_cards, old_arrows, k);
                crate::card::lemma_find_card(old_cards, old_arrows[k].begin.id);
                crate::card::lemma_find_card(old_cards, old_arrows[k].end.id);
            }
            assert forall|i: int, j: int| 0 <= i < j < pc.len() && config.card_width + config.pad > 0
                implies (#[trigger] pc[i]).origin.x < (#[trigger] pc[j]).origin.x by {
                lemma_columns_increase(*config, i, j);
                lemma_placed(old_cards[i], i, *config);
                lemma_placed(old_cards[j], j, *config);
            }
        }
        Ok(())
    }

    /// Appends `cards`, in order.
    pub fn add_cards(&mut self, cards: Vec<Card>)
        ensures
            final(self)@ == (DocumentModel {
                cards: old(self)@.cards + cards_view(cards@),
                ..old(self)@
            }),
    {
        let ghost cards_in = cards;
        let mut cards = cards;
        self.cards.append(&mut cards);
        assert(cards_view(self.cards@) =~= cards_view(old(self).cards@) + cards_view(cards_in@));
    }

    /// Appends `arrows`, in order.
    pub fn add_arrows(&mut self, arrows: Vec<Arrow>)
        ensures
            final(self)@ == (DocumentModel {
                arrows: old(self)@.arrows + arrows_view(arrows@),
                ..old(self)@
            }),
    {
        let ghost arrows_in = arrows;
        let mut arrows = arrows;
        self.arrows.append(&mut arrows);
        assert(arrows_view(self.arrows@) =~= arrows_view(old(self).arrows@) + arrows_view(
            arrows_in@,
        ));
    }
}

} // verus!
