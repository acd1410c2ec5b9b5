//! Ingestion: expressions, in source order, become cards and arrows.

use vstd::prelude::*;
use vstd::string::StringExecFns;
use crate::arrow::{arrows_view, legal, Arrow, ArrowModel};
use crate::card::{card_index, cards_view, find_card, fresh_card, Card, CardModel, CardType};
use crate::document::SvgDocument;
use crate::error::{EmlError, ErrorModel};
use crate::eventmodel::{
    fields_view, ids_view, strings_view, Body, BodyModel, Expression, ExpressionId,
    ExpressionModel, Field, FieldModel,
};

verus! {

/// The text line of a field: `name: value`.
pub open spec fn field_line(f: FieldModel) -> Seq<char> {
    f.0 + seq![':', ' '] + f.1
}

pub open spec fn field_lines(fs: Seq<FieldModel>) -> Seq<Seq<char>> {
    fs.map_values(|f: FieldModel| field_line(f))
}

/// The card of a form, job, command or event: its body must be fields.
pub open spec fn fields_card(t: CardType, id: Seq<char>, b: BodyModel) -> Result<CardModel, ErrorModel> {
    match b {
        BodyModel::Fields(fs) => Ok(fresh_card(id, t, field_lines(fs))),
        _ => Err(ErrorModel::InvalidBody(id)),
    }
}

/// The arrow between the first cards with ids `from` and `to`.
pub open spec fn arrow_between(cards: Seq<CardModel>, from: Seq<char>, to: Seq<char>) -> Result<
    ArrowModel,
    ErrorModel,
> {
    match find_card(cards, from) {
        None => Err(ErrorModel::UnresolvedReference(from)),
        Some(i) => match find_card(cards, to) {
            None => Err(ErrorModel::UnresolvedReference(to)),
            Some(j) => if legal(cards[i].card_type, cards[j].card_type) {
                Ok(ArrowModel { begin: cards[i], end: cards[j] })
            } else {
                Err(ErrorModel::IllegalArrow(cards[i].id, cards[j].id))
            },
        },
    }
}

/// One arrow for each two neighbours of a flow, in order.
pub open spec fn flow_arrows(cards: Seq<CardModel>, ids: Seq<Seq<char>>) -> Result<
    Seq<ArrowModel>,
    ErrorModel,
>
    decreases ids.len(),
{
    if ids.len() < 2 {
        Ok(seq![])
    } else {
        match flow_arrows(cards, ids.drop_last()) {
            Err(e) => Err(e),
            Ok(prev) => match arrow_between(cards, ids[ids.len() - 2], ids.last()) {
                Err(e) => Err(e),
                Ok(a) => Ok(prev.push(a)),
            },
        }
    }
}

pub open spec fn push_card(
    cards: Seq<CardModel>,
    arrows: Seq<ArrowModel>,
    c: Result<CardModel, ErrorModel>,
) -> Result<(Seq<CardModel>, Seq<ArrowModel>), ErrorModel> {
    match c {
        Ok(c) => Ok((cards.push(c), arrows)),
        Err(e) => Err(e),
    }
}

/// What one expression adds: a card, or a view's copy of an earlier card,
/// or a flow's arrows.
pub open spec fn ingest_step(cards: Seq<CardModel>, arrows: Seq<ArrowModel>, e: ExpressionModel) -> Result<
    (Seq<CardModel>, Seq<ArrowModel>),
    ErrorModel,
> {
    match e {
        ExpressionModel::Form(id, b) => push_card(cards, arrows, fields_card(CardType::Form, id, b)),
        ExpressionModel::Job(id, b) => push_card(cards, arrows, fields_card(CardType::Job, id, b)),
        ExpressionModel::Command(id, b) => push_card(
            cards,
            arrows,
            fields_card(CardType::Command, id, b),
        ),
        ExpressionModel::Event(id, b) => push_card(cards, arrows, fields_card(CardType::Event, id, b)),
        ExpressionModel::View(id, b) => match b {
            BodyModel::Table(t) => Ok((cards.push(fresh_card(id, CardType::View, t)), arrows)),
            BodyModel::Fields(fs) => Ok(
                (cards.push(fresh_card(id, CardType::View, field_lines(fs))), arrows),
            ),
            BodyModel::Use(r) => match find_card(cards, r) {
                Some(i) => Ok((cards.push(cards[i]), arrows)),
                None => Err(ErrorModel::UnresolvedReference(r)),
            },
        },
        ExpressionModel::Flow(_, ids) => match flow_arrows(cards, ids) {
            Ok(new) => Ok((cards, arrows + new)),
            Err(e) => Err(e),
        },
    }
}

/// The expressions in order, each against the cards of those before it.
pub open spec fn ingest_all(
    cards: Seq<CardModel>,
    arrows: Seq<ArrowModel>,
    es: Seq<ExpressionModel>,
) -> Result<(Seq<CardModel>, Seq<ArrowModel>), ErrorModel>
    decreases es.len(),
{
    if es.len() == 0 {
        Ok((cards, arrows))
    } else {
        match ingest_all(cards, arrows, es.drop_last()) {
            Err(e) => Err(e),
            Ok((c, a)) => ingest_step(c, a, es.last()),
        }
    }
}

pub proof fn lemma_flow_error_prefix(cards: Seq<CardModel>, ids: Seq<Seq<char>>, k: int)
    requires
        0 <= k <= ids.len(),
        flow_arrows(cards, ids.take(k)) is Err,
    ensures
        flow_arrows(cards, ids) == flow_arrows(cards, ids.take(k)),
    decreases ids.len(),
{
    if k < ids.len() {
        assert(ids.drop_last().take(k) =~= ids.take(k));
        lemma_flow_error_prefix(cards, ids.drop_last(), k);
    } else {
        assert(ids.take(k) =~= ids);
    }
}

pub proof fn lemma_ingest_error_prefix(
    cards: Seq<CardModel>,
    arrows: Seq<ArrowModel>,
    es: Seq<ExpressionModel>,
    k: int,
)
    requires
        0 <= k <= es.len(),
        ingest_all(cards, arrows, es.take(k)) is Err,
    ensures
        ingest_all(cards, arrows, es) == ingest_all(cards, arrows, es.take(k)),
    decreases es.len(),
{
    if k < es.len() {
        assert(es.drop_last().take(k) =~= es.take(k));
        lemma_ingest_error_prefix(cards, arrows, es.drop_last(), k);
    } else {
        assert(es.take(k) =~= es);
    }
}

/// Every arrow that a flow makes joins a legal pair.
pub proof fn lemma_flow_arrows_legal(cards: Seq<CardModel>, ids: Seq<Seq<char>>)
    ensures
        flow_arrows(cards, ids) matches Ok(v) ==> forall|k: int|
            0 <= k < v.len() ==> legal((#[trigger] v[k]).begin.card_type, v[k].end.card_type),
    decreases ids.len(),
{
    if ids.len() >= 2 {
        lemma_flow_arrows_legal(cards, ids.drop_last());
    }
}

/// Ingestion adds only arrows between legal pairs: if every arrow was legal
/// before, every arrow is legal after.
pub proof fn ingested_arrows_are_legal(
    cards: Seq<CardModel>,
    arrows: Seq<ArrowModel>,
    es: Seq<ExpressionModel>,
)
    requires
        forall|k: int|
            0 <= k < arrows.len() ==> legal((#[trigger] arrows[k]).begin.card_type, arrows[k].end.card_type),
    ensures
        ingest_all(cards, arrows, es) matches Ok((_, a)) ==> forall|k: int|
            0 <= k < a.len() ==> legal((#[trigger] a[k]).begin.card_type, a[k].end.card_type),
    decreases es.len(),
{
    if es.len() > 0 {
        ingested_arrows_are_legal(cards, arrows, es.drop_last());
        if let Ok((c, a)) = ingest_all(cards, arrows, es.drop_last()) {
            if let ExpressionModel::Flow(_, ids) = es.last() {
                lemma_flow_arrows_legal(c, ids);
                if let Ok(new) = flow_arrows(c, ids) {
                    assert forall|k: int| 0 <= k < (a + new).len() implies legal(
                        (#[trigger] (a + new)[k]).begin.card_type,
                        (a + new)[k].end.card_type,
                    ) by {
                        if k >= a.len() {
                            assert((a + new)[k] == new[k - a.len()]);
                        }
                    }
                }
            }
        }
    }
}

/// A view that uses an id no card has fails with an unresolved reference;
/// it never yields a placeholder card.
pub proof fn unresolved_use_fails(
    cards: Seq<CardModel>,
    arrows: Seq<ArrowModel>,
    id: Seq<char>,
    used: Seq<char>,
)
    requires
        forall|k: int| 0 <= k < cards.len() ==> (#[trigger] cards[k]).id != used,
    ensures
        ingest_step(cards, arrows, ExpressionModel::View(id, BodyModel::Use(used))) == Err::<
            (Seq<CardModel>, Seq<ArrowModel>),
            ErrorModel,
        >(ErrorModel::UnresolvedReference(used)),
{
    crate::card::lemma_find_card(cards, used);
}

/// A flow that names an id no card has fails: no arrow is drawn to or from
/// a card that does not exist.
pub proof fn unresolved_flow_fails(cards: Seq<CardModel>, ids: Seq<Seq<char>>, k: int)
    requires
        ids.len() >= 2,
        0 <= k < ids.len(),
        forall|m: int| 0 <= m < cards.len() ==> (#[trigger] cards[m]).id != ids[k],
    ensures
        flow_arrows(cards, ids) is Err,
    decreases ids.len(),
{
    crate::card::lemma_find_card(cards, ids[k]);
    if k < ids.len() - 1 && ids.len() > 2 {
        assert(ids.drop_last()[k] == ids[k]);
        unresolved_flow_fails(cards, ids.drop_last(), k);
    }
}

/// When the first undeclared id of a flow follows only declared ids joined
/// by legal pairs, the flow fails with an unresolved reference to it.
pub proof fn unresolved_flow_names_the_id(cards: Seq<CardModel>, ids: Seq<Seq<char>>, k: int)
    requires
        1 <= k < ids.len(),
        forall|m: int| 0 <= m < cards.len() ==> (#[trigger] cards[m]).id != ids[k],
        flow_arrows(cards, ids.take(k)) is Ok,
        find_card(cards, ids[k - 1]) is Some,
    ensures
        flow_arrows(cards, ids) == Err::<Seq<ArrowModel>, ErrorModel>(
            ErrorModel::UnresolvedReference(ids[k]),
        ),
{
    crate::card::lemma_find_card(cards, ids[k]);
    let pre = ids.take(k + 1);
    assert(pre.drop_last() =~= ids.take(k));
    assert(pre[pre.len() - 2] == ids[k - 1]);
    assert(flow_arrows(cards, pre) is Err);
    lemma_flow_error_prefix(cards, ids, k + 1);
}

/// Every arrow finds, by its ids, cards of its own types, and they form a
/// legal pair.
pub open spec fn arrows_resolve(cards: Seq<CardModel>, arrows: Seq<ArrowModel>) -> bool {
    forall|k: int|
        0 <= k < arrows.len() ==> {
            &&& find_card(cards, (#[trigger] arrows[k]).begin.id) is Some
            &&& find_card(cards, arrows[k].end.id) is Some
            &&& cards[find_card(cards, arrows[k].begin.id)->0].card_type == arrows[k].begin.card_type
            &&& cards[find_card(cards, arrows[k].end.id)->0].card_type == arrows[k].end.card_type
            &&& legal(arrows[k].begin.card_type, arrows[k].end.card_type)
        }
}

proof fn lemma_resolve_push(cards: Seq<CardModel>, arrows: Seq<ArrowModel>, c: CardModel)
    requires
        arrows_resolve(cards, arrows),
    ensures
        arrows_resolve(cards.push(c), arrows),
{
    let cs = cards.push(c);
    assert forall|k: int| 0 <= k < arrows.len() implies {
        &&& find_card(cs, (#[trigger] arrows[k]).begin.id) is Some
        &&& find_card(cs, arrows[k].end.id) is Some
        &&& cs[find_card(cs, arrows[k].begin.id)->0].card_type == arrows[k].begin.card_type
        &&& cs[find_card(cs, arrows[k].end.id)->0].card_type == arrows[k].end.card_type
    } by {
        crate::card::lemma_find_card_push(cards, c, arrows[k].begin.id);
        crate::card::lemma_find_card_push(cards, c, arrows[k].end.id);
        crate::card::lemma_find_card(cards, arrows[k].begin.id);
        crate::card::lemma_find_card(cards, arrows[k].end.id);
        assert(cs[find_card(cards, arrows[k].begin.id)->0] == cards[find_card(cards, arrows[k].begin.id)->0]);
        assert(cs[find_card(cards, arrows[k].end.id)->0] == cards[find_card(cards, arrows[k].end.id)->0]);
    }
}

proof fn lemma_flow_resolves(cards: Seq<CardModel>, ids: Seq<Seq<char>>)
    ensures
        flow_arrows(cards, ids) matches Ok(v) ==> arrows_resolve(cards, v),
    decreases ids.len(),
{
    if ids.len() >= 2 {
        lemma_flow_resolves(cards, ids.drop_last());
        crate::card::lemma_find_card(cards, ids[ids.len() - 2]);
        crate::card::lemma_find_card(cards, ids.last());
    }
}

proof fn lemma_ingest_resolves(cards: Seq<CardModel>, arrows: Seq<ArrowModel>, es: Seq<ExpressionModel>)
    requires
        arrows_resolve(cards, arrows),
    ensures
        ingest_all(cards, arrows, es) matches Ok((c, a)) ==> arrows_resolve(c, a),
    decreases es.len(),
{
    if es.len() > 0 {
        lemma_ingest_resolves(cards, arrows, es.drop_last());
        if let Ok((c, a)) = ingest_all(cards, arrows, es.drop_last()) {
            if let Ok((c2, a2)) = ingest_step(c, a, es.last()) {
                if c2.len() != c.len() {
                    lemma_resolve_push(c, a, c2.last());
                    assert(c2 =~= c.push(c2.last()));
                } else {
                    if let ExpressionModel::Flow(_, ids) = es.last() {
                        lemma_flow_resolves(c, ids);
                        assert forall|k: int| 0 <= k < a2.len() implies find_card(c2, (#[trigger] a2[k]).begin.id) is Some by {
                            if k >= a.len() {
                                assert(a2[k] == flow_arrows(c, ids)->Ok_0[k - a.len()]);
                            }
                        }
                        assert(arrows_resolve(c2, a2));
                    }
                }
            }
        }
    }
}

/// Arrows that resolve give no layout error.
pub proof fn lemma_resolved_lays_out(cards: Seq<CardModel>, arrows: Seq<ArrowModel>)
    requires
        arrows_resolve(cards, arrows),
    ensures
        crate::document::layout_error(cards, arrows) is None,
    decreases arrows.len(),
{
    if arrows.len() > 0 {
        let a = arrows.drop_last();
        assert forall|k: int| 0 <= k < a.len() implies find_card(cards, (#[trigger] a[k]).begin.id) is Some by {
            assert(a[k] == arrows[k]);
        }
        lemma_resolved_lays_out(cards, a);
        assert(arrows.last() == arrows[arrows.len() - 1]);
    }
}

/// What ingestion builds from an empty document always lays out: every
/// arrow finds both its cards, and each pair is legal.
pub proof fn ingested_documents_lay_out(es: Seq<ExpressionModel>)
    ensures
        ingest_all(Seq::empty(), Seq::empty(), es) matches Ok((c, a))
            ==> crate::document::layout_error(c, a) is None,
{
    lemma_ingest_resolves(Seq::empty(), Seq::empty(), es);
    if let Ok((c, a)) = ingest_all(Seq::empty(), Seq::empty(), es) {
        lemma_resolved_lays_out(c, a);
    }
}

/// The lines `name: value` of `fields`.
fn field_lines_of(fields: &Vec<Field>) -> (r: Vec<String>)
    ensures
        strings_view(r@) == field_lines(fields_view(fields@)),
{
    let mut r: Vec<String> = Vec::new();
    for i in 0..fields.len()
        invariant
            r.len() == i,
            i <= fields.len(),
            forall|k: int|
                0 <= k < i ==> (#[trigger] r@[k])@ == field_line(fields@[k]@),
    {
        let mut line = String::new();
        match &fields[i] {
            Field::Text(t) => {
                line.append(t.name.as_str());
                line.append(": ");
                line.append(t.data.as_str());
                proof {
                    reveal_strlit(": ");
                }
                assert(line@ =~= field_line(fields@[i as int]@));
            },
        }
        r.push(line);
    }
    assert(strings_view(r@) =~= field_lines(fields_view(fields@)));
    r
}

fn fields_card_of(card_type: CardType, id: ExpressionId, fields: &Vec<Field>) -> (r: Card)
    ensures
        r@ == fresh_card(id@, card_type, field_lines(fields_view(fields@))),
{
    Card::new(id.0, card_type, field_lines_of(fields))
}

/// The card of a form.
pub fn ingest_form(id: ExpressionId, fields: Vec<Field>) -> (r: Card)
    ensures
        r@ == fresh_card(id@, CardType::Form, field_lines(fields_view(fields@))),
{
    fields_card_of(CardType::Form, id, &fields)
}

/// The card of a job.
pub fn ingest_job(id: ExpressionId, fields: Vec<Field>) -> (r: Card)
    ensures
        r@ == fresh_card(id@, CardType::Job, field_lines(fields_view(fields@))),
{
    fields_card_of(CardType::Job, id, &fields)
}

/// The card of a command.
pub fn ingest_command(id: ExpressionId, fields: Vec<Field>) -> (r: Card)
    ensures
        r@ == fresh_card(id@, CardType::Command, field_lines(fields_view(fields@))),
{
    fields_card_of(CardType::Command, id, &fields)
}

/// The card of an event.
pub fn ingest_event(id: ExpressionId, fields: Vec<Field>) -> (r: Card)
    ensures
        r@ == fresh_card(id@, CardType::Event, field_lines(fields_view(fields@))),
{
    fields_card_of(CardType::Event, id, &fields)
}

/// The card of a view with a table: its lines as they are.
pub fn ingest_view(id: ExpressionId, tbl: Vec<String>) -> (r: Card)
    ensures
        r@ == fresh_card(id@, CardType::View, strings_view(tbl@)),
{
    Card::new(id.0, CardType::View, tbl)
}

fn arrow_between_of(cards: &Vec<Card>, from: &ExpressionId, to: &ExpressionId) -> (r: Result<
    Arrow,
    EmlError,
>)
    ensures
        match arrow_between(cards_view(cards@), from@, to@) {
            Ok(a) => r is Ok && (r->Ok_0)@ == a,
            Err(e) => r is Err && (r->Err_0)@ == e,
        },
{
    let i = match card_index(cards, &from.0) {
        Some(i) => i,
        None => return Err(EmlError::UnresolvedReference(from.0.clone())),
    };
    let j = match card_index(cards, &to.0) {
        Some(j) => j,
        None => return Err(EmlError::UnresolvedReference(to.0.clone())),
    };
    proof {
        crate::card::lemma_find_card(cards_view(cards@), from@);
        crate::card::lemma_find_card(cards_view(cards@), to@);
    }
    Arrow::new(cards[i].duplicate(), cards[j].duplicate())
}

fn flow_arrows_of(cards: &Vec<Card>, ids: &Vec<ExpressionId>) -> (r: Result<Vec<Arrow>, EmlError>)
    ensures
        match flow_arrows(cards_view(cards@), ids_view(ids@)) {
            Ok(v) => r is Ok && arrows_view((r->Ok_0)@) == v,
            Err(e) => r is Err && (r->Err_0)@ == e,
        },
{
    let ghost cv = cards_view(cards@);
    let ghost iv = ids_view(ids@);
    let mut out: Vec<Arrow> = Vec::new();
    if ids.len() < 2 {
        assert(arrows_view(out@) =~= Seq::<ArrowModel>::empty());
        return Ok(out);
    }
    assert(iv.take(1).len() == 1);
    assert(arrows_view(out@) =~= Seq::<ArrowModel>::empty());
    for k in 1..ids.len()
        invariant
            cv == cards_view(cards@),
            iv == ids_view(ids@),
            2 <= ids.len(),
            flow_arrows(cv, iv.take(k as int)) == Ok::<Seq<ArrowModel>, ErrorModel>(
                arrows_view(out@),
            ),
    {
        let ghost pre = iv.take(k + 1);
        assert(pre.drop_last() =~= iv.take(k as int));
        assert(pre[pre.len() - 2] == iv[k - 1]);
        let a = match arrow_between_of(cards, &ids[k - 1], &ids[k]) {
            Ok(a) => a,
            Err(e) => {
                proof {
                    lemma_flow_error_prefix(cv, iv, k + 1);
                }
                return Err(e);
            },
        };
        let ghost before = arrows_view(out@);
        out.push(a);
        assert(arrows_view(out@) =~= before.push(a@));
    }
    assert(iv.take(ids.len() as int) =~= iv);
    Ok(out)
}

impl SvgDocument {
    /// A copy of the first card whose id is `id`.
    pub fn get_card(&self, id: ExpressionId) -> (r: Result<Card, EmlError>)
        ensures
            match find_card(self@.cards, id@) {
                Some(i) => r is Ok && (r->Ok_0)@ == self@.cards[i],
                None => r is Err && (r->Err_0)@ == ErrorModel::UnresolvedReference(id@),
            },
    {
        match card_index(&self.cards, &id.0) {
            Some(i) => {
                proof {
                    crate::card::lemma_find_card(self@.cards, id@);
                }
                Ok(self.cards[i].duplicate())
            },
            None => Err(EmlError::UnresolvedReference(id.0)),
        }
    }

    /// Adds what one expression stands for; on failure nothing changes.
    fn ingest_expression(&mut self, e: &Expression) -> (r: Result<(), EmlError>)
        ensures
            match ingest_step(old(self)@.cards, old(self)@.arrows, e@) {
                Ok((c, a)) => r is Ok && final(self)@.cards == c && final(self)@.arrows == a
                    && final(self).cards.len() >= old(self).cards.len()
                    && final(self).arrows.len() >= old(self).arrows.len()
                    && final(self).cards@.take(old(self).cards.len() as int) == old(self).cards@
                    && final(self).arrows@.take(old(self).arrows.len() as int) == old(self).arrows@,
                Err(x) => r is Err && (r->Err_0)@ == x && final(self).cards@ == old(self).cards@
                    && final(self).arrows@ == old(self).arrows@,
            },
            final(self).width == old(self).width,
            final(self).height == old(self).height,
            final(self).swimlane == old(self).swimlane,
    {
        let ghost c0 = self.cards@;
        let ghost a0 = self.arrows@;
        let card = match e {
            Expression::Form(id, Body::FieldBody(f)) => fields_card_of(CardType::Form, ExpressionId(id.0.clone()), f),
            Expression::Job(id, Body::FieldBody(f)) => fields_card_of(CardType::Job, ExpressionId(id.0.clone()), f),
            Expression::Command(id, Body::FieldBody(f)) => fields_card_of(
                CardType::Command,
                ExpressionId(id.0.clone()),
                f,
            ),
            Expression::Event(id, Body::FieldBody(f)) => fields_card_of(CardType::Event, ExpressionId(id.0.clone()), f),
            Expression::Form(id, _) | Expression::Job(id, _) | Expression::Command(id, _)
            | Expression::Event(id, _) => {
                return Err(EmlError::InvalidBody(id.0.clone()));
            },
            Expression::View(id, Body::TableBody(t)) => Card::new(
                id.0.clone(),
                CardType::View,
                crate::card::copy_strings(t),
            ),
            Expression::View(id, Body::FieldBody(f)) => fields_card_of(CardType::View, ExpressionId(id.0.clone()), f),
            Expression::View(_, Body::UseBody(r)) => match card_index(&self.cards, &r.0) {
                Some(i) => {
                    proof {
                        crate::card::lemma_find_card(cards_view(self.cards@), r@);
                    }
                    self.cards[i].duplicate()
                },
                None => return Err(EmlError::UnresolvedReference(r.0.clone())),
            },
            Expression::Flow(_, ids) => {
                let mut new = match flow_arrows_of(&self.cards, ids) {
                    Ok(v) => v,
                    Err(x) => return Err(x),
                };
                let ghost nv = arrows_view(new@);
                self.arrows.append(&mut new);
                assert(arrows_view(self.arrows@) =~= arrows_view(a0) + nv);
                assert(self.arrows@.take(a0.len() as int) =~= a0);
                assert(self.cards@.take(c0.len() as int) =~= c0);
                return Ok(());
            },
        };
        self.cards.push(card);
        assert(cards_view(self.cards@) =~= cards_view(c0).push(card@));
        assert(self.cards@.take(c0.len() as int) =~= c0);
        assert(self.arrows@.take(a0.len() as int) =~= a0);
        Ok(())
    }

    /// Ingests `expressions` in source order: forms, jobs, commands and
    /// events become cards of their fields; a view becomes a card of its
    /// table, or a copy of the earlier card that it uses; a flow becomes one
    /// arrow per two neighbours. Fails, leaving the document as it was, at
    /// the first expression that names a missing card, joins an illegal
    /// pair, or has a body its keyword does not take.
    pub fn ingest_expressions(&mut self, expressions: Vec<Expression>) -> (r: Result<(), EmlError>)
        ensures
            match ingest_all(old(self)@.cards, old(self)@.arrows, crate::eventmodel::expressions_view(
                expressions@,
            )) {
                Ok((c, a)) => r is Ok && final(self)@ == (crate::document::DocumentModel {
                    cards: c,
                    arrows: a,
                    ..old(self)@
                }),
                Err(x) => r is Err && (r->Err_0)@ == x && final(self)@ == old(self)@,
            },
    {
        let ghost c0 = self.cards@;
        let ghost a0 = self.arrows@;
        let ghost ev = crate::eventmodel::expressions_view(expressions@);
        let n0 = self.cards.len();
        let m0 = self.arrows.len();
        assert(ev.take(0) =~= Seq::<ExpressionModel>::empty());
        for k in 0..expressions.len()
            invariant
                ev == crate::eventmodel::expressions_view(expressions@),
                n0 == c0.len(),
                m0 == a0.len(),
                n0 <= self.cards.len(),
                m0 <= self.arrows.len(),
                self.cards@.take(n0 as int) == c0,
                self.arrows@.take(m0 as int) == a0,
                self.width == old(self).width,
                self.height == old(self).height,
                self.swimlane == old(self).swimlane,
                c0 == old(self).cards@,
                a0 == old(self).arrows@,
                ingest_all(cards_view(c0), arrows_view(a0), ev.take(k as int)) == Ok::<
                    (Seq<CardModel>, Seq<ArrowModel>),
                    ErrorModel,
                >((cards_view(self.cards@), arrows_view(self.arrows@))),
        {
            assert(ev.take(k + 1).drop_last() =~= ev.take(k as int));
            let ghost cb = self.cards@;
            let ghost ab = self.arrows@;
            match self.ingest_expression(&expressions[k]) {
                Ok(()) => {
                    assert(self.cards@.take(n0 as int) =~= cb.take(n0 as int));
                    assert(self.arrows@.take(m0 as int) =~= ab.take(m0 as int));
                },
                Err(x) => {
                    proof {
                        lemma_ingest_error_prefix(cards_view(c0), arrows_view(a0), ev, k + 1);
                    }
                    self.cards.truncate(n0);
                    self.arrows.truncate(m0);
                    assert(self.cards@ =~= c0);
                    assert(self.arrows@ =~= a0);
                    return Err(x);
                },
            }
        }
        assert(ev.take(expressions.len() as int) =~= ev);
        Ok(())
    }
}

} // verus!
