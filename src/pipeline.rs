//! The whole pipeline: text to SVG.

use vstd::prelude::*;
use crate::document::{document_svg, laid_out, layout_error, DocumentModel, SvgConfig, SvgDocument};
use crate::error::{EmlError, ErrorModel};
use crate::grammar::document;
use crate::ingest::ingest_all;
use crate::parse::parse;
use crate::swimlane::Swimlane;

verus! {

/// Parse, ingest into an empty document, lay out with `cfg`, render; the
/// first failure is the result.
pub open spec fn pipeline(s: Seq<char>, cfg: SvgConfig) -> Result<Seq<char>, ErrorModel> {
    match document(s) {
        Err(e) => Err(e),
        Ok(xs) => match ingest_all(Seq::empty(), Seq::empty(), xs) {
            Err(e) => Err(e),
            Ok((cards, arrows)) => match layout_error(cards, arrows) {
                Some(e) => Err(e),
                None => Ok(
                    document_svg(
                        laid_out(
                            DocumentModel {
                                width: 0,
                                height: 0,
                                cards,
                                arrows,
                                swimlane: Swimlane { top: 0, bottom: 0, width: 0 },
                            },
                            cfg,
                        ),
                    ),
                ),
            },
        },
    }
}

/// The SVG of an EML document, laid out with `config`.
pub fn process(input: &str, config: &SvgConfig) -> (r: Result<String, EmlError>)
    ensures
        match pipeline(input@, *config) {
            Ok(svg) => r is Ok && (r->Ok_0)@ == svg,
            Err(e) => r is Err && (r->Err_0)@ == e,
        },
{
    let model = match parse(input) {
        Ok(m) => m,
        Err(e) => return Err(e),
    };
    let mut doc = SvgDocument::new();
    match doc.ingest_expressions(model.expressions) {
        Ok(()) => {},
        Err(e) => return Err(e),
    }
    match doc.set_dimensions(config) {
        Ok(()) => {},
        Err(e) => return Err(e),
    }
    Ok(doc.render())
}

} // verus!
