//! Converts HTML documents into a flat flashcard-editor markup dialect.
//!
//! The pipeline: an external parser produces a DOM, which is reduced to a
//! canonical tree of text and element nodes, normalized, converted into a
//! typed intermediate representation (`html_to_ir`, `ir`), and rendered to
//! the final text (`ir_to_anki`).  `group_lines` is the pure text-reflow
//! utility applied to paragraph and code text.

pub mod group_lines;
pub mod html_to_ir;
pub mod ir;
pub mod ir_to_anki;
pub mod text;

use vstd::prelude::*;

verus! {

/// Relies on the derived `Debug` format of the document; nothing is claimed
/// of the inspection text's shape.
#[verifier::external_body]
fn debug_dump(doc: &ir::Document) -> (r: String) {
    format!("{:?}", doc)
}

fn convert_file_debug(file_type: &str, contents: &str) -> (r: String)
    requires
        file_type@ == "html"@ || file_type@ == "xhtml"@,
{
    let doc = html_to_ir::convert_file(contents);
    debug_dump(&doc)
}

/// Converts one HTML or XHTML text to the flashcard markup, or, when asked
/// to, to an inspection dump of the intermediate representation.
pub fn convert_file(debug: bool, file_type: &str, contents: &str) -> (r: String)
    requires
        file_type@ == "html"@ || file_type@ == "xhtml"@,
    ensures
        !debug ==> exists|dv: Seq<ir::IRV>|
            {
                &&& r@ == #[trigger] ir_to_anki::render_document(dv)
                &&& ((exists|ns: Seq<html_to_ir::html::NodeV>|
                    html_to_ir::html::nodes_wf(ns)
                        && #[trigger] html_to_ir::convert::convert_document_spec(ns) == Result::<
                        Seq<ir::IRV>,
                        html_to_ir::convert::ErrV,
                    >::Ok(dv)) || dv == Seq::<ir::IRV>::empty())
            },
{
    if debug {
        return convert_file_debug(file_type, contents);
    }
    let doc = html_to_ir::convert_file(contents);
    let ghost dv = doc@;
    let rendered = ir_to_anki::convert(doc);
    proof {
        assert(rendered@ == ir_to_anki::render_document(dv));
    }
    rendered
}

} // verus!
