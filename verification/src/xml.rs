//! Reading a markup document with the `xmltree` crate.

use crate::document::{Attribute, Markup, Node};
use vstd::prelude::*;

verus! {

/// `xmltree::Element`, of which nothing is known here but what `copy_element`
/// hands over.
#[verifier::external_type_specification]
#[verifier::external_body]
pub struct ExXmlElement(xmltree::Element);

/// What the root element of the document written in `bytes` says, where
/// `bytes` is a document that `xmltree` reads.
pub uninterp spec fn xml_document(bytes: Seq<u8>) -> Option<Markup>;

/// What an element that `xmltree` has read says.
pub uninterp spec fn xml_markup(element: xmltree::Element) -> Markup;

/// `xmltree::Element::parse` on a buffer: the root element of the document,
/// or nothing where the bytes are no document that the crate reads. The same
/// bytes always give the same outcome.
#[verifier::external_body]
fn read_xml(bytes: &[u8]) -> (root: Option<xmltree::Element>)
    ensures
        root matches Some(element) ==> xml_document(bytes@) == Some(xml_markup(element)),
        root is None ==> xml_document(bytes@) is None,
{
    xmltree::Element::parse(bytes).ok()
}

/// Copies out of an `xmltree::Element` what this library reads of it: its
/// `name`, its `attributes`, those of its `children` that are elements, in
/// their order, and the text that `get_text` gives. The attributes come in no
/// particular order, so the contract speaks of them by name only.
#[verifier::external_body]
fn copy_element(element: &xmltree::Element) -> (copy: Node)
    ensures
        copy@ == xml_markup(*element),
{
    Node {
        name: element.name.clone(),
        attributes: element.attributes.iter().map(
            |(name, value)| Attribute { name: name.clone(), value: value.clone() },
        ).collect(),
        children: element.children.iter().filter_map(|node| node.as_element()).map(
            copy_element,
        ).collect(),
        text: element.get_text().map(|text| text.into_owned()),
    }
}

/// Reads the document written in `bytes`.
pub fn parse_document(bytes: &[u8]) -> (root: Option<Node>)
    ensures
        root matches Some(element) ==> xml_document(bytes@) == Some(element@),
        root is None ==> xml_document(bytes@) is None,
{
    match read_xml(bytes) {
        Some(element) => Some(copy_element(&element)),
        None => None,
    }
}

} // verus!
