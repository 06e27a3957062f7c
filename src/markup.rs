//! The XML element tree of the `xml` crate (RustyXML), as the library sees it.
//!
//! An element is opaque to the verifier; [`element_markup`] names the tree it
//! holds, and each wrapper below states how the call it makes changes that
//! tree.
use vstd::prelude::*;

verus! {

#[verifier::external_type_specification]
#[verifier::external_body]
pub struct ExElement(xml::Element);

/// A node of an XML tree: an element with its name, its attributes (keyed by
/// name and namespace) and its children in order, or a run of text, or a
/// CDATA section.
pub enum Markup {
    Element {
        name: Seq<char>,
        attributes: Map<(Seq<char>, Option<Seq<char>>), Seq<char>>,
        children: Seq<Markup>,
    },
    Text(Seq<char>),
    CData(Seq<char>),
}

/// The tree that an element of the `xml` crate holds.
pub uninterp spec fn element_markup(e: xml::Element) -> Markup;

/// The attributes that a list of name and value pairs without namespace
/// gives, a later pair replacing an earlier one of the same name.
pub open spec fn attribute_map(attrs: Seq<(Seq<char>, Seq<char>)>) -> Map<
    (Seq<char>, Option<Seq<char>>),
    Seq<char>,
>
    decreases attrs.len(),
{
    if attrs.len() == 0 {
        Map::empty()
    } else {
        attribute_map(attrs.drop_last()).insert((attrs.last().0, None), attrs.last().1)
    }
}

pub open spec fn pairs_view(v: Seq<(String, String)>) -> Seq<(Seq<char>, Seq<char>)> {
    v.map_values(|p: (String, String)| (p.0@, p.1@))
}

/// An element with the given name, attributes and children.
pub open spec fn element(
    name: Seq<char>,
    attrs: Seq<(Seq<char>, Seq<char>)>,
    children: Seq<Markup>,
) -> Markup {
    Markup::Element { name, attributes: attribute_map(attrs), children }
}

/// `m` with one more child at the end, where `m` is an element.
pub open spec fn with_child(m: Markup, c: Markup) -> Markup {
    match m {
        Markup::Element { name, attributes, children } => Markup::Element {
            name,
            attributes,
            children: children.push(c),
        },
        _ => m,
    }
}

/// Relies on `xml::Element::new`: an element of that name, without
/// namespace, whose attributes are collected into a map from the pairs and
/// which has no children yet.
#[verifier::external_body]
pub(crate) fn new_element(name: String, attributes: Vec<(String, String)>) -> (r: xml::Element)
    ensures
        element_markup(r) == element(name@, pairs_view(attributes@), Seq::empty()),
{
    xml::Element::new(name, None, attributes.into_iter().map(|(k, v)| (k, None, v)))
}

/// Relies on `xml::Element::tag`: the child element is pushed after the
/// other children.
#[verifier::external_body]
pub(crate) fn push_element(parent: &mut xml::Element, child: xml::Element)
    ensures
        element_markup(*final(parent)) == with_child(
            element_markup(*old(parent)),
            element_markup(child),
        ),
{
    parent.tag(child);
}

/// Relies on `xml::Element::text`: a text node is pushed after the other
/// children.
#[verifier::external_body]
pub(crate) fn push_text(parent: &mut xml::Element, text: String)
    ensures
        element_markup(*final(parent)) == with_child(
            element_markup(*old(parent)),
            Markup::Text(text@),
        ),
{
    parent.text(text);
}

/// Relies on `xml::Element::cdata`: a CDATA node is pushed after the other
/// children.
#[verifier::external_body]
pub(crate) fn push_cdata(parent: &mut xml::Element, text: String)
    ensures
        element_markup(*final(parent)) == with_child(
            element_markup(*old(parent)),
            Markup::CData(text@),
        ),
{
    parent.cdata(text);
}

} // verus!
