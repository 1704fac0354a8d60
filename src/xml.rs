//! Reading XML text into the compiler's document tree, and compiling a
//! script from its text.
use vstd::prelude::*;
use roxmltree::NodeType;
use crate::compile::{
    Attribute, CompileError, Compiled, XmlNode, compile_document, compile_spec, strings_view,
};

verus! {

#[verifier::external_type_specification]
#[verifier::external_body]
pub struct ExNode<'a, 'input: 'a>(roxmltree::Node<'a, 'input>);

/// The document tree that roxmltree reads from `source`: its root element,
/// or `None` where the text is not well-formed XML.
pub uninterp spec fn xml_tree_of(source: Seq<char>) -> Option<XmlNode>;

/// Relies on roxmltree's `Node` and `Attribute` accessors: a copy of the
/// subtree at `n`, node for node, with each element's local name, its
/// attributes with their namespaces, and its children in document order.
#[verifier::external_body]
fn xml_node_of(n: roxmltree::Node) -> XmlNode {
    if let Some(pi) = n.pi() {
        return XmlNode::ProcessingInstruction { target: pi.target.into(), value: pi.value.map(str::to_string) };
    }
    let text = || n.text().unwrap_or_default().into();
    match n.node_type() {
        NodeType::Text => XmlNode::Text(text()),
        NodeType::Comment => XmlNode::Comment(text()),
        _ => XmlNode::Element {
            name: n.tag_name().name().into(),
            attributes: n.attributes().map(|a| Attribute { namespace: a.namespace().map(str::to_string), name: a.name().into(), value: a.value().into() }).collect(),
            children: n.children().map(xml_node_of).collect(),
        },
    }
}

/// Relies on `roxmltree::Document::parse`: it fails on text that is not
/// well-formed XML, and otherwise its tree depends on the text alone.
#[verifier::external_body]
fn read_xml(source: &str) -> (r: Option<XmlNode>)
    ensures
        r == xml_tree_of(source@),
{
    roxmltree::Document::parse(source).ok().map(|doc| xml_node_of(doc.root_element()))
}

/// Compiles the script whose XML text is `source`.
pub fn compile_source(source: &str) -> (r: Result<Compiled, CompileError>)
    ensures
        match xml_tree_of(source@) {
            None => r == Err::<Compiled, CompileError>(CompileError::MalformedXml),
            Some(root) => match compile_spec(root) {
                Ok((c, w)) => r is Ok && r->Ok_0.chapter@ == c && strings_view(r->Ok_0.skipped@) == w,
                Err(e) => r == Err::<Compiled, CompileError>(e),
            },
        },
{
    match read_xml(source) {
        Some(root) => compile_document(&root),
        None => Err(CompileError::MalformedXml),
    }
}

} // verus!
