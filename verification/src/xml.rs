//! XML documents as plain records: every element with its name,
//! attributes, text and byte range, in document order. `roxmltree` does
//! the parsing.
use vstd::prelude::*;
use crate::text::{chars_of, sub_bytes};

verus! {

#[derive(Debug, Clone)]
pub struct XmlAttribute {
    pub name: String,
    pub value: String,
}

/// An element of a parsed document. `id` and `parent` are the parser's
/// node numbers; the parent of the root element is the document node.
#[derive(Debug, Clone)]
pub struct XmlElement {
    pub id: usize,
    pub parent: Option<usize>,
    pub name: String,
    pub attributes: Vec<XmlAttribute>,
    pub start: usize,
    pub end: usize,
    pub text: Option<String>,
}

pub struct AttributeView {
    pub name: Seq<char>,
    pub value: Seq<char>,
}

pub struct ElementView {
    pub id: usize,
    pub parent: Option<usize>,
    pub name: Seq<char>,
    pub attributes: Seq<AttributeView>,
    pub start: usize,
    pub end: usize,
    pub text: Option<Seq<char>>,
}

pub open spec fn opt_str_view(o: Option<String>) -> Option<Seq<char>> {
    match o {
        Some(s) => Some(s@),
        None => None,
    }
}

pub open spec fn attribute_view(a: XmlAttribute) -> AttributeView {
    AttributeView { name: a.name@, value: a.value@ }
}

pub open spec fn element_view(e: XmlElement) -> ElementView {
    ElementView {
        id: e.id,
        parent: e.parent,
        name: e.name@,
        attributes: e.attributes@.map_values(|a: XmlAttribute| attribute_view(a)),
        start: e.start,
        end: e.end,
        text: opt_str_view(e.text),
    }
}

pub open spec fn elements_view(es: Seq<XmlElement>) -> Seq<ElementView> {
    es.map_values(|e: XmlElement| element_view(e))
}

/// The elements `roxmltree::Document::parse` finds in `text`, in document
/// order, or the text of its error.
pub uninterp spec fn xml_elements(text: Seq<char>) -> Result<Seq<ElementView>, Seq<char>>;

/// Calls `roxmltree::Document::parse` and lists its element nodes in
/// document order (`descendants`), each converted to a record of plain
/// values; an error is turned into its text.
#[verifier::external_body]
pub fn parse_xml(text: &str) -> (r: Result<Vec<XmlElement>, String>)
    ensures
        match xml_elements(text@) {
            Ok(es) => r is Ok && elements_view(r->Ok_0@) == es,
            Err(e) => r is Err && r->Err_0@ == e,
        },
{
    let doc = roxmltree::Document::parse(text).map_err(|e| e.to_string())?;
    Ok(doc.descendants().filter(|n| n.is_element()).map(|n| XmlElement {
        id: n.id().get_usize(),
        parent: n.parent().map(|p| p.id().get_usize()),
        name: n.tag_name().name().into(),
        attributes: n.attributes().map(|a| XmlAttribute { name: a.name().into(), value: a.value().into() }).collect(),
        start: n.range().start,
        end: n.range().end,
        text: n.text().map(String::from),
    }).collect())
}

/// The value of the first attribute with the local name `key`, whatever its
/// namespace (as `roxmltree::Node::attribute` looks up a plain name).
pub open spec fn attr_from(attrs: Seq<AttributeView>, key: Seq<char>, i: int) -> Option<Seq<char>>
    decreases attrs.len() - i,
{
    if i < 0 || i >= attrs.len() {
        None
    } else if attrs[i].name == key {
        Some(attrs[i].value)
    } else {
        attr_from(attrs, key, i + 1)
    }
}

pub open spec fn attr(e: ElementView, key: Seq<char>) -> Option<Seq<char>> {
    attr_from(e.attributes, key, 0)
}

/// Looks up an attribute by its local name.
pub fn get_attr(e: &XmlElement, key: &str) -> (r: Option<String>)
    ensures
        opt_str_view(r) == attr(element_view(*e), key@),
{
    let k = chars_of(key);
    let ghost ev = element_view(*e);
    let mut i: usize = 0;
    while i < e.attributes.len()
        invariant
            i <= e.attributes@.len(),
            k@ == key@,
            ev == element_view(*e),
            ev.attributes.len() == e.attributes@.len(),
            attr_from(ev.attributes, key@, i as int) == attr_from(ev.attributes, key@, 0),
        decreases e.attributes@.len() - i,
    {
        let a = &e.attributes[i];
        assert(ev.attributes[i as int] == attribute_view(*a));
        if crate::parser::chars_eq(&chars_of(a.name.as_str()), &k) {
            return Some(a.value.clone());
        }
        i += 1;
    }
    None
}

pub fn has_attr(e: &XmlElement, key: &str) -> (b: bool)
    ensures
        b == attr(element_view(*e), key@) is Some,
{
    get_attr(e, key).is_some()
}

/// The text of the bytes `start..end` of `svg`, or nothing when they do not
/// lie between characters of it (as `str::get` does).
pub open spec fn text_range(svg: Seq<char>, start: usize, end: usize) -> Seq<char> {
    let b = vstd::utf8::encode_utf8(svg);
    if start <= end && end <= b.len() && vstd::utf8::valid_utf8(b.subrange(start as int, end as int)) {
        vstd::utf8::decode_utf8(b.subrange(start as int, end as int))
    } else {
        Seq::empty()
    }
}

/// The source text of an element.
pub fn source_text(svg: &str, start: usize, end: usize) -> (r: String)
    ensures
        r@ == text_range(svg@, start, end),
{
    let b = svg.as_bytes();
    if start <= end && end <= b.len() {
        let piece = sub_bytes(b, start, end);
        match crate::image::utf8_text(piece.as_slice()) {
            Some(t) => {
                proof {
                    vstd::utf8::encode_utf8_decode_utf8(t@);
                }
                return t.to_string();
            },
            None => {},
        }
    }
    proof {
        reveal_strlit("");
    }
    crate::text::chars_to_string_lit("")
}

} // verus!
