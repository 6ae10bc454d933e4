use vstd::prelude::*;

use crate::strutil::str_eq;

verus! {

/// An XML element: a tag name, its attributes, and its child elements in
/// document order. Attributes are looked up by name and their names are
/// unique, so their order carries no meaning; the parser below hands them
/// over sorted by name. Text nodes are not kept: the catalog formats carry
/// all of their data in attributes.
pub struct XmlElement {
    pub name: String,
    pub attrs: Vec<(String, String)>,
    pub children: Vec<XmlElement>,
}

/// The value of the first attribute named `key`, if any.
pub open spec fn attr_lookup(attrs: Seq<(String, String)>, key: Seq<char>) -> Option<Seq<char>>
    decreases attrs.len(),
{
    if attrs.len() == 0 {
        None
    } else if attrs[0].0@ == key {
        Some(attrs[0].1@)
    } else {
        attr_lookup(attrs.drop_first(), key)
    }
}

impl XmlElement {
    /// The value of attribute `key` on this element.
    pub open spec fn spec_attr(self, key: Seq<char>) -> Option<Seq<char>> {
        attr_lookup(self.attrs@, key)
    }

    /// Look up an attribute by name.
    pub fn attr(&self, key: &str) -> (r: Option<&String>)
        ensures
            match r {
                Some(v) => self.spec_attr(key@) == Some(v@),
                None => self.spec_attr(key@) is None,
            },
    {
        let n = self.attrs.len();
        let mut i: usize = 0;
        proof {
            assert(self.attrs@.skip(0) =~= self.attrs@);
        }
        while i < n
            invariant
                0 <= i <= n,
                n == self.attrs.len(),
                attr_lookup(self.attrs@.skip(i as int), key@) == attr_lookup(
                    self.attrs@,
                    key@,
                ),
            decreases n - i,
        {
            if str_eq(self.attrs[i].0.as_str(), key) {
                proof {
                    assert(self.attrs@.skip(i as int)[0] == self.attrs@[i as int]);
                }
                return Some(&self.attrs[i].1);
            }
            proof {
                assert(self.attrs@.skip(i as int).drop_first() =~= self.attrs@.skip(i + 1));
                assert(self.attrs@.skip(i as int)[0] == self.attrs@[i as int]);
            }
            i += 1;
        }
        proof {
            assert(self.attrs@.skip(i as int) =~= self.attrs@.skip(n as int));
        }
        None
    }
}

/// minidom's element type, declared so that the trusted boundary below can
/// speak of it.
#[verifier::external_type_specification]
#[verifier::external_body]
pub struct ExElement(minidom::Element);

/// What parsing an XML document yields, translated into this crate's
/// element tree. The outcome is a function of the text alone; nothing more
/// is assumed of it.
pub uninterp spec fn xml_doc(s: Seq<char>) -> Option<XmlElement>;

/// Relies on minidom's tree: the name, the attributes and the child
/// elements are handed over one for one. Children keep document order;
/// attributes arrive sorted by name, with the namespace declarations
/// already removed.
#[verifier::external_body]
fn convert_element(e: &minidom::Element) -> XmlElement {
    XmlElement {
        name: e.name().to_string(),
        attrs: e.attrs().map(|(k, v)| (k.to_string(), v.to_string())).collect(),
        children: e.children().map(convert_element).collect(),
    }
}

/// Relies on minidom's `Element::from_str`: it parses an XML document into
/// a tree, which is handed over element for element; a document minidom
/// rejects yields nothing. `xml_doc` names the outcome.
#[verifier::external_body]
pub fn parse_document(s: &str) -> (r: Option<XmlElement>)
    ensures
        r == xml_doc(s@),
{
    match s.parse::<minidom::Element>() {
        Ok(e) => Some(convert_element(&e)),
        Err(_) => None,
    }
}

} // verus!
