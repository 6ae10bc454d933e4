use vstd::prelude::*;

use crate::attrs::{attr_bool_or_false, attr_map, attr_parse_hex, s_bool_attr_or_false, s_parse_hex};
use crate::error::ParseError;
use crate::xml::XmlElement;

verus! {

/// The metadata of one flash algorithm: where its image loads, and the RAM
/// window it may use. The algorithm itself is never executed here.
#[derive(Debug, Clone, PartialEq, Eq)]
pub struct Algorithm {
    pub file_name: String,
    pub start: u64,
    pub size: u64,
    pub default: bool,
    pub ram_start: Option<u64>,
    pub ram_size: Option<u64>,
}

/// The mathematical shape of `Algorithm`.
pub struct AlgModel {
    pub file_name: Seq<char>,
    pub start: u64,
    pub size: u64,
    pub default: bool,
    pub ram_start: Option<u64>,
    pub ram_size: Option<u64>,
}

impl View for Algorithm {
    type V = AlgModel;

    open spec fn view(&self) -> AlgModel {
        AlgModel {
            file_name: self.file_name@,
            start: self.start,
            size: self.size,
            default: self.default,
            ram_start: self.ram_start,
            ram_size: self.ram_size,
        }
    }
}

impl DeepView for Algorithm {
    type V = AlgModel;

    open spec fn deep_view(&self) -> AlgModel {
        self.view()
    }
}

/// The algorithm an `algorithm` element denotes, if it denotes one at all:
/// it must carry a file name and well-formed hexadecimal `start` and `size`;
/// the RAM window attributes are kept only where they parse.
pub open spec fn s_parse_algorithm(e: XmlElement) -> Option<AlgModel> {
    match e.spec_attr("name"@) {
        None => None,
        Some(file_name) => match e.spec_attr("start"@) {
            None => None,
            Some(sv) => match s_parse_hex(sv) {
                None => None,
                Some(start) => match e.spec_attr("size"@) {
                    None => None,
                    Some(zv) => match s_parse_hex(zv) {
                        None => None,
                        Some(size) => Some(
                            AlgModel {
                                file_name,
                                start,
                                size,
                                default: s_bool_attr_or_false(e, "default"@),
                                ram_start: match e.spec_attr("RAMstart"@) {
                                    Some(rv) => s_parse_hex(rv),
                                    None => None,
                                },
                                ram_size: match e.spec_attr("RAMsize"@) {
                                    Some(rv) => s_parse_hex(rv),
                                    None => None,
                                },
                            },
                        ),
                    },
                },
            },
        },
    }
}

impl Algorithm {
    /// Parse an `algorithm` element. A rejected element is skipped by the
    /// caller, so the error only describes what was missing or malformed.
    pub fn from_elem(e: &XmlElement) -> (r: Result<Algorithm, ParseError>)
        ensures
            r is Ok <==> s_parse_algorithm(*e) is Some,
            r matches Ok(a) ==> Some(a@) == s_parse_algorithm(*e),
    {
        let file_name = attr_map(e, "name", "algorithm")?;
        let start = attr_parse_hex(e, "start", "algorithm")?;
        let size = attr_parse_hex(e, "size", "algorithm")?;
        let ram_start = match e.attr("RAMstart") {
            Some(v) => crate::attrs::parse_hex(v.as_str()),
            None => None,
        };
        let ram_size = match e.attr("RAMsize") {
            Some(v) => crate::attrs::parse_hex(v.as_str()),
            None => None,
        };
        let default = attr_bool_or_false(e, "default");
        Ok(Algorithm { file_name, start, size, default, ram_start, ram_size })
    }
}

} // verus!
