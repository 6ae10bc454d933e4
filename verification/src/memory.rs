use vstd::prelude::*;

use crate::assoc::{assoc_extend_fresh, assoc_get, assoc_insert, assoc_keys_unique, assoc_map};
use crate::attrs::{attr_bool_or_false, attr_parse_hex, s_bool_attr_or_false, s_parse_hex};
use crate::error::ParseError;
use crate::strutil::{chars_of, contains_sub, has_sub};
use crate::xml::XmlElement;

verus! {

/// What a memory region permits.
#[derive(Debug, Clone, Copy, PartialEq, Eq, Structural)]
pub struct MemoryPermissions {
    pub read: bool,
    pub write: bool,
    pub execute: bool,
    pub peripheral: bool,
    pub secure: bool,
    pub non_secure: bool,
    pub non_secure_callable: bool,
}

/// The permissions a character bag denotes: each flag holds exactly when
/// its character occurs; unrecognized characters are ignored.
pub open spec fn s_perms(s: Seq<char>) -> MemoryPermissions {
    MemoryPermissions {
        read: s.contains('r'),
        write: s.contains('w'),
        execute: s.contains('x'),
        peripheral: s.contains('p'),
        secure: s.contains('s'),
        non_secure: s.contains('n'),
        non_secure_callable: s.contains('c'),
    }
}

/// Extending a prefix by one character extends what it contains by exactly
/// that character.
proof fn lemma_take_contains(s: Seq<char>, i: int)
    requires
        0 <= i < s.len(),
    ensures
        forall|c: char|
            #[trigger] s.take(i + 1).contains(c) <==> (s.take(i).contains(c) || s[i] == c),
{
    assert(s.take(i + 1) =~= s.take(i).push(s[i]));
    assert forall|c: char|
        #[trigger] s.take(i + 1).contains(c) <==> (s.take(i).contains(c) || s[i] == c) by {
        if s.take(i).contains(c) {
            let j = choose|j: int| 0 <= j < s.take(i).len() && s.take(i)[j] == c;
            assert(s.take(i + 1)[j] == c);
        }
        if s[i] == c {
            assert(s.take(i + 1)[i] == c);
        }
        if s.take(i + 1).contains(c) {
            let j = choose|j: int| 0 <= j < s.take(i + 1).len() && #[trigger] s.take(i + 1)[j]
                == c;
            if j < i {
                assert(s.take(i)[j] == c);
            }
        }
    }
}

impl MemoryPermissions {
    /// Parse a character bag such as `rwx`.
    #[verifier::loop_isolation(false)]
    pub fn from_str(input: &str) -> (r: Self)
        ensures
            r == s_perms(input@),
    {
        let v = chars_of(input);
        let mut ret = MemoryPermissions {
            read: false,
            write: false,
            execute: false,
            peripheral: false,
            secure: false,
            non_secure: false,
            non_secure_callable: false,
        };
        let n = v.len();
        let mut i: usize = 0;
        proof {
            assert(input@.take(0) =~= Seq::<char>::empty());
        }
        while i < n
            invariant
                0 <= i <= n,
                ret == s_perms(input@.take(i as int)),
            decreases n - i,
        {
            proof {
                lemma_take_contains(input@, i as int);
            }
            let c = v[i];
            if c == 'r' {
                ret.read = true;
            } else if c == 'w' {
                ret.write = true;
            } else if c == 'x' {
                ret.execute = true;
            } else if c == 'p' {
                ret.peripheral = true;
            } else if c == 's' {
                ret.secure = true;
            } else if c == 'n' {
                ret.non_secure = true;
            } else if c == 'c' {
                ret.non_secure_callable = true;
            }
            i += 1;
        }
        proof {
            assert(input@.take(n as int) =~= input@);
        }
        ret
    }
}

/// One memory region of a device.
#[derive(Debug, Clone, Copy, PartialEq, Eq, Structural)]
pub struct Memory {
    pub access: MemoryPermissions,
    pub start: u64,
    pub size: u64,
    pub startup: bool,
    pub default: bool,
}

/// The access bag inferred from a region id that carries none of its own:
/// read-only memory executes, random-access memory writes, anything else
/// permits nothing.
pub open spec fn s_infer_access(id: Seq<char>) -> Seq<char> {
    if has_sub(id, "ROM"@) {
        "rx"@
    } else if has_sub(id, "RAM"@) {
        "rw"@
    } else {
        Seq::<char>::empty()
    }
}

/// The access bag of a memory element: its `access` attribute, or what the
/// region id infers; an element with neither grants nothing.
pub open spec fn s_access_bag(e: XmlElement) -> Seq<char> {
    match e.spec_attr("access"@) {
        Some(v) => v,
        None => match e.spec_attr("id"@) {
            Some(id) => s_infer_access(id),
            None => Seq::<char>::empty(),
        },
    }
}

/// The region name of a memory element: its `id`, or failing that `name`.
pub open spec fn s_mem_name(e: XmlElement) -> Option<Seq<char>> {
    match e.spec_attr("id"@) {
        Some(v) => Some(v),
        None => e.spec_attr("name"@),
    }
}

/// The named region a `memory` element denotes, if it denotes one at all:
/// it must resolve a name and carry well-formed hexadecimal `start` and
/// `size` attributes; the access bag never fails, only defaults.
pub open spec fn s_parse_memory(e: XmlElement) -> Option<(Seq<char>, Memory)> {
    match s_mem_name(e) {
        None => None,
        Some(name) => match e.spec_attr("start"@) {
            None => None,
            Some(sv) => match s_parse_hex(sv) {
                None => None,
                Some(start) => match e.spec_attr("size"@) {
                    None => None,
                    Some(zv) => match s_parse_hex(zv) {
                        None => None,
                        Some(size) => Some(
                            (
                                name,
                                Memory {
                                    access: s_perms(s_access_bag(e)),
                                    start,
                                    size,
                                    startup: s_bool_attr_or_false(e, "startup"@),
                                    default: s_bool_attr_or_false(e, "default"@),
                                },
                            ),
                        ),
                    },
                },
            },
        },
    }
}

/// A named memory region, as one `memory` element declares it.
#[derive(Debug, Clone)]
pub struct MemElem(pub String, pub Memory);

impl MemElem {
    /// Parse a `memory` element. A rejected element is skipped by the
    /// caller, so the error only describes what was missing or malformed.
    pub fn from_elem(e: &XmlElement) -> (r: Result<MemElem, ParseError>)
        ensures
            r is Ok <==> s_parse_memory(*e) is Some,
            r matches Ok(m) ==> Some((m.0@, m.1)) == s_parse_memory(*e),
    {
        let access = match e.attr("access") {
            Some(v) => MemoryPermissions::from_str(v.as_str()),
            None => match e.attr("id") {
                Some(id) => {
                    if contains_sub(id.as_str(), "ROM") {
                        MemoryPermissions::from_str("rx")
                    } else if contains_sub(id.as_str(), "RAM") {
                        MemoryPermissions::from_str("rw")
                    } else {
                        proof {
                            reveal_strlit("");
                            assert(""@ =~= Seq::<char>::empty());
                        }
                        MemoryPermissions::from_str("")
                    }
                },
                None => {
                    proof {
                        reveal_strlit("");
                        assert(""@ =~= Seq::<char>::empty());
                    }
                    MemoryPermissions::from_str("")
                },
            },
        };
        let name = match e.attr("id") {
            Some(v) => v.clone(),
            None => match e.attr("name") {
                Some(v) => v.clone(),
                None => {
                    return Err(ParseError::MissingAttr("memory".to_owned(), "id".to_owned()));
                },
            },
        };
        let start = attr_parse_hex(e, "start", "memory")?;
        let size = attr_parse_hex(e, "size", "memory")?;
        let startup = attr_bool_or_false(e, "startup");
        let default = attr_bool_or_false(e, "default");
        Ok(MemElem(name, Memory { access, start, size, startup, default }))
    }
}

/// The memory regions of a device, keyed by region name.
#[derive(Debug, Clone)]
pub struct Memories(pub Vec<(String, Memory)>);

impl View for Memories {
    type V = Map<Seq<char>, Memory>;

    open spec fn view(&self) -> Map<Seq<char>, Memory> {
        assoc_map(self.0@)
    }
}

impl Memories {
    /// Region names are pairwise distinct.
    pub open spec fn wf(self) -> bool {
        assoc_keys_unique(self.0@)
    }

    /// An empty region mapping.
    pub fn new() -> (r: Self)
        ensures
            r@ =~= Map::<Seq<char>, Memory>::empty(),
            r.wf(),
            r.0@.len() == 0,
    {
        Memories(Vec::new())
    }

    /// Insert a region, replacing one already there under the same name.
    pub fn insert(&mut self, name: String, mem: Memory)
        requires
            old(self).wf(),
        ensures
            final(self).wf(),
            final(self)@ == old(self)@.insert(name@, mem),
    {
        assoc_insert(&mut self.0, name, mem);
    }

    /// Whether a region of this name is already recorded.
    pub fn contains(&self, name: &str) -> (r: bool)
        ensures
            r == self@.contains_key(name@),
    {
        crate::assoc::assoc_contains(&self.0, name)
    }

    /// Look a region up by name.
    pub fn get(&self, name: &str) -> (r: Option<&Memory>)
        requires
            self.wf(),
        ensures
            match r {
                Some(m) => self@.contains_key(name@) && *m == self@[name@],
                None => !self@.contains_key(name@),
            },
    {
        assoc_get(&self.0, name)
    }
}

/// Fold a parent's regions into a child's: a name both sides declare keeps
/// the child's region, the parent only fills names the child lacks.
pub fn merge_memories(lhs: Memories, rhs: &Memories) -> (r: Memories)
    requires
        lhs.wf(),
        rhs.wf(),
    ensures
        r.wf(),
        r@ == rhs@.union_prefer_right(lhs@),
{
    let Memories(mut v) = lhs;
    assoc_extend_fresh(&mut v, &rhs.0);
    Memories(v)
}

} // verus!
