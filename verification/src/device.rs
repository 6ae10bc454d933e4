use vstd::prelude::*;

use crate::algo::{s_parse_algorithm, AlgModel, Algorithm};
use crate::assoc::{assoc_get, assoc_insert, assoc_keys_unique, assoc_map};
use crate::error::ParseError;
use crate::memory::{merge_memories, s_parse_memory, Memories, MemElem, Memory};
use crate::proc::{
    s_build_procs, s_merge_into, s_merge_procs, s_processors_builder, ProcessorsBuilder,
    Processors, ProcsBuilderModel, ProcsModel,
};
use crate::strutil::str_eq;
use crate::xml::XmlElement;

verus! {

/// The mathematical shape of a device under construction.
#[verifier::ext_equal]
pub struct DeviceBuilderModel {
    pub name: Option<Seq<char>>,
    pub memories: Map<Seq<char>, Memory>,
    pub algorithms: Seq<AlgModel>,
    pub processor: Option<ProcsBuilderModel>,
}

/// The mathematical shape of a finished device.
#[verifier::ext_equal]
pub struct DeviceModel {
    pub name: Seq<char>,
    pub memories: Map<Seq<char>, Memory>,
    pub algorithms: Seq<AlgModel>,
    pub processor: ProcsModel,
}

/// A device under construction, while the tree walk is still folding
/// ancestor levels into it.
#[derive(Debug)]
pub struct DeviceBuilder {
    pub name: Option<String>,
    pub algorithms: Vec<Algorithm>,
    pub memories: Memories,
    pub processor: Option<ProcessorsBuilder>,
}

/// A fully materialized device.
#[derive(Debug)]
pub struct Device {
    pub name: String,
    pub memories: Memories,
    pub algorithms: Vec<Algorithm>,
    pub processor: Processors,
}

impl View for DeviceBuilder {
    type V = DeviceBuilderModel;

    open spec fn view(&self) -> DeviceBuilderModel {
        DeviceBuilderModel {
            name: match self.name {
                Some(n) => Some(n@),
                None => None,
            },
            memories: self.memories@,
            algorithms: self.algorithms.deep_view(),
            processor: match self.processor {
                Some(p) => Some(p@),
                None => None,
            },
        }
    }
}

impl DeepView for DeviceBuilder {
    type V = DeviceBuilderModel;

    open spec fn deep_view(&self) -> DeviceBuilderModel {
        self.view()
    }
}

impl View for Device {
    type V = DeviceModel;

    open spec fn view(&self) -> DeviceModel {
        DeviceModel {
            name: self.name@,
            memories: self.memories@,
            algorithms: self.algorithms.deep_view(),
            processor: self.processor@,
        }
    }
}

impl DeepView for Device {
    type V = DeviceModel;

    open spec fn deep_view(&self) -> DeviceModel {
        self.view()
    }
}

/// The name a level element contributes: `Dname`, or failing that
/// `Dvariant`.
pub open spec fn s_name_attr(e: XmlElement) -> Option<Seq<char>> {
    match e.spec_attr("Dname"@) {
        Some(v) => Some(v),
        None => e.spec_attr("Dvariant"@),
    }
}

/// The builder a level element starts from: only its name attributes, with
/// nothing inherited or accumulated yet.
pub open spec fn s_base_builder(e: XmlElement) -> DeviceBuilderModel {
    DeviceBuilderModel {
        name: s_name_attr(e),
        memories: Map::<Seq<char>, Memory>::empty(),
        algorithms: Seq::<AlgModel>::empty(),
        processor: None,
    }
}

/// What one child element contributes to its level's builder: a memory
/// region, an algorithm, or a processor description. A child that fails to
/// parse contributes nothing; a region under a name the level already
/// holds is ignored, so the first-seen sibling wins; any other tag is
/// ignored here.
pub open spec fn s_apply_child(b: DeviceBuilderModel, c: XmlElement) -> DeviceBuilderModel {
    if c.name@ == "memory"@ {
        match s_parse_memory(c) {
            Some(nm) => if b.memories.contains_key(nm.0) {
                b
            } else {
                DeviceBuilderModel { memories: b.memories.insert(nm.0, nm.1), ..b }
            },
            None => b,
        }
    } else if c.name@ == "algorithm"@ {
        match s_parse_algorithm(c) {
            Some(a) => DeviceBuilderModel { algorithms: b.algorithms.push(a), ..b },
            None => b,
        }
    } else if c.name@ == "processor"@ {
        match b.processor {
            None => DeviceBuilderModel { processor: Some(s_processors_builder(c)), ..b },
            Some(slot) => DeviceBuilderModel {
                processor: Some(s_merge_into(slot, s_processors_builder(c))),
                ..b
            },
        }
    } else {
        b
    }
}

/// A level's own contributions, folded over its children in document order.
pub open spec fn s_fold_children(b: DeviceBuilderModel, cs: Seq<XmlElement>) -> DeviceBuilderModel
    decreases cs.len(),
{
    if cs.len() == 0 {
        b
    } else {
        s_apply_child(s_fold_children(b, cs.drop_last()), cs.last())
    }
}

/// The complete builder of one level element: its attributes and every
/// contribution among its immediate children.
pub open spec fn s_level_builder(e: XmlElement) -> DeviceBuilderModel {
    s_fold_children(s_base_builder(e), e.children@)
}

/// The processor slot after a parent's slot is folded in; `None` stands
/// for the symmetric/asymmetric conflict.
pub open spec fn s_merged_opt_procs(
    c: Option<ProcsBuilderModel>,
    p: Option<ProcsBuilderModel>,
) -> Option<Option<ProcsBuilderModel>> {
    match c {
        Some(cp) => match s_merge_procs(cp, p) {
            Some(m) => Some(Some(m)),
            None => None,
        },
        None => Some(p),
    }
}

/// The merge of a child builder with an enclosing level: the child's name
/// wins, the parent's algorithms come first, the child wins a region name
/// both declare, and the processor slots merge; a symmetric/asymmetric
/// processor pair makes the whole merge fail.
pub open spec fn s_add_parent(c: DeviceBuilderModel, p: DeviceBuilderModel) -> Option<
    DeviceBuilderModel,
> {
    match s_merged_opt_procs(c.processor, p.processor) {
        None => None,
        Some(merged) => Some(
            DeviceBuilderModel {
                name: match c.name {
                    Some(n) => Some(n),
                    None => p.name,
                },
                algorithms: p.algorithms + c.algorithms,
                memories: p.memories.union_prefer_right(c.memories),
                processor: merged,
            },
        ),
    }
}

/// The device a complete builder denotes: it must carry a non-empty name
/// and a processor description whose every core resolved.
pub open spec fn s_build_db(db: DeviceBuilderModel) -> Option<DeviceModel> {
    match db.name {
        None => None,
        Some(n) => if n.len() == 0 {
            None
        } else {
            match db.processor {
                None => None,
                Some(pm) => match s_build_procs(pm) {
                    None => None,
                    Some(ps) => Some(
                        DeviceModel {
                            name: n,
                            memories: db.memories,
                            algorithms: db.algorithms,
                            processor: ps,
                        },
                    ),
                },
            }
        },
    }
}

/// Well-formedness of an optional processor slot.
pub open spec fn s_opt_slot_wf(p: Option<ProcessorsBuilder>) -> bool {
    match p {
        Some(x) => x.wf(),
        None => true,
    }
}

impl DeviceBuilder {
    /// Region names are distinct and the processor slot is well formed.
    pub open spec fn wf(self) -> bool {
        self.memories.wf() && s_opt_slot_wf(self.processor)
    }

    /// The builder a level element starts from.
    pub fn from_elem(e: &XmlElement) -> (r: DeviceBuilder)
        ensures
            r@ == s_base_builder(*e),
            r.wf(),
    {
        let name = match e.attr("Dname") {
            Some(v) => Some(v.clone()),
            None => match e.attr("Dvariant") {
                Some(v) => Some(v.clone()),
                None => None,
            },
        };
        let r = DeviceBuilder {
            name,
            memories: Memories::new(),
            algorithms: Vec::new(),
            processor: None,
        };
        proof {
            assert(r@ =~= s_base_builder(*e));
        }
        r
    }

    /// Record one memory region of this level. Siblings are visited in
    /// document order and the first region recorded under a name wins: a
    /// later sibling under a name this level already holds leaves the
    /// builder unchanged.
    pub fn add_memory(&mut self, m: MemElem)
        requires
            old(self).wf(),
        ensures
            final(self).wf(),
            old(self)@.memories.contains_key(m.0@) ==> final(self)@ == old(self)@,
            !old(self)@.memories.contains_key(m.0@) ==> final(self)@ == (DeviceBuilderModel {
                memories: old(self)@.memories.insert(m.0@, m.1),
                ..old(self)@
            }),
    {
        let MemElem(name, mem) = m;
        if !self.memories.contains(name.as_str()) {
            self.memories.insert(name, mem);
            proof {
                assert(final(self)@ =~= DeviceBuilderModel {
                    memories: old(self)@.memories.insert(m.0@, m.1),
                    ..old(self)@
                });
            }
        }
    }

    /// Append one flash algorithm of this level.
    pub fn add_algorithm(&mut self, alg: Algorithm)
        requires
            old(self).wf(),
        ensures
            final(self).wf(),
            final(self)@ == (DeviceBuilderModel {
                algorithms: old(self)@.algorithms.push(alg@),
                ..old(self)@
            }),
    {
        self.algorithms.push(alg);
        proof {
            assert(self.algorithms.deep_view() =~= old(self).algorithms.deep_view().push(
                self.algorithms@.last()@,
            ));
            assert(final(self)@ =~= DeviceBuilderModel {
                algorithms: old(self)@.algorithms.push(alg@),
                ..old(self)@
            });
        }
    }

    /// Absorb one sibling `processor` element: an empty slot takes it, an
    /// occupied one merges name-wise where both are asymmetric.
    pub fn add_processor(&mut self, p: ProcessorsBuilder)
        requires
            old(self).wf(),
            p.wf(),
        ensures
            final(self).wf(),
            final(self)@ == (DeviceBuilderModel {
                processor: match old(self)@.processor {
                    None => Some(p@),
                    Some(slot) => Some(s_merge_into(slot, p@)),
                },
                ..old(self)@
            }),
    {
        let mut cur: Option<ProcessorsBuilder> = None;
        core::mem::swap(&mut self.processor, &mut cur);
        match cur {
            None => {
                self.processor = Some(p);
            },
            Some(mut slot) => {
                slot.merge_into(p);
                self.processor = Some(slot);
            },
        }
        proof {
            assert(final(self)@ =~= DeviceBuilderModel {
                processor: match old(self)@.processor {
                    None => Some(p@),
                    Some(slot) => Some(s_merge_into(slot, p@)),
                },
                ..old(self)@
            });
        }
    }

    /// Fold an enclosing level's contributions into this builder.
    pub fn add_parent(self, parent: &Self) -> (r: Result<DeviceBuilder, ParseError>)
        requires
            self.wf(),
            parent.wf(),
        ensures
            r is Ok <==> s_add_parent(self@, parent@) is Some,
            r matches Ok(b) ==> b@ == s_add_parent(self@, parent@).unwrap() && b.wf(),
            r is Err ==> r matches Err(ParseError::ProcessorMergeConflict),
    {
        let DeviceBuilder { name, algorithms, memories, processor } = self;
        let merged_proc: Option<ProcessorsBuilder> = match processor {
            Some(op) => match op.merge(&parent.processor) {
                Ok(m) => Some(m),
                Err(e) => {
                    return Err(e);
                },
            },
            None => match &parent.processor {
                Some(pp) => Some(pp.duplicate()),
                None => None,
            },
        };
        let mut algs = clone_algorithms(&parent.algorithms);
        let mut mine = algorithms;
        algs.append(&mut mine);
        let new_name = match name {
            Some(n) => Some(n),
            None => match &parent.name {
                Some(pn) => Some(pn.clone()),
                None => None,
            },
        };
        let r = DeviceBuilder {
            name: new_name,
            algorithms: algs,
            memories: merge_memories(memories, &parent.memories),
            processor: merged_proc,
        };
        proof {
            assert(r.algorithms.deep_view() =~= parent@.algorithms + self@.algorithms);
            assert(r@ =~= s_add_parent(self@, parent@).unwrap());
        }
        Ok(r)
    }

    /// Finalize this builder into a device.
    pub fn build(self) -> (r: Result<Device, ParseError>)
        requires
            self.wf(),
        ensures
            r is Ok <==> s_build_db(self@) is Some,
            r matches Ok(d) ==> d@ == s_build_db(self@).unwrap() && d.wf(),
            (self@.name is None || (self@.name is Some && self@.name.unwrap().len() == 0))
                ==> r matches Err(ParseError::MissingName),
            (self@.name is Some && self@.name.unwrap().len() > 0 && self@.processor is None)
                ==> (r matches Err(ParseError::MissingProcessor(m)) && m@ == self@.name.unwrap()),
            (self@.name is Some && self@.name.unwrap().len() > 0 && self@.processor is Some
                && s_build_procs(self@.processor.unwrap()) is None) ==> (r matches Err(
                ParseError::MissingCore(m),
            ) && m@ == self@.name.unwrap()),
    {
        let name = match self.name {
            Some(n) => n,
            None => {
                return Err(ParseError::MissingName);
            },
        };
        if name.as_str().is_empty() {
            return Err(ParseError::MissingName);
        }
        let processor = match self.processor {
            Some(pb) => match pb.build() {
                Ok(p) => p,
                Err(_) => {
                    return Err(ParseError::MissingCore(name));
                },
            },
            None => {
                return Err(ParseError::MissingProcessor(name));
            },
        };
        Ok(Device { name, memories: self.memories, algorithms: self.algorithms, processor })
    }
}

impl Device {
    /// A finished device carries a non-empty name, distinct region names,
    /// and a well-formed processor description.
    pub open spec fn wf(self) -> bool {
        self.name@.len() > 0 && self.memories.wf() && self.processor.wf()
    }
}

/// An explicit copy of an algorithm list, entry for entry.
fn clone_algorithms(v: &Vec<Algorithm>) -> (r: Vec<Algorithm>)
    ensures
        r.deep_view() == v.deep_view(),
{
    let n = v.len();
    let mut r: Vec<Algorithm> = Vec::new();
    let mut i: usize = 0;
    while i < n
        invariant
            0 <= i <= n,
            n == v.len(),
            r@.len() == i,
            forall|j: int| 0 <= j < i ==> (#[trigger] r@[j])@ == v@[j]@,
        decreases n - i,
    {
        r.push(
            Algorithm {
                file_name: v[i].file_name.clone(),
                start: v[i].start,
                size: v[i].size,
                default: v[i].default,
                ram_start: v[i].ram_start,
                ram_size: v[i].ram_size,
            },
        );
        i += 1;
    }
    proof {
        assert(r.deep_view() =~= v.deep_view());
    }
    r
}

/// The variant builders among a device element's children, in document
/// order.
pub open spec fn s_variants(cs: Seq<XmlElement>) -> Seq<DeviceBuilderModel>
    decreases cs.len(),
{
    if cs.len() == 0 {
        Seq::<DeviceBuilderModel>::empty()
    } else {
        s_variants(cs.drop_last()) + (if cs.last().name@ == "variant"@ {
            seq![s_base_builder(cs.last())]
        } else {
            Seq::<DeviceBuilderModel>::empty()
        })
    }
}

/// Each builder merged with its enclosing level; one whose processor slot
/// conflicts with the level's is dropped.
pub open spec fn s_merge_parent_all(
    bs: Seq<DeviceBuilderModel>,
    p: DeviceBuilderModel,
) -> Seq<DeviceBuilderModel>
    decreases bs.len(),
{
    if bs.len() == 0 {
        Seq::<DeviceBuilderModel>::empty()
    } else {
        s_merge_parent_all(bs.drop_last(), p) + (match s_add_parent(bs.last(), p) {
            Some(m) => seq![m],
            None => Seq::<DeviceBuilderModel>::empty(),
        })
    }
}

/// The builders a `device` element denotes: its variants, each inheriting
/// the device level; a device without variants stands for itself.
pub open spec fn s_parse_device(e: XmlElement) -> Seq<DeviceBuilderModel> {
    let lvl = s_level_builder(e);
    let vars = s_variants(e.children@);
    if vars.len() == 0 {
        seq![lvl]
    } else {
        s_merge_parent_all(vars, lvl)
    }
}

/// The builders the device children of a `subFamily` element denote.
pub open spec fn s_sub_children(cs: Seq<XmlElement>) -> Seq<DeviceBuilderModel>
    decreases cs.len(),
{
    if cs.len() == 0 {
        Seq::<DeviceBuilderModel>::empty()
    } else {
        s_sub_children(cs.drop_last()) + (if cs.last().name@ == "device"@ {
            s_parse_device(cs.last())
        } else {
            Seq::<DeviceBuilderModel>::empty()
        })
    }
}

/// The builders a `subFamily` element denotes: every device below it,
/// each inheriting the subFamily level.
pub open spec fn s_parse_sub_family(e: XmlElement) -> Seq<DeviceBuilderModel> {
    s_merge_parent_all(s_sub_children(e.children@), s_level_builder(e))
}

/// The builders the subFamily and device children of a `family` element
/// denote.
pub open spec fn s_fam_children(cs: Seq<XmlElement>) -> Seq<DeviceBuilderModel>
    decreases cs.len(),
{
    if cs.len() == 0 {
        Seq::<DeviceBuilderModel>::empty()
    } else {
        s_fam_children(cs.drop_last()) + (if cs.last().name@ == "subFamily"@ {
            s_parse_sub_family(cs.last())
        } else if cs.last().name@ == "device"@ {
            s_parse_device(cs.last())
        } else {
            Seq::<DeviceBuilderModel>::empty()
        })
    }
}

/// Each builder merged with the family level and finalized; one that
/// conflicts or does not build is dropped, its siblings stand.
pub open spec fn s_finalize_all(bs: Seq<DeviceBuilderModel>, p: DeviceBuilderModel) -> Seq<
    DeviceModel,
>
    decreases bs.len(),
{
    if bs.len() == 0 {
        Seq::<DeviceModel>::empty()
    } else {
        s_finalize_all(bs.drop_last(), p) + (match s_add_parent(bs.last(), p) {
            Some(m) => match s_build_db(m) {
                Some(d) => seq![d],
                None => Seq::<DeviceModel>::empty(),
            },
            None => Seq::<DeviceModel>::empty(),
        })
    }
}

/// The devices a `family` element denotes.
pub open spec fn s_parse_family(e: XmlElement) -> Seq<DeviceModel> {
    s_finalize_all(s_fam_children(e.children@), s_level_builder(e))
}

/// Popping the front of a vector shifts its element-wise view by one.
pub proof fn lemma_deep_view_shift<T: DeepView>(pre: Seq<T>, post: Seq<T>, g: Seq<T::V>, k: int)
    requires
        pre.len() > 0,
        post == pre.remove(0),
        0 <= k,
        k + pre.len() == g.len(),
        Seq::new(pre.len(), |i: int| pre[i].deep_view()) == g.skip(k),
    ensures
        Seq::new(post.len(), |i: int| post[i].deep_view()) =~= g.skip(k + 1),
        pre[0].deep_view() == g[k],
{
    assert forall|j: int|
        0 <= j < post.len() implies (#[trigger] post[j].deep_view()) == g.skip(k + 1)[j] by {
        assert(post[j] == pre[j + 1]);
        assert(Seq::new(pre.len(), |i: int| pre[i].deep_view())[j + 1] == pre[j + 1].deep_view());
        assert(g.skip(k)[j + 1] == g[k + j + 1]);
    }
    assert(Seq::new(pre.len(), |i: int| pre[i].deep_view())[0] == pre[0].deep_view());
}

/// The child tag names are pairwise distinct.
proof fn lemma_tag_names()
    ensures
        "variant"@ != "memory"@,
        "variant"@ != "algorithm"@,
        "variant"@ != "processor"@,
        "device"@ != "memory"@,
        "device"@ != "algorithm"@,
        "device"@ != "processor"@,
        "subFamily"@ != "device"@,
        "subFamily"@ != "memory"@,
        "subFamily"@ != "algorithm"@,
        "subFamily"@ != "processor"@,
        "memory"@ != "algorithm"@,
        "memory"@ != "processor"@,
        "algorithm"@ != "processor"@,
{
    reveal_strlit("variant");
    reveal_strlit("device");
    reveal_strlit("subFamily");
    reveal_strlit("memory");
    reveal_strlit("algorithm");
    reveal_strlit("processor");
    assert("variant"@[0] == 'v');
    assert("device"@[0] == 'd');
    assert("subFamily"@[0] == 's');
    assert("memory"@[0] == 'm');
    assert("algorithm"@[0] == 'a');
    assert("processor"@[0] == 'p');
    assert("variant"@.len() == 7);
    assert("device"@.len() == 6);
    assert("subFamily"@.len() == 9);
    assert("memory"@.len() == 6);
    assert("algorithm"@.len() == 9);
    assert("processor"@.len() == 9);
}

/// One step of the children fold.
proof fn lemma_fold_step(b: DeviceBuilderModel, cs: Seq<XmlElement>, i: int)
    requires
        0 <= i < cs.len(),
    ensures
        s_fold_children(b, cs.take(i + 1)) == s_apply_child(s_fold_children(b, cs.take(i)), cs[i]),
{
    assert(cs.take(i + 1).drop_last() =~= cs.take(i));
    assert(cs.take(i + 1).last() == cs[i]);
}

/// One step of the variant collection.
proof fn lemma_variants_step(cs: Seq<XmlElement>, i: int)
    requires
        0 <= i < cs.len(),
    ensures
        cs[i].name@ == "variant"@ ==> s_variants(cs.take(i + 1)) == s_variants(cs.take(i)).push(
            s_base_builder(cs[i]),
        ),
        cs[i].name@ != "variant"@ ==> s_variants(cs.take(i + 1)) == s_variants(cs.take(i)),
{
    assert(cs.take(i + 1).drop_last() =~= cs.take(i));
    assert(cs.take(i + 1).last() == cs[i]);
    if cs[i].name@ == "variant"@ {
        assert(s_variants(cs.take(i + 1)) =~= s_variants(cs.take(i)).push(s_base_builder(cs[i])));
    } else {
        assert(s_variants(cs.take(i + 1)) =~= s_variants(cs.take(i)));
    }
}

/// One step of the subFamily device collection.
proof fn lemma_sub_children_step(cs: Seq<XmlElement>, i: int)
    requires
        0 <= i < cs.len(),
    ensures
        cs[i].name@ == "device"@ ==> s_sub_children(cs.take(i + 1)) == s_sub_children(cs.take(i))
            + s_parse_device(cs[i]),
        cs[i].name@ != "device"@ ==> s_sub_children(cs.take(i + 1)) == s_sub_children(cs.take(i)),
{
    assert(cs.take(i + 1).drop_last() =~= cs.take(i));
    assert(cs.take(i + 1).last() == cs[i]);
    if cs[i].name@ == "device"@ {
        assert(s_sub_children(cs.take(i + 1)) =~= s_sub_children(cs.take(i)) + s_parse_device(
            cs[i],
        ));
    } else {
        assert(s_sub_children(cs.take(i + 1)) =~= s_sub_children(cs.take(i)) + Seq::<
            DeviceBuilderModel,
        >::empty());
        assert(s_sub_children(cs.take(i)) + Seq::<DeviceBuilderModel>::empty() =~= s_sub_children(
            cs.take(i),
        ));
    }
}

/// One step of the family child collection.
proof fn lemma_fam_children_step(cs: Seq<XmlElement>, i: int)
    requires
        0 <= i < cs.len(),
    ensures
        cs[i].name@ == "subFamily"@ ==> s_fam_children(cs.take(i + 1)) == s_fam_children(
            cs.take(i),
        ) + s_parse_sub_family(cs[i]),
        cs[i].name@ != "subFamily"@ && cs[i].name@ == "device"@ ==> s_fam_children(
            cs.take(i + 1),
        ) == s_fam_children(cs.take(i)) + s_parse_device(cs[i]),
        cs[i].name@ != "subFamily"@ && cs[i].name@ != "device"@ ==> s_fam_children(
            cs.take(i + 1),
        ) == s_fam_children(cs.take(i)),
{
    assert(cs.take(i + 1).drop_last() =~= cs.take(i));
    assert(cs.take(i + 1).last() == cs[i]);
    if cs[i].name@ == "subFamily"@ {
        assert(s_fam_children(cs.take(i + 1)) =~= s_fam_children(cs.take(i))
            + s_parse_sub_family(cs[i]));
    } else if cs[i].name@ == "device"@ {
        assert(s_fam_children(cs.take(i + 1)) =~= s_fam_children(cs.take(i)) + s_parse_device(
            cs[i],
        ));
    } else {
        assert(s_fam_children(cs.take(i + 1)) =~= s_fam_children(cs.take(i)) + Seq::<
            DeviceBuilderModel,
        >::empty());
        assert(s_fam_children(cs.take(i)) + Seq::<DeviceBuilderModel>::empty() =~= s_fam_children(
            cs.take(i),
        ));
    }
}

/// Parse a `device` element into one builder per leaf: its variants if it
/// has any, else the device itself. A variant whose processor conflicts
/// with the device level is dropped.
#[verifier::loop_isolation(false)]
pub fn parse_device(e: &XmlElement) -> (r: Vec<DeviceBuilder>)
    ensures
        r.deep_view() == s_parse_device(*e),
        forall|i: int| 0 <= i < r@.len() ==> (#[trigger] r@[i]).wf(),
{
    let mut lvl = DeviceBuilder::from_elem(e);
    let mut vars: Vec<DeviceBuilder> = Vec::new();
    let n = e.children.len();
    let mut i: usize = 0;
    proof {
        assert(e.children@.take(0) =~= Seq::<XmlElement>::empty());
    }
    while i < n
        invariant
            0 <= i <= n,
            lvl@ == s_fold_children(s_base_builder(*e), e.children@.take(i as int)),
            lvl.wf(),
            vars.deep_view() == s_variants(e.children@.take(i as int)),
            forall|j: int| 0 <= j < vars@.len() ==> (#[trigger] vars@[j]).wf(),
        decreases n - i,
    {
        let c = &e.children[i];
        let ghost lp = lvl@;
        let ghost vp = vars.deep_view();
        proof {
            lemma_fold_step(s_base_builder(*e), e.children@, i as int);
            lemma_variants_step(e.children@, i as int);
        }
        if str_eq(c.name.as_str(), "variant") {
            vars.push(DeviceBuilder::from_elem(c));
            proof {
                lemma_tag_names();
                assert(vars.deep_view() =~= vp.push(s_base_builder(*c)));
                assert(lvl@ =~= s_apply_child(lp, *c));
            }
        } else if str_eq(c.name.as_str(), "memory") {
            match MemElem::from_elem(c) {
                Ok(m) => lvl.add_memory(m),
                Err(_) => (),
            }
            proof {
                assert(lvl@ =~= s_apply_child(lp, *c));
            }
        } else if str_eq(c.name.as_str(), "algorithm") {
            match Algorithm::from_elem(c) {
                Ok(a) => lvl.add_algorithm(a),
                Err(_) => (),
            }
            proof {
                lemma_tag_names();
                assert(lvl@ =~= s_apply_child(lp, *c));
            }
        } else if str_eq(c.name.as_str(), "processor") {
            lvl.add_processor(ProcessorsBuilder::from_elem(c));
            proof {
                lemma_tag_names();
                assert(lvl@ =~= s_apply_child(lp, *c));
            }
        } else {
            proof {
                assert(lvl@ =~= s_apply_child(lp, *c));
            }
        }
        proof {
            assert(lvl@ == s_fold_children(s_base_builder(*e), e.children@.take(i + 1)));
            assert(vars.deep_view() == s_variants(e.children@.take(i + 1)));
        }
        i += 1;
    }
    proof {
        assert(e.children@.take(n as int) =~= e.children@);
    }
    if vars.len() == 0 {
        let mut out: Vec<DeviceBuilder> = Vec::new();
        out.push(lvl);
        proof {
            assert(out.deep_view() =~= seq![s_level_builder(*e)]);
        }
        out
    } else {
        merge_parent_all(vars, &lvl)
    }
}

/// Merge each builder with its enclosing level's builder, dropping those
/// whose processor slots conflict with it.
#[verifier::loop_isolation(false)]
fn merge_parent_all(bs: Vec<DeviceBuilder>, lvl: &DeviceBuilder) -> (r: Vec<DeviceBuilder>)
    requires
        lvl.wf(),
        forall|j: int| 0 <= j < bs@.len() ==> (#[trigger] bs@[j]).wf(),
    ensures
        r.deep_view() == s_merge_parent_all(bs.deep_view(), lvl@),
        forall|i: int| 0 <= i < r@.len() ==> (#[trigger] r@[i]).wf(),
{
    let ghost gbs = bs.deep_view();
    let mut bs = bs;
    let mut out: Vec<DeviceBuilder> = Vec::new();
    let ghost k: int = 0;
    proof {
        assert(gbs.take(0) =~= Seq::<DeviceBuilderModel>::empty());
        assert(bs.deep_view() =~= gbs.skip(0));
    }
    while bs.len() > 0
        invariant
            0 <= k <= gbs.len(),
            k + bs@.len() == gbs.len(),
            bs.deep_view() == gbs.skip(k),
            forall|j: int| 0 <= j < bs@.len() ==> (#[trigger] bs@[j]).wf(),
            out.deep_view() == s_merge_parent_all(gbs.take(k), lvl@),
            forall|j: int| 0 <= j < out@.len() ==> (#[trigger] out@[j]).wf(),
        decreases bs@.len(),
    {
        let ghost pre = bs@;
        let b = bs.remove(0);
        proof {
            lemma_deep_view_shift(pre, bs@, gbs, k);
            assert(b.deep_view() == gbs[k]);
            assert(gbs.take(k + 1).drop_last() =~= gbs.take(k));
            assert(gbs.take(k + 1).last() == gbs[k]);
        }
        let ghost preout = out.deep_view();
        match b.add_parent(lvl) {
            Ok(m) => {
                out.push(m);
                proof {
                    assert(out.deep_view() =~= preout.push(s_add_parent(gbs[k], lvl@).unwrap()));
                    assert(out.deep_view() =~= s_merge_parent_all(gbs.take(k + 1), lvl@));
                }
            },
            Err(_) => {
                proof {
                    assert(preout + Seq::<DeviceBuilderModel>::empty() =~= preout);
                    assert(out.deep_view() =~= s_merge_parent_all(gbs.take(k + 1), lvl@));
                }
            },
        }
        proof {
            k = k + 1;
        }
    }
    proof {
        assert(gbs.take(gbs.len() as int) =~= gbs);
        assert(k == gbs.len());
    }
    out
}

/// Parse a `subFamily` element into the builders of every device below
/// it, each inheriting the subFamily level's contributions.
#[verifier::loop_isolation(false)]
pub fn parse_sub_family(e: &XmlElement) -> (r: Vec<DeviceBuilder>)
    ensures
        r.deep_view() == s_parse_sub_family(*e),
        forall|i: int| 0 <= i < r@.len() ==> (#[trigger] r@[i]).wf(),
{
    let mut lvl = DeviceBuilder::from_elem(e);
    let mut devs: Vec<DeviceBuilder> = Vec::new();
    let n = e.children.len();
    let mut i: usize = 0;
    proof {
        assert(e.children@.take(0) =~= Seq::<XmlElement>::empty());
    }
    while i < n
        invariant
            0 <= i <= n,
            lvl@ == s_fold_children(s_base_builder(*e), e.children@.take(i as int)),
            lvl.wf(),
            devs.deep_view() == s_sub_children(e.children@.take(i as int)),
            forall|j: int| 0 <= j < devs@.len() ==> (#[trigger] devs@[j]).wf(),
        decreases n - i,
    {
        let c = &e.children[i];
        let ghost lp = lvl@;
        let ghost dp = devs.deep_view();
        proof {
            lemma_fold_step(s_base_builder(*e), e.children@, i as int);
            lemma_sub_children_step(e.children@, i as int);
        }
        if str_eq(c.name.as_str(), "device") {
            let mut ds = parse_device(c);
            let ghost gds = ds.deep_view();
            devs.append(&mut ds);
            proof {
                lemma_tag_names();
                assert(devs.deep_view() =~= dp + gds);
                assert(lvl@ =~= s_apply_child(lp, *c));
            }
        } else if str_eq(c.name.as_str(), "memory") {
            match MemElem::from_elem(c) {
                Ok(m) => lvl.add_memory(m),
                Err(_) => (),
            }
            proof {
                lemma_tag_names();
                assert(lvl@ =~= s_apply_child(lp, *c));
            }
        } else if str_eq(c.name.as_str(), "algorithm") {
            match Algorithm::from_elem(c) {
                Ok(a) => lvl.add_algorithm(a),
                Err(_) => (),
            }
            proof {
                lemma_tag_names();
                assert(lvl@ =~= s_apply_child(lp, *c));
            }
        } else if str_eq(c.name.as_str(), "processor") {
            lvl.add_processor(ProcessorsBuilder::from_elem(c));
            proof {
                lemma_tag_names();
                assert(lvl@ =~= s_apply_child(lp, *c));
            }
        } else {
            proof {
                assert(lvl@ =~= s_apply_child(lp, *c));
            }
        }
        proof {
            assert(lvl@ == s_fold_children(s_base_builder(*e), e.children@.take(i + 1)));
            assert(devs.deep_view() == s_sub_children(e.children@.take(i + 1)));
        }
        i += 1;
    }
    proof {
        assert(e.children@.take(n as int) =~= e.children@);
    }
    merge_parent_all(devs, &lvl)
}

/// Parse a `family` element into its fully materialized devices. A device
/// that conflicts with its ancestors or fails to build is dropped; its
/// siblings stand.
#[verifier::loop_isolation(false)]
pub fn parse_family(e: &XmlElement) -> (r: Vec<Device>)
    ensures
        r.deep_view() == s_parse_family(*e),
        forall|i: int| 0 <= i < r@.len() ==> (#[trigger] r@[i]).wf(),
{
    let mut lvl = DeviceBuilder::from_elem(e);
    let mut all: Vec<DeviceBuilder> = Vec::new();
    let n = e.children.len();
    let mut i: usize = 0;
    proof {
        assert(e.children@.take(0) =~= Seq::<XmlElement>::empty());
    }
    while i < n
        invariant
            0 <= i <= n,
            lvl@ == s_fold_children(s_base_builder(*e), e.children@.take(i as int)),
            lvl.wf(),
            all.deep_view() == s_fam_children(e.children@.take(i as int)),
            forall|j: int| 0 <= j < all@.len() ==> (#[trigger] all@[j]).wf(),
        decreases n - i,
    {
        let c = &e.children[i];
        let ghost lp = lvl@;
        let ghost ap = all.deep_view();
        proof {
            lemma_fold_step(s_base_builder(*e), e.children@, i as int);
            lemma_fam_children_step(e.children@, i as int);
        }
        if str_eq(c.name.as_str(), "subFamily") {
            let mut ds = parse_sub_family(c);
            let ghost gds = ds.deep_view();
            all.append(&mut ds);
            proof {
                lemma_tag_names();
                assert(all.deep_view() =~= ap + gds);
                assert(lvl@ =~= s_apply_child(lp, *c));
            }
        } else if str_eq(c.name.as_str(), "device") {
            let mut ds = parse_device(c);
            let ghost gds = ds.deep_view();
            all.append(&mut ds);
            proof {
                lemma_tag_names();
                assert(all.deep_view() =~= ap + gds);
                assert(lvl@ =~= s_apply_child(lp, *c));
            }
        } else if str_eq(c.name.as_str(), "memory") {
            match MemElem::from_elem(c) {
                Ok(m) => lvl.add_memory(m),
                Err(_) => (),
            }
            proof {
                lemma_tag_names();
                assert(lvl@ =~= s_apply_child(lp, *c));
            }
        } else if str_eq(c.name.as_str(), "algorithm") {
            match Algorithm::from_elem(c) {
                Ok(a) => lvl.add_algorithm(a),
                Err(_) => (),
            }
            proof {
                lemma_tag_names();
                assert(lvl@ =~= s_apply_child(lp, *c));
            }
        } else if str_eq(c.name.as_str(), "processor") {
            lvl.add_processor(ProcessorsBuilder::from_elem(c));
            proof {
                lemma_tag_names();
                assert(lvl@ =~= s_apply_child(lp, *c));
            }
        } else {
            proof {
                assert(lvl@ =~= s_apply_child(lp, *c));
            }
        }
        proof {
            assert(lvl@ == s_fold_children(s_base_builder(*e), e.children@.take(i + 1)));
            assert(all.deep_view() == s_fam_children(e.children@.take(i + 1)));
        }
        i += 1;
    }
    proof {
        assert(e.children@.take(n as int) =~= e.children@);
    }
    let ghost gall = all.deep_view();
    let mut all = all;
    let mut out: Vec<Device> = Vec::new();
    let ghost k: int = 0;
    proof {
        assert(gall.take(0) =~= Seq::<DeviceBuilderModel>::empty());
        assert(all.deep_view() =~= gall.skip(0));
    }
    while all.len() > 0
        invariant
            0 <= k <= gall.len(),
            k + all@.len() == gall.len(),
            all.deep_view() == gall.skip(k),
            forall|j: int| 0 <= j < all@.len() ==> (#[trigger] all@[j]).wf(),
            out.deep_view() == s_finalize_all(gall.take(k), lvl@),
            forall|j: int| 0 <= j < out@.len() ==> (#[trigger] out@[j]).wf(),
        decreases all@.len(),
    {
        let ghost pre = all@;
        let b = all.remove(0);
        proof {
            lemma_deep_view_shift(pre, all@, gall, k);
            assert(b.deep_view() == gall[k]);
            assert(gall.take(k + 1).drop_last() =~= gall.take(k));
            assert(gall.take(k + 1).last() == gall[k]);
        }
        let ghost preout = out.deep_view();
        match b.add_parent(&lvl) {
            Ok(m) => match m.build() {
                Ok(d) => {
                    out.push(d);
                    proof {
                        assert(out.deep_view() =~= preout.push(
                            s_build_db(s_add_parent(gall[k], lvl@).unwrap()).unwrap(),
                        ));
                        assert(out.deep_view() =~= s_finalize_all(gall.take(k + 1), lvl@));
                    }
                },
                Err(_) => {
                    proof {
                        assert(preout + Seq::<DeviceModel>::empty() =~= preout);
                        assert(out.deep_view() =~= s_finalize_all(gall.take(k + 1), lvl@));
                    }
                },
            },
            Err(_) => {
                proof {
                    assert(preout + Seq::<DeviceModel>::empty() =~= preout);
                    assert(out.deep_view() =~= s_finalize_all(gall.take(k + 1), lvl@));
                }
            },
        }
        proof {
            k = k + 1;
        }
    }
    proof {
        assert(gall.take(gall.len() as int) =~= gall);
        assert(k == gall.len());
    }
    out
}

/// A catalog of devices inserted in order, a later device replacing an
/// earlier one of the same name.
pub open spec fn s_insert_devices(m: Map<Seq<char>, DeviceModel>, ds: Seq<DeviceModel>) -> Map<
    Seq<char>,
    DeviceModel,
>
    decreases ds.len(),
{
    if ds.len() == 0 {
        m
    } else {
        s_insert_devices(m, ds.drop_last()).insert(ds.last().name, ds.last())
    }
}

/// The catalog the family children of a root element denote, folded in
/// document order; a name two families both produce keeps the later one.
pub open spec fn s_devices_fold(m: Map<Seq<char>, DeviceModel>, cs: Seq<XmlElement>) -> Map<
    Seq<char>,
    DeviceModel,
>
    decreases cs.len(),
{
    if cs.len() == 0 {
        m
    } else {
        s_insert_devices(s_devices_fold(m, cs.drop_last()), s_parse_family(cs.last()))
    }
}

/// The catalog a `devices` element denotes.
pub open spec fn s_devices(e: XmlElement) -> Map<Seq<char>, DeviceModel> {
    s_devices_fold(Map::<Seq<char>, DeviceModel>::empty(), e.children@)
}

/// The device catalog of one parsed pack description: device name to
/// device.
#[derive(Debug)]
pub struct Devices(pub Vec<(String, Device)>);

impl View for Devices {
    type V = Map<Seq<char>, DeviceModel>;

    open spec fn view(&self) -> Map<Seq<char>, DeviceModel> {
        assoc_map(self.0@).map_values(|d: Device| d@)
    }
}

impl Devices {
    /// Names are distinct, each entry is keyed by its device's name, and
    /// every device is well formed.
    pub open spec fn wf(self) -> bool {
        assoc_keys_unique(self.0@) && forall|i: int|
            0 <= i < self.0@.len() ==> (#[trigger] self.0@[i]).1.wf() && self.0@[i].0@
                == self.0@[i].1.name@
    }

    /// Parse the `devices` subtree of a pack description: every child is
    /// taken as a family.
    #[verifier::loop_isolation(false)]
    pub fn from_elem(e: &XmlElement) -> (r: Devices)
        ensures
            r@ == s_devices(*e),
            r.wf(),
    {
        let mut v: Vec<(String, Device)> = Vec::new();
        let n = e.children.len();
        let mut i: usize = 0;
        proof {
            assert(e.children@.take(0) =~= Seq::<XmlElement>::empty());
            assert(assoc_map(v@).map_values(|d: Device| d@) =~= s_devices_fold(
                Map::<Seq<char>, DeviceModel>::empty(),
                e.children@.take(0),
            ));
        }
        while i < n
            invariant
                0 <= i <= n,
                assoc_keys_unique(v@),
                assoc_map(v@).map_values(|d: Device| d@) == s_devices_fold(
                    Map::<Seq<char>, DeviceModel>::empty(),
                    e.children@.take(i as int),
                ),
                forall|j: int|
                    0 <= j < v@.len() ==> (#[trigger] v@[j]).1.wf() && v@[j].0@ == v@[j].1.name@,
            decreases n - i,
        {
            proof {
                assert(e.children@.take(i + 1).drop_last() =~= e.children@.take(i as int));
                assert(e.children@.take(i + 1).last() == e.children@[i as int]);
            }
            let mut ds = parse_family(&e.children[i]);
            let ghost gds = ds.deep_view();
            let ghost mpre = assoc_map(v@).map_values(|d: Device| d@);
            let ghost kk: int = 0;
            proof {
                assert(gds.take(0) =~= Seq::<DeviceModel>::empty());
                assert(ds.deep_view() =~= gds.skip(0));
            }
            while ds.len() > 0
                invariant
                    0 <= kk <= gds.len(),
                    ds.deep_view() == gds.skip(kk),
                    forall|j: int| 0 <= j < ds@.len() ==> (#[trigger] ds@[j]).wf(),
                    assoc_keys_unique(v@),
                    assoc_map(v@).map_values(|d: Device| d@) == s_insert_devices(mpre, gds.take(kk)),
                    forall|j: int|
                        0 <= j < v@.len() ==> (#[trigger] v@[j]).1.wf() && v@[j].0@
                            == v@[j].1.name@,
                decreases ds@.len(),
            {
                let ghost pre = ds@;
                let d = ds.remove(0);
                proof {
                    lemma_deep_view_shift(pre, ds@, gds, kk);
                    assert(d@ == gds[kk]);
                    assert(ds.deep_view() =~= gds.skip(kk + 1));
                    assert(gds.take(kk + 1).drop_last() =~= gds.take(kk));
                    assert(gds.take(kk + 1).last() == gds[kk]);
                }
                let key = d.name.clone();
                let ghost vpre = v@;
                assoc_insert(&mut v, key, d);
                proof {
                    assert(assoc_map(v@).map_values(|d: Device| d@) =~= s_insert_devices(
                        mpre,
                        gds.take(kk + 1),
                    ));
                    assert forall|j: int|
                        0 <= j < v@.len() implies (#[trigger] v@[j]).1.wf() && v@[j].0@
                            == v@[j].1.name@ by {
                        if v@[j] != (key, d) {
                            let m = choose|m: int| 0 <= m < vpre.len() && v@[j] == vpre[m];
                            assert(vpre[m].1.wf());
                        }
                    }
                    kk = kk + 1;
                }
            }
            proof {
                assert(gds.take(gds.len() as int) =~= gds);
                assert(kk == gds.len());
            }
            i += 1;
        }
        proof {
            assert(e.children@.take(n as int) =~= e.children@);
        }
        Devices(v)
    }

    /// Look a device up by name.
    pub fn get(&self, name: &str) -> (r: Option<&Device>)
        requires
            self.wf(),
        ensures
            match r {
                Some(d) => self@.contains_key(name@) && d@ == self@[name@],
                None => !self@.contains_key(name@),
            },
    {
        proof {
            assert(self@.dom() =~= assoc_map(self.0@).dom());
        }
        assoc_get(&self.0, name)
    }
}

/// The shape every device a catalog holds has: a non-empty name, and a
/// processor description that is symmetric or a non-empty named map.
pub open spec fn s_device_wf(d: DeviceModel) -> bool {
    d.name.len() > 0 && match d.processor {
        ProcsModel::Symmetric(_) => true,
        ProcsModel::Asymmetric(m) => exists|k: Seq<char>| m.contains_key(k),
    }
}

/// Whatever builds at all is well formed: the build step rejects an empty
/// name and an empty asymmetric map outright.
pub proof fn lemma_built_device_wf(db: DeviceBuilderModel)
    requires
        s_build_db(db) is Some,
    ensures
        s_device_wf(s_build_db(db).unwrap()),
{
    let d = s_build_db(db).unwrap();
    match db.processor {
        Some(pm) => match pm {
            ProcsBuilderModel::Symmetric(_) => {},
            ProcsBuilderModel::Asymmetric(bm) => {
                assert(!(bm.dom() =~= Set::<Seq<char>>::empty()));
                if !(exists|k: Seq<char>| bm.dom().contains(k)) {
                    assert(bm.dom() =~= Set::<Seq<char>>::empty());
                }
                let k = choose|k: Seq<char>| bm.dom().contains(k);
                match d.processor {
                    ProcsModel::Asymmetric(m2) => {
                        assert(m2.contains_key(k));
                    },
                    ProcsModel::Symmetric(_) => {},
                }
            },
        },
        None => {},
    }
}

proof fn lemma_finalize_all_wf(bs: Seq<DeviceBuilderModel>, p: DeviceBuilderModel, i: int)
    requires
        0 <= i < s_finalize_all(bs, p).len(),
    ensures
        s_device_wf(s_finalize_all(bs, p)[i]),
    decreases bs.len(),
{
    if bs.len() > 0 {
        let prev = s_finalize_all(bs.drop_last(), p);
        if i < prev.len() {
            lemma_finalize_all_wf(bs.drop_last(), p, i);
        } else {
            match s_add_parent(bs.last(), p) {
                Some(m) => {
                    if s_build_db(m) is Some {
                        lemma_built_device_wf(m);
                    }
                },
                None => {},
            }
        }
    }
}

proof fn lemma_insert_devices_wf(m: Map<Seq<char>, DeviceModel>, ds: Seq<DeviceModel>)
    requires
        forall|k: Seq<char>| #[trigger] m.contains_key(k) ==> s_device_wf(m[k]),
        forall|i: int| 0 <= i < ds.len() ==> s_device_wf(#[trigger] ds[i]),
    ensures
        forall|k: Seq<char>| #[trigger]
            s_insert_devices(m, ds).contains_key(k) ==> s_device_wf(s_insert_devices(m, ds)[k]),
    decreases ds.len(),
{
    if ds.len() > 0 {
        assert forall|i: int|
            0 <= i < ds.drop_last().len() implies s_device_wf(
            #[trigger] ds.drop_last()[i],
        ) by {
            assert(ds.drop_last()[i] == ds[i]);
        }
        lemma_insert_devices_wf(m, ds.drop_last());
        assert(s_device_wf(ds.last()));
        let prev = s_insert_devices(m, ds.drop_last());
        assert forall|k: Seq<char>| #[trigger]
            s_insert_devices(m, ds).contains_key(k) implies s_device_wf(
            s_insert_devices(m, ds)[k],
        ) by {
            if k != ds.last().name {
                assert(prev.contains_key(k));
            }
        }
    }
}

proof fn lemma_devices_fold_wf(m: Map<Seq<char>, DeviceModel>, cs: Seq<XmlElement>)
    requires
        forall|k: Seq<char>| #[trigger] m.contains_key(k) ==> s_device_wf(m[k]),
    ensures
        forall|k: Seq<char>| #[trigger]
            s_devices_fold(m, cs).contains_key(k) ==> s_device_wf(s_devices_fold(m, cs)[k]),
    decreases cs.len(),
{
    if cs.len() > 0 {
        lemma_devices_fold_wf(m, cs.drop_last());
        assert forall|i: int|
            0 <= i < s_parse_family(cs.last()).len() implies s_device_wf(
            #[trigger] s_parse_family(cs.last())[i],
        ) by {
            lemma_finalize_all_wf(
                s_fam_children(cs.last().children@),
                s_level_builder(cs.last()),
                i,
            );
        }
        lemma_insert_devices_wf(s_devices_fold(m, cs.drop_last()), s_parse_family(cs.last()));
    }
}

/// Every device a catalog holds is well formed: its name is non-empty, and
/// its processor description is symmetric or a non-empty named map.
pub proof fn lemma_catalog_devices_wf(e: XmlElement, k: Seq<char>)
    requires
        s_devices(e).contains_key(k),
    ensures
        s_device_wf(s_devices(e)[k]),
{
    lemma_devices_fold_wf(Map::<Seq<char>, DeviceModel>::empty(), e.children@);
}

/// The region names of every device a parsed catalog holds are pairwise
/// distinct.
pub proof fn lemma_catalog_regions_unique(ds: Devices, i: int)
    requires
        ds.wf(),
        0 <= i < ds.0@.len(),
    ensures
        assoc_keys_unique(ds.0@[i].1.memories.0@),
{
    assert(ds.0@[i].1.wf());
}

/// A region name the child declares keeps the child's region, whatever the
/// parent declared under it.
pub proof fn lemma_memory_child_wins(c: DeviceBuilderModel, p: DeviceBuilderModel, k: Seq<char>)
    requires
        s_add_parent(c, p) is Some,
        c.memories.contains_key(k),
    ensures
        s_add_parent(c, p).unwrap().memories.contains_key(k),
        s_add_parent(c, p).unwrap().memories[k] == c.memories[k],
{
}

/// Algorithms concatenate across inheritance: the parent's entries first,
/// then the child's, none deduplicated.
pub proof fn lemma_algorithms_concat(c: DeviceBuilderModel, p: DeviceBuilderModel)
    requires
        s_add_parent(c, p) is Some,
    ensures
        s_add_parent(c, p).unwrap().algorithms == p.algorithms + c.algorithms,
{
}

/// A symmetric and an asymmetric processor description never merge, in
/// either direction.
pub proof fn lemma_processor_merge_conflict(c: DeviceBuilderModel, p: DeviceBuilderModel)
    requires
        c.processor is Some,
        p.processor is Some,
        c.processor.unwrap() is Symmetric <==> p.processor.unwrap() is Asymmetric,
    ensures
        s_add_parent(c, p) is None,
{
}

/// A builder whose processor conflicts with its level contributes nothing:
/// the level's devices are those of its siblings alone.
pub proof fn lemma_conflicting_device_dropped(
    bs: Seq<DeviceBuilderModel>,
    p: DeviceBuilderModel,
    i: int,
)
    requires
        0 <= i < bs.len(),
        s_add_parent(bs[i], p) is None,
    ensures
        s_finalize_all(bs, p) == s_finalize_all(bs.remove(i), p),
    decreases bs.len(),
{
    if i == bs.len() - 1 {
        assert(bs.remove(i) =~= bs.drop_last());
        assert(s_finalize_all(bs, p) =~= s_finalize_all(bs.drop_last(), p));
    } else {
        assert(bs.remove(i).drop_last() =~= bs.drop_last().remove(i));
        assert(bs.drop_last()[i] == bs[i]);
        lemma_conflicting_device_dropped(bs.drop_last(), p, i);
        assert(bs.remove(i).last() == bs.last());
    }
}

/// The builder of a level that contributes nothing at all.
pub open spec fn s_empty_builder() -> DeviceBuilderModel {
    DeviceBuilderModel {
        name: None,
        memories: Map::<Seq<char>, Memory>::empty(),
        algorithms: Seq::<AlgModel>::empty(),
        processor: None,
    }
}

/// Merging an empty level changes nothing.
pub proof fn lemma_add_parent_empty(b: DeviceBuilderModel)
    ensures
        s_add_parent(b, s_empty_builder()) == Some(b),
{
    match b.processor {
        Some(cp) => {
            assert(s_merge_procs(cp, None) == Some(cp));
        },
        None => {},
    }
    assert(s_add_parent(b, s_empty_builder()).unwrap() =~= b);
}

proof fn lemma_merge_parent_all_empty(bs: Seq<DeviceBuilderModel>)
    ensures
        s_merge_parent_all(bs, s_empty_builder()) =~= bs,
    decreases bs.len(),
{
    if bs.len() > 0 {
        lemma_merge_parent_all_empty(bs.drop_last());
        lemma_add_parent_empty(bs.last());
        assert(s_merge_parent_all(bs, s_empty_builder()) =~= s_merge_parent_all(
            bs.drop_last(),
            s_empty_builder(),
        ) + seq![bs.last()]);
        assert(bs.drop_last() + seq![bs.last()] =~= bs);
    }
}

/// Children that are no memory, algorithm or processor elements contribute
/// nothing to a level's own builder.
proof fn lemma_fold_ignores(b: DeviceBuilderModel, cs: Seq<XmlElement>)
    requires
        forall|i: int|
            0 <= i < cs.len() ==> ((#[trigger] cs[i]).name@ != "memory"@ && cs[i].name@
                != "algorithm"@ && cs[i].name@ != "processor"@),
    ensures
        s_fold_children(b, cs) == b,
    decreases cs.len(),
{
    if cs.len() > 0 {
        lemma_fold_ignores(b, cs.drop_last());
        assert(cs.drop_last().len() == cs.len() - 1);
        assert(cs.last() == cs[cs.len() - 1]);
    }
}

/// Without subFamily children, a family and a subFamily collect the same
/// device builders.
proof fn lemma_sub_eq_fam(cs: Seq<XmlElement>)
    requires
        forall|i: int| 0 <= i < cs.len() ==> (#[trigger] cs[i]).name@ != "subFamily"@,
    ensures
        s_fam_children(cs) == s_sub_children(cs),
    decreases cs.len(),
{
    if cs.len() > 0 {
        assert forall|i: int|
            0 <= i < cs.drop_last().len() implies (#[trigger] cs.drop_last()[i]).name@
            != "subFamily"@ by {
            assert(cs.drop_last()[i] == cs[i]);
        }
        lemma_sub_eq_fam(cs.drop_last());
        assert(cs.last() == cs[cs.len() - 1]);
        assert(s_fam_children(cs) =~= s_sub_children(cs));
    }
}

/// Folding a level over a concatenation folds over each part in turn.
proof fn lemma_fold_children_concat(b: DeviceBuilderModel, a: Seq<XmlElement>, c: Seq<XmlElement>)
    ensures
        s_fold_children(b, a + c) == s_fold_children(s_fold_children(b, a), c),
    decreases c.len(),
{
    if c.len() == 0 {
        assert(a + c =~= a);
    } else {
        lemma_fold_children_concat(b, a, c.drop_last());
        assert((a + c).drop_last() =~= a + c.drop_last());
        assert((a + c).last() == c.last());
    }
}

/// The builders a concatenation of family children collects are those of
/// each part in turn.
proof fn lemma_fam_children_concat(a: Seq<XmlElement>, c: Seq<XmlElement>)
    ensures
        s_fam_children(a + c) == s_fam_children(a) + s_fam_children(c),
    decreases c.len(),
{
    if c.len() == 0 {
        assert(a + c =~= a);
        assert(s_fam_children(a) + s_fam_children(c) =~= s_fam_children(a));
    } else {
        lemma_fam_children_concat(a, c.drop_last());
        assert((a + c).drop_last() =~= a + c.drop_last());
        assert((a + c).last() == c.last());
        assert(s_fam_children(a + c) =~= s_fam_children(a) + s_fam_children(c));
    }
}

/// Finalizing a concatenation of builders finalizes each part in turn.
proof fn lemma_finalize_all_concat(
    a: Seq<DeviceBuilderModel>,
    c: Seq<DeviceBuilderModel>,
    p: DeviceBuilderModel,
)
    ensures
        s_finalize_all(a + c, p) == s_finalize_all(a, p) + s_finalize_all(c, p),
    decreases c.len(),
{
    if c.len() == 0 {
        assert(a + c =~= a);
        assert(s_finalize_all(a, p) + s_finalize_all(c, p) =~= s_finalize_all(a, p));
    } else {
        lemma_finalize_all_concat(a, c.drop_last(), p);
        assert((a + c).drop_last() =~= a + c.drop_last());
        assert((a + c).last() == c.last());
        assert(s_finalize_all(a + c, p) =~= s_finalize_all(a, p) + s_finalize_all(c, p));
    }
}

/// Inheritance idempotence: a subFamily that contributes nothing of its
/// own — no name attributes and no memory, algorithm, processor or nested
/// subFamily children — is transparent. A family with that subFamily among
/// its children yields exactly the devices of the same family with the
/// subFamily's children standing in its place.
pub proof fn lemma_subfamily_transparent(f1: XmlElement, f2: XmlElement, s: XmlElement, i: int)
    requires
        0 <= i < f1.children@.len(),
        f1.children@[i] == s,
        s.name@ == "subFamily"@,
        s_name_attr(s) is None,
        forall|j: int|
            0 <= j < s.children@.len() ==> ((#[trigger] s.children@[j]).name@ != "subFamily"@
                && s.children@[j].name@ != "memory"@ && s.children@[j].name@ != "algorithm"@
                && s.children@[j].name@ != "processor"@),
        f2.children@ == f1.children@.take(i) + s.children@ + f1.children@.skip(i + 1),
        s_base_builder(f1) == s_base_builder(f2),
    ensures
        s_parse_family(f1) == s_parse_family(f2),
{
    lemma_tag_names();
    let b = s_base_builder(f1);
    let pre = f1.children@.take(i);
    let post = f1.children@.skip(i + 1);
    assert(f1.children@ =~= (pre + seq![s]) + post);
    assert(f2.children@ =~= (pre + s.children@) + post);
    // the subFamily is ignored by its level, and its children would
    // contribute nothing to it either: the level builders agree
    lemma_fold_children_concat(b, pre + seq![s], post);
    lemma_fold_children_concat(b, pre, seq![s]);
    let b1 = s_fold_children(b, pre);
    assert(seq![s].drop_last() =~= Seq::<XmlElement>::empty());
    assert(seq![s].last() == s);
    assert(s_fold_children(b1, Seq::<XmlElement>::empty()) == b1);
    assert(s_fold_children(b1, seq![s]) == s_apply_child(b1, s));
    assert(s_apply_child(b1, s) == b1);
    lemma_fold_children_concat(b, pre + s.children@, post);
    lemma_fold_children_concat(b, pre, s.children@);
    lemma_fold_ignores(b1, s.children@);
    assert(s_level_builder(f1) == s_level_builder(f2));
    // the one subFamily expands to exactly the builders of its children
    lemma_fam_children_concat(pre + seq![s], post);
    lemma_fam_children_concat(pre, seq![s]);
    assert(s_fam_children(Seq::<XmlElement>::empty()) == Seq::<DeviceBuilderModel>::empty());
    assert(s_fam_children(seq![s]) =~= s_parse_sub_family(s));
    lemma_fold_ignores(s_base_builder(s), s.children@);
    assert(s_level_builder(s) == s_base_builder(s));
    assert(s_base_builder(s) =~= s_empty_builder());
    lemma_merge_parent_all_empty(s_sub_children(s.children@));
    assert(s_parse_sub_family(s) == s_sub_children(s.children@));
    lemma_sub_eq_fam(s.children@);
    lemma_fam_children_concat(pre + s.children@, post);
    lemma_fam_children_concat(pre, s.children@);
    assert(s_fam_children(f1.children@) =~= s_fam_children(f2.children@));
}

/// The symmetric/asymmetric conflict omits exactly the offending device: a
/// family yields the same devices as the same family without that device
/// child, so the device's name is absent from the catalog while every
/// sibling stands with its contents untouched.
pub proof fn lemma_conflicting_device_omitted(e: XmlElement, f2: XmlElement, i: int)
    requires
        0 <= i < e.children@.len(),
        e.children@[i].name@ == "device"@,
        s_variants(e.children@[i].children@).len() == 0,
        s_level_builder(e.children@[i]).processor is Some,
        s_level_builder(e).processor is Some,
        (s_level_builder(e.children@[i]).processor.unwrap() is Symmetric <==> s_level_builder(
            e,
        ).processor.unwrap() is Asymmetric),
        f2.children@ == e.children@.remove(i),
        s_base_builder(f2) == s_base_builder(e),
    ensures
        s_parse_family(e) == s_parse_family(f2),
{
    lemma_tag_names();
    let b = s_base_builder(e);
    let c = e.children@[i];
    let pre = e.children@.take(i);
    let post = e.children@.skip(i + 1);
    assert(e.children@ =~= (pre + seq![c]) + post);
    assert(f2.children@ =~= pre + post);
    // the device child leaves the level's own builder untouched
    lemma_fold_children_concat(b, pre + seq![c], post);
    lemma_fold_children_concat(b, pre, seq![c]);
    let b1 = s_fold_children(b, pre);
    assert(seq![c].drop_last() =~= Seq::<XmlElement>::empty());
    assert(seq![c].last() == c);
    assert(s_fold_children(b1, Seq::<XmlElement>::empty()) == b1);
    assert(s_fold_children(b1, seq![c]) == s_apply_child(b1, c));
    assert(s_apply_child(b1, c) == b1);
    lemma_fold_children_concat(b, pre, post);
    assert(s_level_builder(e) == s_level_builder(f2));
    let lvl = s_level_builder(e);
    // the device's one builder conflicts with the level and finalizes to
    // nothing
    lemma_fam_children_concat(pre + seq![c], post);
    lemma_fam_children_concat(pre, seq![c]);
    assert(s_fam_children(Seq::<XmlElement>::empty()) == Seq::<DeviceBuilderModel>::empty());
    assert(s_fam_children(seq![c]) =~= s_parse_device(c));
    assert(s_parse_device(c) =~= seq![s_level_builder(c)]);
    lemma_fam_children_concat(pre, post);
    lemma_finalize_all_concat(s_fam_children(pre + seq![c]), s_fam_children(post), lvl);
    lemma_finalize_all_concat(s_fam_children(pre), s_fam_children(seq![c]), lvl);
    lemma_processor_merge_conflict(s_level_builder(c), lvl);
    assert(seq![s_level_builder(c)].drop_last() =~= Seq::<DeviceBuilderModel>::empty());
    assert(s_finalize_all(Seq::<DeviceBuilderModel>::empty(), lvl) == Seq::<DeviceModel>::empty());
    assert(s_finalize_all(seq![s_level_builder(c)], lvl) =~= Seq::<DeviceModel>::empty());
    lemma_finalize_all_concat(s_fam_children(pre), s_fam_children(post), lvl);
    assert(s_parse_family(e) =~= s_parse_family(f2));
}

} // verus!
